use vstd::prelude::*;


use crate::config::{spec_candidate_valid, OptimizerConfig, OptimizerError, PluginConfig};
use crate::state::PreferredIps;
use crate::net::{
    in_ranges, parse_ip_address, parse_network, spec_in_ranges, spec_parse_ip_address,
    spec_parse_network, spec_ranges_wf, spec_v4_hostmask, spec_v4_netmask, spec_v6_hostmask,
    spec_v6_netmask, IpAddress, Network,
};
use crate::text::{
    chars_of, has_trimmed_piece, lower, parse_unsigned, piece_end, second_field, slice_chars,
    spec_contains, spec_has_trimmed_piece, spec_lower, spec_next_sep, spec_parse_unsigned,
    spec_second_field, spec_starts_with, spec_trim, spec_utf8_lossy, starts_with, trim, utf8_lossy,
    contains,
};
use vstd::string::*;

verus! {

broadcast use vstd::seq_lib::group_to_multiset_ensures;

/// The largest `std::time::Duration`, in nanoseconds.
pub const MAX_DURATION_NANOS: u128 = 18_446_744_073_709_551_615_999_999_999;

/// `Duration::saturating_add` on nanosecond counts.
pub open spec fn spec_saturating_add(a: u128, b: u128) -> u128 {
    if a + b > MAX_DURATION_NANOS {
        MAX_DURATION_NANOS
    } else {
        (a + b) as u128
    }
}

/// Durations of one candidate's probes, in nanoseconds.
pub open spec fn spec_durations_valid(samples: Seq<u128>) -> bool {
    forall|i: int| 0 <= i < samples.len() ==> samples[i] <= MAX_DURATION_NANOS
}

/// Ascending order.
pub open spec fn spec_sorted(s: Seq<u128>) -> bool {
    forall|i: int, j: int| 0 <= i <= j < s.len() ==> s[i] <= s[j]
}

/// The timing summary of one candidate (all values in nanoseconds).
#[derive(Debug, Clone, Copy, PartialEq, Eq, Structural)]
pub struct ProbeTiming {
    pub score: u128,
    pub median_latency: u128,
    pub worst_latency: u128,
}

/// The timing of a sorted, non-empty sample list: the median (mean of the two
/// middle samples), the worst sample, and a score that adds half the gap
/// between the worst sample and the median, so a slow tail costs.
pub open spec fn spec_timing(sorted: Seq<u128>) -> ProbeTiming {
    let lower_middle = sorted[(sorted.len() - 1) / 2];
    let upper_middle = sorted[sorted.len() as int / 2];
    let median = (spec_saturating_add(lower_middle, upper_middle) / 2) as u128;
    let worst = sorted.last();
    let gap = if worst >= median {
        ((worst - median) / 2) as u128
    } else {
        0
    };
    ProbeTiming {
        score: spec_saturating_add(median, gap),
        median_latency: median,
        worst_latency: worst,
    }
}

/// Sorts durations in ascending order.
pub fn sort_durations(samples: &mut Vec<u128>)
    ensures
        spec_sorted(final(samples)@),
        final(samples)@.to_multiset() == old(samples)@.to_multiset(),
{
    let mut sorted: Vec<u128> = Vec::new();
    let mut i: usize = 0;
    while i < samples.len()
        invariant
            i <= samples@.len(),
            spec_sorted(sorted@),
            sorted@.to_multiset() == samples@.take(i as int).to_multiset(),
        decreases samples@.len() - i,
    {
        let x = samples[i];
        let mut k: usize = 0;
        while k < sorted.len() && sorted[k] <= x
            invariant
                k <= sorted@.len(),
                forall|m: int| 0 <= m < k ==> sorted@[m] <= x,
            decreases sorted@.len() - k,
        {
            k += 1;
        }
        let ghost before = sorted@;
        sorted.insert(k, x);
        proof {
            assert(sorted@.remove(k as int) =~= before);
            assert(sorted@[k as int] == x);
            assert(samples@.take(i + 1) =~= samples@.take(i as int).push(x));
            assert(sorted@.to_multiset() =~= before.to_multiset().insert(x)) by {
                assert(sorted@.remove(k as int).to_multiset() =~= sorted@.to_multiset().remove(
                    x,
                ));
                assert(sorted@.to_multiset().count(x) > 0) by {
                    assert(sorted@.contains(x));
                }
            }
            assert forall|a: int, b: int| 0 <= a <= b < sorted@.len() implies sorted@[a]
                <= sorted@[b] by {
                if a < k && b > k {
                    assert(sorted@[b] == before[b - 1]);
                    assert(before[a] <= x);
                    if k < before.len() {
                        assert(before[k as int] > x);
                        assert(before[k as int] <= before[b - 1]);
                    }
                } else if a == k && b > k {
                    assert(sorted@[b] == before[b - 1]);
                    assert(before[k as int] > x);
                    assert(before[k as int] <= before[b - 1]);
                } else if a < k && b == k {
                } else if a > k {
                    assert(sorted@[a] == before[a - 1]);
                    assert(sorted@[b] == before[b - 1]);
                }
            }
        }
        i += 1;
    }
    assert(samples@.take(samples@.len() as int) =~= samples@);
    *samples = sorted;
}

/// Sorts the samples and summarizes them.
pub fn score_probe_samples(samples: &mut Vec<u128>) -> (r: ProbeTiming)
    requires
        old(samples)@.len() > 0,
        spec_durations_valid(old(samples)@),
    ensures
        spec_sorted(final(samples)@),
        final(samples)@.to_multiset() == old(samples)@.to_multiset(),
        r == spec_timing(final(samples)@),
{
    let ghost original = samples@;
    sort_durations(samples);
    proof {
        assert forall|i: int| 0 <= i < samples@.len() implies samples@[i] <= MAX_DURATION_NANOS by {
            assert(samples@.to_multiset().count(samples@[i]) > 0) by {
                assert(samples@.contains(samples@[i]));
            }
            assert(original.contains(samples@[i]));
        }
        assert(samples@.len() == original.len()) by {
            assert(samples@.to_multiset().len() == original.to_multiset().len());
        }
    }
    let n = samples.len();
    let lower_middle = samples[(n - 1) / 2];
    let upper_middle = samples[n / 2];
    let sum = if lower_middle > MAX_DURATION_NANOS - upper_middle {
        MAX_DURATION_NANOS
    } else {
        lower_middle + upper_middle
    };
    let median = sum / 2;
    let worst = samples[n - 1];
    let gap = if worst >= median {
        (worst - median) / 2
    } else {
        0
    };
    let score = if median > MAX_DURATION_NANOS - gap {
        MAX_DURATION_NANOS
    } else {
        median + gap
    };
    ProbeTiming { score, median_latency: median, worst_latency: worst }
}


/// Why a probe response is rejected.
#[derive(Debug, Clone, Copy, PartialEq, Eq, Structural)]
pub enum ProbeError {
    NotSuccessful,
    NotCloudflare,
    EdgeIpRestricted,
    InvalidStatusLine,
    BadStatus { status: u16 },
}

/// A Cloudflare trace response: after lossy UTF-8 decoding and ASCII lower
/// casing it starts with `http/1.1 2` or `http/1.0 2`, and one of its lines,
/// trimmed, is `server: cloudflare`.
pub open spec fn spec_cloudflare_probe_error(header: Seq<u8>) -> Option<ProbeError> {
    let text = spec_lower(spec_utf8_lossy(header));
    if !(spec_starts_with(text, "http/1.1 2"@) || spec_starts_with(text, "http/1.0 2"@)) {
        Some(ProbeError::NotSuccessful)
    } else if !spec_has_trimmed_piece(text, '\n', "server: cloudflare"@) {
        Some(ProbeError::NotCloudflare)
    } else {
        None
    }
}

pub fn validate_cloudflare_probe_response(header: &[u8]) -> (r: Result<(), ProbeError>)
    ensures
        r matches Err(e) ==> spec_cloudflare_probe_error(header@) == Some(e),
        r is Ok <==> spec_cloudflare_probe_error(header@) is None,
{
    let decoded = utf8_lossy(header);
    let raw = chars_of(decoded.as_str());
    let text = lower(raw.as_slice());
    let http11 = chars_of("http/1.1 2");
    let http10 = chars_of("http/1.0 2");
    if !(starts_with(text.as_slice(), http11.as_slice()) || starts_with(
        text.as_slice(),
        http10.as_slice(),
    )) {
        return Err(ProbeError::NotSuccessful);
    }
    let server = chars_of("server: cloudflare");
    if !has_trimmed_piece(text.as_slice(), '\n', server.as_slice()) {
        return Err(ProbeError::NotCloudflare);
    }
    Ok(())
}

/// The markers of Cloudflare's "edge IP restricted" error page (error 1034).
pub open spec fn spec_restriction_marker(text: Seq<char>) -> bool {
    ||| spec_contains(text, "error 1034"@)
    ||| spec_contains(text, "error code: 1034"@)
    ||| spec_contains(text, "edge ip restricted"@)
}

/// The status code of the first line: its second whitespace-separated field.
pub open spec fn spec_status_code(text: Seq<char>) -> Option<nat> {
    match spec_second_field(text.subrange(0, spec_next_sep(text, '\n', 0))) {
        Some(field) => spec_parse_unsigned(field, 65535),
        None => None,
    }
}

/// A compatibility response: no edge-IP restriction marker anywhere (ignoring
/// ASCII case), and a first line whose status code is in 200..400.
pub open spec fn spec_compatibility_probe_error(response: Seq<u8>) -> Option<ProbeError> {
    let text = spec_utf8_lossy(response);
    if spec_restriction_marker(spec_lower(text)) {
        Some(ProbeError::EdgeIpRestricted)
    } else {
        match spec_status_code(text) {
            None => Some(ProbeError::InvalidStatusLine),
            Some(status) => if 200 <= status < 400 {
                None
            } else {
                Some(ProbeError::BadStatus { status: status as u16 })
            },
        }
    }
}

pub fn validate_compatibility_probe_response(response: &[u8]) -> (r: Result<(), ProbeError>)
    ensures
        r matches Err(e) ==> spec_compatibility_probe_error(response@) == Some(e),
        r is Ok <==> spec_compatibility_probe_error(response@) is None,
{
    let decoded = utf8_lossy(response);
    let text = chars_of(decoded.as_str());
    let lowered = lower(text.as_slice());
    let m1 = chars_of("error 1034");
    let m2 = chars_of("error code: 1034");
    let m3 = chars_of("edge ip restricted");
    if contains(lowered.as_slice(), m1.as_slice()) || contains(lowered.as_slice(), m2.as_slice())
        || contains(lowered.as_slice(), m3.as_slice()) {
        return Err(ProbeError::EdgeIpRestricted);
    }
    let end = piece_end(text.as_slice(), '\n', 0);
    let first_line = slice_chars(text.as_slice(), 0, end);
    let field = match second_field(first_line.as_slice()) {
        Some(field) => field,
        None => return Err(ProbeError::InvalidStatusLine),
    };
    let status = match parse_unsigned(field.as_slice(), 65535) {
        Some(status) => status as u16,
        None => return Err(ProbeError::InvalidStatusLine),
    };
    if !(200 <= status && status < 400) {
        return Err(ProbeError::BadStatus { status });
    }
    Ok(())
}

/// The largest body prefix read after the header of a compatibility probe.
pub const MAX_BODY_PREFIX: usize = 4096;

/// The value of the first `content-length:` line, from piece `i` on, whose
/// trimmed value parses as a `usize`.
pub open spec fn spec_content_length_from(text: Seq<char>, i: int) -> Option<nat>
    decreases text.len() - i,
{
    if i < 0 || i > text.len() {
        None
    } else {
        let j = spec_next_sep(text, '\n', i);
        let line = text.subrange(i, j);
        let prefix = "content-length:"@;
        if j < i {
            None
        } else if spec_starts_with(line, prefix) && spec_parse_unsigned(
            spec_trim(line.subrange(prefix.len() as int, line.len() as int)),
            usize::MAX as nat,
        ) is Some {
            spec_parse_unsigned(
                spec_trim(line.subrange(prefix.len() as int, line.len() as int)),
                usize::MAX as nat,
            )
        } else if j >= text.len() {
            None
        } else {
            spec_content_length_from(text, j + 1)
        }
    }
}

proof fn lemma_content_length_bound(text: Seq<char>, i: int)
    ensures
        spec_content_length_from(text, i) matches Some(v) ==> v <= usize::MAX,
    decreases text.len() - i,
{
    if 0 <= i <= text.len() {
        let j = spec_next_sep(text, '\n', i);
        if j >= i && j < text.len() {
            lemma_content_length_bound(text, j + 1);
        }
    }
}

/// How far to read a compatibility response: the header, then the body up to
/// its declared length, at most 4096 bytes of it. A chunked or unframed body
/// gets the same 4096-byte prefix, so that an error page is not missed.
pub open spec fn spec_body_prefix_limit(header: Seq<u8>, header_end: usize) -> usize {
    let text = spec_lower(spec_utf8_lossy(header));
    let extra = match spec_content_length_from(text, 0) {
        Some(length) => if length < MAX_BODY_PREFIX {
            length
        } else {
            MAX_BODY_PREFIX as nat
        },
        None => MAX_BODY_PREFIX as nat,
    };
    if header_end + extra > usize::MAX {
        usize::MAX
    } else {
        (header_end + extra) as usize
    }
}

pub fn compatibility_body_prefix_limit(header: &[u8], header_end: usize) -> (r: usize)
    ensures
        r == spec_body_prefix_limit(header@, header_end),
{
    let decoded = utf8_lossy(header);
    let raw = chars_of(decoded.as_str());
    let text = lower(raw.as_slice());
    let prefix = chars_of("content-length:");
    let n = text.len();
    let mut i: usize = 0;
    let mut found: Option<u64> = None;
    loop
        invariant_except_break
            found is None,
            spec_content_length_from(text@, 0) == spec_content_length_from(text@, i as int),
        invariant
            n == text@.len(),
            i <= n,
            prefix@ == "content-length:"@,
        ensures
            match spec_content_length_from(text@, 0) {
                Some(v) => found == Some(v as u64),
                None => found is None,
            },
        decreases n - i,
    {
        let j = piece_end(text.as_slice(), '\n', i);
        let line = slice_chars(text.as_slice(), i, j);
        if starts_with(line.as_slice(), prefix.as_slice()) {
            let value = slice_chars(line.as_slice(), prefix.len(), line.len());
            let trimmed = trim(value.as_slice());
            let parsed = parse_unsigned(trimmed.as_slice(), usize::MAX as u64);
            if parsed.is_some() {
                found = parsed;
                break;
            }
        }
        if j >= n {
            break;
        }
        i = j + 1;
    }
    proof {
        lemma_content_length_bound(text@, 0);
    }
    let extra: usize = match found {
        Some(length) => if length < MAX_BODY_PREFIX as u64 {
            length as usize
        } else {
            MAX_BODY_PREFIX
        },
        None => MAX_BODY_PREFIX,
    };
    if header_end > usize::MAX - extra {
        usize::MAX
    } else {
        header_end + extra
    }
}


/// The HTTP/1.1 GET request of a probe.
pub open spec fn spec_probe_request(host: Seq<char>, path: Seq<char>) -> Seq<char> {
    "GET "@ + path + " HTTP/1.1\r\nHost: "@ + host
        + "\r\nUser-Agent: edgesteer/0.1\r\nAccept-Encoding: identity\r\nConnection: close\r\n\r\n"@
}

pub fn probe_request(host: &str, path: &str) -> (r: String)
    ensures
        r@ == spec_probe_request(host@, path@),
{
    let mut request = String::from_str("GET ");
    request.append(path);
    request.append(" HTTP/1.1\r\nHost: ");
    request.append(host);
    request.append(
        "\r\nUser-Agent: edgesteer/0.1\r\nAccept-Encoding: identity\r\nConnection: close\r\n\r\n",
    );
    request
}

/// A candidate that passed every probe, with its timing (nanoseconds).
#[derive(Debug, Clone, Copy, PartialEq, Eq, Structural)]
pub struct ProbeResult {
    pub address: IpAddress,
    pub score: u128,
    pub median_latency: u128,
    pub worst_latency: u128,
}

/// The candidate beats the current best: a lower score, then a lower median,
/// then a lower worst latency; anything beats no result.
pub open spec fn spec_is_faster(candidate: ProbeResult, current: Option<ProbeResult>) -> bool {
    match current {
        None => true,
        Some(c) => candidate.score < c.score || (candidate.score == c.score
            && candidate.median_latency < c.median_latency) || (candidate.score == c.score
            && candidate.median_latency == c.median_latency && candidate.worst_latency
            < c.worst_latency),
    }
}

pub fn is_faster(candidate: &ProbeResult, current: Option<&ProbeResult>) -> (r: bool)
    ensures
        current matches Some(c) ==> (candidate.score < c.score ==> r) && (candidate.score > c.score
            ==> !r),
        r == spec_is_faster(
            *candidate,
            match current {
                Some(c) => Some(*c),
                None => None,
            },
        ),
{
    match current {
        None => true,
        Some(c) => candidate.score < c.score || (candidate.score == c.score
            && candidate.median_latency < c.median_latency) || (candidate.score == c.score
            && candidate.median_latency == c.median_latency && candidate.worst_latency
            < c.worst_latency),
    }
}

/// The fastest probe of each address family seen so far in a round.
pub struct BestProbes {
    pub ipv4: Option<ProbeResult>,
    pub ipv6: Option<ProbeResult>,
}

/// The fastest of a round's probes of one family: each probe of the family
/// replaces the best so far where it is faster, in the order they finish.
pub open spec fn spec_fastest(probes: Seq<ProbeResult>, ipv4: bool) -> Option<ProbeResult>
    decreases probes.len(),
{
    if probes.len() == 0 {
        None
    } else {
        let before = spec_fastest(probes.drop_last(), ipv4);
        let p = probes.last();
        if (p.address is V4) == ipv4 && spec_is_faster(p, before) {
            Some(p)
        } else {
            before
        }
    }
}

impl BestProbes {
    pub fn new() -> (r: BestProbes)
        ensures
            r.ipv4 is None && r.ipv6 is None,
    {
        BestProbes { ipv4: None, ipv6: None }
    }

    /// Takes a finished probe: it becomes the best of its family where it
    /// is faster than the best so far.
    pub fn offer(&mut self, probe: ProbeResult)
        ensures
            final(self).ipv4 == (if probe.address is V4 && spec_is_faster(probe, old(self).ipv4) {
                Some(probe)
            } else {
                old(self).ipv4
            }),
            final(self).ipv6 == (if probe.address is V6 && spec_is_faster(probe, old(self).ipv6) {
                Some(probe)
            } else {
                old(self).ipv6
            }),
    {
        match probe.address {
            IpAddress::V4(_) => {
                let faster = match &self.ipv4 {
                    Some(current) => is_faster(&probe, Some(current)),
                    None => true,
                };
                if faster {
                    self.ipv4 = Some(probe);
                }
            },
            IpAddress::V6(_) => {
                let faster = match &self.ipv6 {
                    Some(current) => is_faster(&probe, Some(current)),
                    None => true,
                };
                if faster {
                    self.ipv6 = Some(probe);
                }
            },
        }
    }

    /// The round's selection: the address of the fastest probe of each family.
    pub fn preferred(&self) -> (r: PreferredIps)
        ensures
            r.ipv4 == (match self.ipv4 {
                Some(p) => match p.address {
                    IpAddress::V4(a) => Some(a),
                    IpAddress::V6(_) => None,
                },
                None => None,
            }),
            r.ipv6 == (match self.ipv6 {
                Some(p) => match p.address {
                    IpAddress::V4(_) => None,
                    IpAddress::V6(a) => Some(a),
                },
                None => None,
            }),
    {
        PreferredIps {
            ipv4: match &self.ipv4 {
                Some(p) => match p.address {
                    IpAddress::V4(a) => Some(a),
                    IpAddress::V6(_) => None,
                },
                None => None,
            },
            ipv6: match &self.ipv6 {
                Some(p) => match p.address {
                    IpAddress::V4(_) => None,
                    IpAddress::V6(a) => Some(a),
                },
                None => None,
            },
        }
    }
}

/// The score decides first: a probe with a lower score than the best so far
/// beats it, whatever its median and worst latencies, and one with a higher
/// score never does.
pub proof fn law_lower_score_is_faster(candidate: ProbeResult, current: ProbeResult)
    ensures
        candidate.score < current.score ==> spec_is_faster(candidate, Some(current)),
        candidate.score > current.score ==> !spec_is_faster(candidate, Some(current)),
{
}

/// The probe a round keeps for a family has the lowest score of all the
/// round's probes of that family.
pub proof fn law_kept_probe_has_the_lowest_score(probes: Seq<ProbeResult>, ipv4: bool)
    ensures
        spec_fastest(probes, ipv4) matches Some(best) ==> forall|k: int|
            0 <= k < probes.len() && ((#[trigger] probes[k]).address is V4) == ipv4 ==> best.score
                <= probes[k].score,
{
    law_offer_keeps_the_fastest(probes, ipv4);
    if let Some(best) = spec_fastest(probes, ipv4) {
        assert forall|k: int|
            0 <= k < probes.len() && ((#[trigger] probes[k]).address is V4) == ipv4 implies best.score
                <= probes[k].score by {
            assert(!spec_is_faster(probes[k], Some(best)));
            law_lower_score_is_faster(probes[k], best);
        }
    }
}

/// Offering a round's probes one by one keeps the fastest of each family.
pub proof fn law_offer_keeps_the_fastest(probes: Seq<ProbeResult>, ipv4: bool)
    ensures
        spec_fastest(probes, ipv4) matches Some(best) ==> (best.address is V4) == ipv4
            && probes.contains(best),
        forall|k: int|
            0 <= k < probes.len() && ((#[trigger] probes[k]).address is V4) == ipv4
                ==> !spec_is_faster(probes[k], spec_fastest(probes, ipv4)),
        (exists|k: int| 0 <= k < probes.len() && ((#[trigger] probes[k]).address is V4) == ipv4)
            ==> spec_fastest(probes, ipv4) is Some,
    decreases probes.len(),
{
    if probes.len() > 0 {
        let prefix = probes.drop_last();
        law_offer_keeps_the_fastest(prefix, ipv4);
        assert forall|k: int|
            0 <= k < probes.len() && ((#[trigger] probes[k]).address is V4) == ipv4 implies !spec_is_faster(
            probes[k],
            spec_fastest(probes, ipv4),
        ) by {
            if k < prefix.len() {
                assert(probes[k] == prefix[k]);
            }
        }
        if spec_fastest(probes, ipv4) is Some {
            let best = spec_fastest(probes, ipv4)->0;
            if best != probes.last() {
                let w = choose|w: int| 0 <= w < prefix.len() && prefix[w] == best;
                assert(probes[w] == best);
            } else {
                assert(probes[probes.len() - 1] == best);
            }
        }
        if exists|k: int| 0 <= k < probes.len() && ((#[trigger] probes[k]).address is V4) == ipv4 {
            let k = choose|k: int| 0 <= k < probes.len() && ((#[trigger] probes[k]).address is V4) == ipv4;
            if k < prefix.len() {
                assert(prefix[k] == probes[k]);
            }
        }
    }
}

/// What a finished probe round does to a plugin's preferred addresses.
#[derive(Debug, Clone, Copy, PartialEq, Eq, Structural)]
pub enum RoundAction {
    /// Take the selection.
    Update(PreferredIps),
    /// Drop the addresses (a strict plugin's round produced nothing usable).
    Clear,
    /// Keep the addresses as they are.
    Keep,
}

/// A round that selected some address updates the plugin; a round that
/// selected nothing or failed (`None`) clears a strict plugin and leaves any
/// other as it was.
pub fn round_action(strict: bool, selection: Option<PreferredIps>) -> (r: RoundAction)
    ensures
        r == (match selection {
            Some(s) if !(s.ipv4 is None && s.ipv6 is None) => RoundAction::Update(s),
            _ => if strict {
                RoundAction::Clear
            } else {
                RoundAction::Keep
            },
        }),
{
    match selection {
        Some(s) if !s.is_empty() => RoundAction::Update(s),
        _ => if strict {
            RoundAction::Clear
        } else {
            RoundAction::Keep
        },
    }
}

/// The shortest probe interval of the enabled optimizers, if any is enabled.
pub open spec fn spec_min_interval(plugins: Seq<PluginConfig>) -> Option<u64>
    decreases plugins.len(),
{
    if plugins.len() == 0 {
        None
    } else {
        let before = spec_min_interval(plugins.drop_last());
        let p = plugins.last();
        if !p.optimizer.enabled {
            before
        } else {
            match before {
                None => Some(p.optimizer.interval_secs),
                Some(m) => Some(if p.optimizer.interval_secs < m {
                    p.optimizer.interval_secs
                } else {
                    m
                }),
            }
        }
    }
}

/// How long the optimizer sleeps before its next round: the shortest
/// interval of the enabled optimizers (sixty seconds where none is
/// enabled), and at least one second.
pub fn next_round_delay_secs(plugins: &Vec<PluginConfig>) -> (r: u64)
    ensures
        r == (match spec_min_interval(plugins@) {
            Some(m) => if m < 1 {
                1
            } else {
                m
            },
            None => 60,
        }),
{
    let mut next: Option<u64> = None;
    let mut i: usize = 0;
    while i < plugins.len()
        invariant
            i <= plugins@.len(),
            next == spec_min_interval(plugins@.take(i as int)),
        decreases plugins@.len() - i,
    {
        assert(plugins@.take(i + 1).drop_last() =~= plugins@.take(i as int));
        let settings = &plugins[i].optimizer;
        if settings.enabled {
            next = Some(
                match next {
                    None => settings.interval_secs,
                    Some(m) => if settings.interval_secs < m {
                        settings.interval_secs
                    } else {
                        m
                    },
                },
            );
        }
        i += 1;
    }
    assert(plugins@.take(plugins@.len() as int) =~= plugins@);
    match next {
        Some(m) => if m < 1 {
            1
        } else {
            m
        },
        None => 60,
    }
}

/// How many probes run at once: the configured concurrency, but no more
/// than there are candidates.
pub fn worker_count(concurrency: usize, candidates: usize) -> (r: usize)
    ensures
        r == (if concurrency < candidates {
            concurrency
        } else {
            candidates
        }),
{
    if concurrency < candidates {
        concurrency
    } else {
        candidates
    }
}

/// The bytes `\r\n\r\n` start at `i`.
pub open spec fn spec_blank_line_at(bytes: Seq<u8>, i: int) -> bool {
    0 <= i && i + 4 <= bytes.len() && bytes[i] == 13 && bytes[i + 1] == 10 && bytes[i + 2] == 13
        && bytes[i + 3] == 10
}

/// The end of the header read so far, once its blank line has arrived.
pub fn header_end(response: &[u8]) -> (r: Option<usize>)
    ensures
        match r {
            Some(end) => end >= 4 && spec_blank_line_at(response@, end - 4) && forall|j: int|
                0 <= j < end - 4 ==> !spec_blank_line_at(response@, j),
            None => forall|i: int| !spec_blank_line_at(response@, i),
        },
{
    let n = response.len();
    let mut i: usize = 0;
    while i < n && n - i >= 4
        invariant
            i <= n,
            n == response@.len(),
            forall|j: int| 0 <= j < i ==> !spec_blank_line_at(response@, j),
        decreases n - i,
    {
        if response[i] == 13 && response[i + 1] == 10 && response[i + 2] == 13 && response[i + 3]
            == 10 {
            return Some(i + 4);
        }
        i += 1;
    }
    None
}

/// How many addresses of a network a sample may pick: for IPv4 all host
/// addresses but the network and broadcast addresses (all of a /31 or /32),
/// for IPv6 all of them; capped at `usize::MAX`.
pub open spec fn spec_selectable_address_count(network: Network) -> usize {
    match network.addr {
        IpAddress::V4(_) => {
            let host_bits = 32 - network.prefix_len;
            let total = vstd::arithmetic::power2::pow2(host_bits as nat);
            let count = if host_bits <= 1 {
                total
            } else {
                (total - 2) as nat
            };
            if count > usize::MAX {
                usize::MAX
            } else {
                count as usize
            }
        },
        IpAddress::V6(_) => {
            let host_bits = 128 - network.prefix_len;
            if host_bits == 128 {
                usize::MAX
            } else {
                let total = vstd::arithmetic::power2::pow2(host_bits as nat);
                if total > usize::MAX {
                    usize::MAX
                } else {
                    total as usize
                }
            }
        },
    }
}

pub fn selectable_address_count(network: Network) -> (r: usize)
    requires
        network.wf(),
    ensures
        r == spec_selectable_address_count(network),
{
    match network.addr {
        IpAddress::V4(_) => {
            let host_bits: u64 = 32 - network.prefix_len as u64;
            proof {
                vstd::arithmetic::power2::lemma_pow2_pos(host_bits as nat);
                vstd::arithmetic::power2::lemma2_to64();
                if host_bits < 32 {
                    vstd::arithmetic::power2::lemma_pow2_strictly_increases(host_bits as nat, 32);
                }
                vstd::bits::lemma_u64_shl_is_mul(1, host_bits);
            }
            let total: u64 = 1u64 << host_bits;
            let count: u64 = if host_bits <= 1 {
                total
            } else {
                total - 2
            };
            if count > usize::MAX as u64 {
                usize::MAX
            } else {
                count as usize
            }
        },
        IpAddress::V6(_) => {
            let host_bits: u64 = 128 - network.prefix_len as u64;
            if host_bits >= 64 {
                proof {
                    vstd::arithmetic::power2::lemma2_to64();
                    if host_bits > 64 {
                        vstd::arithmetic::power2::lemma_pow2_strictly_increases(64, host_bits as nat);
                    }
                }
                return usize::MAX;
            }
            proof {
                vstd::arithmetic::power2::lemma_pow2_pos(host_bits as nat);
                vstd::bits::lemma_u64_pow2_no_overflow(host_bits as nat);
                vstd::bits::lemma_u64_shl_is_mul(1, host_bits);
            }
            let total: u64 = 1u64 << host_bits;
            if total > usize::MAX as u64 {
                usize::MAX
            } else {
                total as usize
            }
        },
    }
}


/// A uniformly random 128-bit value from `rand::random` (the thread-local
/// generator). Nothing is claimed of the value.
#[verifier::external_body]
fn random_u128() -> u128 {
    rand::random::<u128>()
}

/// `rand::random_range(low..high)`: a random value of the half-open range,
/// which rand refuses (panics) when it is empty.
#[verifier::external_body]
fn random_u32_below(low: u32, high: u32) -> (r: u32)
    requires
        low < high,
    ensures
        low <= r < high,
{
    rand::random_range(low..high)
}

/// A random host part under an IPv4 host mask: below a mask of two or more
/// bits neither all zeros (the network address) nor the mask itself (the
/// broadcast address); any value under a mask of 0 or 1.
pub fn random_ipv4_host(mask: u32) -> (r: u32)
    ensures
        mask <= 1 ==> r <= mask,
        mask > 1 ==> 1 <= r < mask,
{
    if mask <= 1 {
        let bits = random_u128() as u32;
        let r = bits & mask;
        assert(r <= mask) by (bit_vector)
            requires
                r == bits & mask,
        ;
        r
    } else {
        random_u32_below(1, mask)
    }
}

impl Network {
    /// An address that a sample of this network may pick: inside the network
    /// and, for IPv4 with at least two host bits, neither its network nor its
    /// broadcast address.
    pub open spec fn spec_selectable(self, address: IpAddress) -> bool {
        &&& self.spec_contains(address)
        &&& match (self.addr, address) {
            (IpAddress::V4(n), IpAddress::V4(a)) => self.prefix_len <= 30 ==> a != (n
                & spec_v4_netmask(self.prefix_len)) && a != (n | spec_v4_hostmask(
                self.prefix_len,
            )),
            _ => true,
        }
    }
}

proof fn lemma_v4_host_in_network(n: u32, h: u32, p: u8)
    requires
        p <= 32,
        h <= spec_v4_hostmask(p),
        p <= 30 ==> 1 <= h < spec_v4_hostmask(p),
    ensures
        (Network { addr: IpAddress::V4(n), prefix_len: p }).spec_selectable(
            IpAddress::V4(n & spec_v4_netmask(p) | h),
        ),
{
    let nm = spec_v4_netmask(p);
    let hm = spec_v4_hostmask(p);
    if p == 0 {
        assert(0xffff_ffffu32 >> 0u32 == 0xffff_ffffu32) by (bit_vector);
        assert(n & 0 == 0 && n & 0 | h == h && h <= (n | hm) && (p <= 30 ==> h != 0 && h != (n | hm)))
            by (bit_vector)
            requires
                hm == 0xffff_ffffu32,
                h <= hm,
                p <= 30 ==> 1 <= h < hm,
        ;
    } else if p == 32 {
        assert(0xffff_ffffu32 << 0u32 == 0xffff_ffffu32) by (bit_vector);
        assert((n & nm) == n && (n & nm | h) == n && n <= (n | hm)) by (bit_vector)
            requires
                nm == 0xffff_ffffu32,
                hm == 0,
                h <= hm,
        ;
    } else {
        let q: u32 = p as u32;
        assert(nm == 0xffff_ffffu32 << ((32 - q) as u32) && hm == 0xffff_ffffu32 >> q);
        assert((n & nm) <= (n & nm | h) && (n & nm | h) <= (n | hm) && (q <= 30 ==> (n & nm | h)
            != (n & nm) && (n & nm | h) != (n | hm))) by (bit_vector)
            requires
                0 < q < 32,
                nm == 0xffff_ffffu32 << ((32 - q) as u32),
                hm == 0xffff_ffffu32 >> q,
                h <= hm,
                q <= 30 ==> 1 <= h < hm,
        ;
    }
}

proof fn lemma_v6_host_in_network(n: u128, bits: u128, p: u8)
    requires
        p <= 128,
    ensures
        (Network { addr: IpAddress::V6(n), prefix_len: p }).spec_selectable(
            IpAddress::V6(n & spec_v6_netmask(p) | bits & spec_v6_hostmask(p)),
        ),
{
    let nm = spec_v6_netmask(p);
    let hm = spec_v6_hostmask(p);
    if p == 0 {
        assert(0xffff_ffff_ffff_ffff_ffff_ffff_ffff_ffffu128 >> 0u32
            == 0xffff_ffff_ffff_ffff_ffff_ffff_ffff_ffffu128) by (bit_vector);
        assert((n & nm) <= (n & nm | bits & hm) && (n & nm | bits & hm) <= (n | hm))
            by (bit_vector)
            requires
                nm == 0,
                hm == 0xffff_ffff_ffff_ffff_ffff_ffff_ffff_ffffu128,
        ;
    } else if p == 128 {
        assert(0xffff_ffff_ffff_ffff_ffff_ffff_ffff_ffffu128 << 0u32
            == 0xffff_ffff_ffff_ffff_ffff_ffff_ffff_ffffu128) by (bit_vector);
        assert((n & nm) <= (n & nm | bits & hm) && (n & nm | bits & hm) <= (n | hm))
            by (bit_vector)
            requires
                nm == 0xffff_ffff_ffff_ffff_ffff_ffff_ffff_ffffu128,
                hm == 0,
        ;
    } else {
        let q: u32 = p as u32;
        assert(nm == 0xffff_ffff_ffff_ffff_ffff_ffff_ffff_ffffu128 << ((128 - q) as u32) && hm
            == 0xffff_ffff_ffff_ffff_ffff_ffff_ffff_ffffu128 >> q);
        assert((n & nm) <= (n & nm | bits & hm) && (n & nm | bits & hm) <= (n | hm))
            by (bit_vector)
            requires
                0 < q < 128,
                nm == 0xffff_ffff_ffff_ffff_ffff_ffff_ffff_ffffu128 << ((128 - q) as u32),
                hm == 0xffff_ffff_ffff_ffff_ffff_ffff_ffff_ffffu128 >> q,
        ;
    }
}

/// A random address of a network: its network address with a random host
/// part; for IPv4 with at least two host bits never the network or broadcast
/// address.
pub fn random_address_in_network(network: Network) -> (r: IpAddress)
    requires
        network.wf(),
    ensures
        network.spec_selectable(r),
{
    let p = network.prefix_len;
    match network.addr {
        IpAddress::V4(n) => {
            let host_mask: u32 = if p == 32 {
                0
            } else {
                0xffff_ffffu32 >> (p as u32)
            };
            let netmask: u32 = if p == 0 {
                0
            } else {
                0xffff_ffffu32 << ((32 - p) as u32)
            };
            let host = random_ipv4_host(host_mask);
            proof {
                if p <= 30 {
                    let q = p as u32;
                    assert(host_mask > 1) by (bit_vector)
                        requires
                            q <= 30,
                            host_mask == 0xffff_ffffu32 >> q,
                    ;
                }
                lemma_v4_host_in_network(n, host, p);
            }
            IpAddress::V4(n & netmask | host)
        },
        IpAddress::V6(n) => {
            let host_mask: u128 = if p == 128 {
                0
            } else {
                0xffff_ffff_ffff_ffff_ffff_ffff_ffff_ffffu128 >> (p as u32)
            };
            let netmask: u128 = if p == 0 {
                0
            } else {
                0xffff_ffff_ffff_ffff_ffff_ffff_ffff_ffffu128 << ((128 - p) as u32)
            };
            let bits = random_u128();
            proof {
                lemma_v6_host_in_network(n, bits, p);
            }
            IpAddress::V6(n & netmask | bits & host_mask)
        },
    }
}

/// `v` holds `a`.
pub fn vec_contains(v: &Vec<IpAddress>, a: IpAddress) -> (r: bool)
    ensures
        r == v@.contains(a),
{
    let mut i: usize = 0;
    while i < v.len()
        invariant
            i <= v@.len(),
            forall|k: int| 0 <= k < i ==> v@[k] != a,
        decreases v@.len() - i,
    {
        if v[i] == a {
            return true;
        }
        i += 1;
    }
    false
}

/// The integer an address stands for within one family (IPv6 when `v6`),
/// and -1 for an address of the other family.
pub open spec fn spec_family_value(v6: bool, address: IpAddress) -> int {
    match address {
        IpAddress::V4(x) => if v6 {
            -1
        } else {
            x as int
        },
        IpAddress::V6(x) => if v6 {
            x as int
        } else {
            -1
        },
    }
}

/// The address of a family that stands for `value`.
pub open spec fn spec_family_address(v6: bool, value: int) -> IpAddress {
    if v6 {
        IpAddress::V6(value as u128)
    } else {
        IpAddress::V4(value as u32)
    }
}

/// One more than the largest value of a family.
pub open spec fn spec_family_end(v6: bool) -> int {
    if v6 {
        u128::MAX + 1
    } else {
        u32::MAX + 1
    }
}

/// The addresses of a family whose values lie in `first..end`.
pub open spec fn spec_value_range(v6: bool, first: int, end: int) -> Set<IpAddress> {
    Set::new(|a: IpAddress| first <= spec_family_value(v6, a) < end)
}

proof fn lemma_value_range_len(v6: bool, first: int, end: int)
    requires
        0 <= first <= end <= spec_family_end(v6),
    ensures
        spec_value_range(v6, first, end).finite(),
        spec_value_range(v6, first, end).len() == end - first,
    decreases end - first,
{
    if end == first {
        assert(spec_value_range(v6, first, end) =~= Set::empty());
    } else {
        lemma_value_range_len(v6, first, end - 1);
        let a = spec_family_address(v6, end - 1);
        assert(spec_family_value(v6, a) == end - 1);
        assert(spec_value_range(v6, first, end) =~= spec_value_range(v6, first, end - 1).insert(a));
    }
}

/// A list without repeats that holds every address of `first..end` of a
/// family holds at least `end - first` addresses.
proof fn lemma_covering_list_len(values: Seq<IpAddress>, v6: bool, first: int, end: int)
    requires
        0 <= first <= end <= spec_family_end(v6),
        values.no_duplicates(),
        forall|x: int| first <= x < end ==> values.contains(#[trigger] spec_family_address(v6, x)),
    ensures
        values.len() >= end - first,
{
    lemma_value_range_len(v6, first, end);
    let range = spec_value_range(v6, first, end);
    assert forall|a: IpAddress| range.contains(a) implies values.to_set().contains(a) by {
        let x = spec_family_value(v6, a);
        assert(a == spec_family_address(v6, x));
        assert(values.contains(spec_family_address(v6, x)));
    }
    values.unique_seq_to_set();
    vstd::set_lib::lemma_len_subset(range, values.to_set());
}

/// Adds to `values`, in increasing order, the addresses of `first..=last` of
/// a family that it lacks, until it holds `target` addresses.
fn fill_from_interval(values: &mut Vec<IpAddress>, v6: bool, first: u128, last: u128, target: usize)
    requires
        old(values)@.no_duplicates(),
        old(values)@.len() <= target,
        first <= last,
        !v6 ==> last <= 0xffff_ffff,
        target <= last - first + 1,
    ensures
        final(values)@.len() == target,
        final(values)@.no_duplicates(),
        final(values)@.subrange(0, old(values)@.len() as int) == old(values)@,
        forall|k: int|
            old(values)@.len() <= k < final(values)@.len() ==> first <= spec_family_value(
                v6,
                #[trigger] final(values)@[k],
            ) <= last,
{
    let ghost start = values@;
    let mut c: u128 = first;
    while values.len() < target
        invariant
            first <= c <= last,
            !v6 ==> last <= 0xffff_ffff,
            target <= last - first + 1,
            values@.len() <= target,
            start.len() <= values@.len(),
            values@.no_duplicates(),
            values@.subrange(0, start.len() as int) == start,
            forall|k: int|
                start.len() <= k < values@.len() ==> first <= spec_family_value(
                    v6,
                    #[trigger] values@[k],
                ) <= last,
            forall|x: int| first <= x < c ==> values@.contains(#[trigger] spec_family_address(v6, x)),
        decreases (last - c) + (target - values@.len()),
    {
        let address = if v6 {
            IpAddress::V6(c)
        } else {
            IpAddress::V4(c as u32)
        };
        assert(address == spec_family_address(v6, c as int));
        assert(spec_family_value(v6, address) == c);
        if !vec_contains(&values, address) {
            let ghost before = values@;
            values.push(address);
            proof {
                assert(values@.subrange(0, start.len() as int) =~= before.subrange(0, start.len() as int));
                assert forall|i: int, j: int| 0 <= i < j < values@.len() implies values@[i] != values@[j] by {
                    if j == before.len() {
                        assert(before.contains(before[i]));
                    }
                }
                assert forall|x: int| first <= x < c implies values@.contains(#[trigger] spec_family_address(v6, x)) by {
                    assert(before.contains(spec_family_address(v6, x)));
                    let i = choose|i: int| 0 <= i < before.len() && before[i] == spec_family_address(v6, x);
                    assert(values@[i] == before[i]);
                }
                assert(values@[before.len() as int] == address);
            }
        }
        assert(values@.contains(spec_family_address(v6, c as int)));
        if c < last {
            c = c + 1;
        } else {
            proof {
                lemma_covering_list_len(values@, v6, first as int, last + 1);
            }
        }
    }
    assert(values@.subrange(0, start.len() as int) == start);
}

/// The addresses a sample of a network may pick, as an interval of values of
/// its family: whether it is IPv6, and the first and last value.
fn selectable_interval(network: Network) -> (r: (bool, u128, u128))
    requires
        network.wf(),
    ensures
        r.0 == (network.addr is V6),
        r.1 <= r.2,
        !r.0 ==> r.2 <= 0xffff_ffff,
        spec_selectable_address_count(network) <= r.2 - r.1 + 1,
        forall|a: IpAddress|
            r.1 <= spec_family_value(r.0, a) <= r.2 <==> network.spec_selectable(a),
        spec_selectable_address_count(network) < usize::MAX ==> spec_selectable_address_count(
            network,
        ) == r.2 - r.1 + 1,
{
    let p = network.prefix_len;
    match network.addr {
        IpAddress::V4(n) => {
            let host_mask: u32 = if p >= 32 {
                0
            } else {
                0xffff_ffffu32 >> (p as u32)
            };
            let netmask: u32 = if p == 0 {
                0
            } else {
                0xffff_ffffu32 << ((32 - p) as u32)
            };
            let low = n & netmask;
            let high = n | host_mask;
            proof {
                lemma_v4_span(n, p);
                lemma_v4_hostmask_pow2(p);
            }
            if p <= 30 {
                proof {
                    let q = p as u32;
                    assert(host_mask >= 3) by (bit_vector)
                        requires
                            q <= 30,
                            host_mask == 0xffff_ffffu32 >> q,
                    ;
                }
                (false, low as u128 + 1, high as u128 - 1)
            } else {
                (false, low as u128, high as u128)
            }
        },
        IpAddress::V6(n) => {
            let host_mask: u128 = if p >= 128 {
                0
            } else {
                0xffff_ffff_ffff_ffff_ffff_ffff_ffff_ffffu128 >> (p as u32)
            };
            let netmask: u128 = if p == 0 {
                0
            } else {
                0xffff_ffff_ffff_ffff_ffff_ffff_ffff_ffffu128 << ((128 - p) as u32)
            };
            let low = n & netmask;
            let high = n | host_mask;
            proof {
                lemma_v6_span(n, p);
                if p == 0 {
                    assert(0xffff_ffff_ffff_ffff_ffff_ffff_ffff_ffffu128 >> 0u32
                        == 0xffff_ffff_ffff_ffff_ffff_ffff_ffff_ffffu128) by (bit_vector);
                } else {
                    lemma_v6_hostmask_pow2(p);
                }
            }
            (true, low, high)
        },
    }
}

proof fn lemma_v4_hostmask_pow2(p: u8)
    requires
        p <= 32,
    ensures
        spec_v4_hostmask(p) + 1 == vstd::arithmetic::power2::pow2((32 - p) as nat),
    decreases 32 - p,
{
    if p == 32 {
        vstd::arithmetic::power2::lemma2_to64();
    } else {
        lemma_v4_hostmask_pow2((p + 1) as u8);
        let q = p as u32;
        if p == 31 {
            assert(0xffff_ffffu32 >> 31u32 == 1) by (bit_vector);
        } else {
            assert(0xffff_ffffu32 >> q == 2 * (0xffff_ffffu32 >> ((q + 1) as u32)) + 1)
                by (bit_vector)
                requires
                    q < 31,
            ;
        }
        vstd::arithmetic::power2::lemma_pow2_unfold((32 - p) as nat);
    }
}

proof fn lemma_v6_hostmask_pow2(p: u8)
    requires
        1 <= p <= 128,
    ensures
        spec_v6_hostmask(p) + 1 == vstd::arithmetic::power2::pow2((128 - p) as nat),
    decreases 128 - p,
{
    if p == 128 {
        vstd::arithmetic::power2::lemma2_to64();
    } else {
        lemma_v6_hostmask_pow2((p + 1) as u8);
        let q = p as u32;
        if p == 127 {
            assert(0xffff_ffff_ffff_ffff_ffff_ffff_ffff_ffffu128 >> 127u32 == 1) by (bit_vector);
        } else {
            assert(0xffff_ffff_ffff_ffff_ffff_ffff_ffff_ffffu128 >> q == 2 * (
            0xffff_ffff_ffff_ffff_ffff_ffff_ffff_ffffu128 >> ((q + 1) as u32)) + 1)
                by (bit_vector)
                requires
                    1 <= q < 127,
            ;
        }
        vstd::arithmetic::power2::lemma_pow2_unfold((128 - p) as nat);
    }
}

proof fn lemma_v4_span(n: u32, p: u8)
    requires
        p <= 32,
    ensures
        (n & spec_v4_netmask(p)) + spec_v4_hostmask(p) == (n | spec_v4_hostmask(p)),
{
    let nm = spec_v4_netmask(p);
    let hm = spec_v4_hostmask(p);
    if p == 0 {
        assert(0xffff_ffffu32 >> 0u32 == 0xffff_ffffu32) by (bit_vector);
        assert((n & 0) + 0xffff_ffffu32 == (n | 0xffff_ffffu32)) by (bit_vector);
    } else if p == 32 {
        assert(0xffff_ffffu32 << 0u32 == 0xffff_ffffu32) by (bit_vector);
        assert((n & 0xffff_ffffu32) + 0 == (n | 0)) by (bit_vector);
    } else {
        let q = p as u32;
        assert((n & nm) + hm == (n | hm)) by (bit_vector)
            requires
                0 < q < 32,
                nm == 0xffff_ffffu32 << ((32 - q) as u32),
                hm == 0xffff_ffffu32 >> q,
        ;
    }
}

proof fn lemma_v6_span(n: u128, p: u8)
    requires
        p <= 128,
    ensures
        (n & spec_v6_netmask(p)) + spec_v6_hostmask(p) == (n | spec_v6_hostmask(p)),
{
    let nm = spec_v6_netmask(p);
    let hm = spec_v6_hostmask(p);
    if p == 0 {
        assert(0xffff_ffff_ffff_ffff_ffff_ffff_ffff_ffffu128 >> 0u32
            == 0xffff_ffff_ffff_ffff_ffff_ffff_ffff_ffffu128) by (bit_vector);
        assert((n & 0) + 0xffff_ffff_ffff_ffff_ffff_ffff_ffff_ffffu128 == (n
            | 0xffff_ffff_ffff_ffff_ffff_ffff_ffff_ffffu128)) by (bit_vector);
    } else if p == 128 {
        assert(0xffff_ffff_ffff_ffff_ffff_ffff_ffff_ffffu128 << 0u32
            == 0xffff_ffff_ffff_ffff_ffff_ffff_ffff_ffffu128) by (bit_vector);
        assert((n & 0xffff_ffff_ffff_ffff_ffff_ffff_ffff_ffffu128) + 0 == (n | 0)) by (bit_vector);
    } else {
        let q = p as u32;
        assert((n & nm) + hm == (n | hm)) by (bit_vector)
            requires
                0 < q < 128,
                nm == 0xffff_ffff_ffff_ffff_ffff_ffff_ffff_ffffu128 << ((128 - q) as u32),
                hm == 0xffff_ffff_ffff_ffff_ffff_ffff_ffff_ffffu128 >> q,
        ;
    }
}

/// Draws `sample_count` distinct selectable addresses of a network (all of
/// them where it has fewer), drawing again on a repeat; should `u64::MAX`
/// draws not be enough, it takes the lowest selectable addresses it lacks.
pub fn random_addresses_in_network(network: Network, sample_count: usize) -> (r: Vec<IpAddress>)
    requires
        network.wf(),
    ensures
        r@.len() == if sample_count < spec_selectable_address_count(network) {
            sample_count
        } else {
            spec_selectable_address_count(network)
        },
        r@.no_duplicates(),
        forall|k: int| 0 <= k < r@.len() ==> network.spec_selectable(#[trigger] r@[k]),
        spec_selectable_address_count(network) <= sample_count && spec_selectable_address_count(
            network,
        ) < usize::MAX ==> forall|a: IpAddress| #[trigger]
            network.spec_selectable(a) ==> r@.contains(a),
{
    let (v6, first, last) = selectable_interval(network);
    let available = selectable_address_count(network);
    let target = if sample_count < available {
        sample_count
    } else {
        available
    };
    let mut values: Vec<IpAddress> = Vec::new();
    let mut draws: u64 = 0;
    while values.len() < target && draws < u64::MAX
        invariant
            values@.len() <= target,
            target <= sample_count,
            target <= spec_selectable_address_count(network),
            network.wf(),
            values@.no_duplicates(),
            forall|k: int| 0 <= k < values@.len() ==> network.spec_selectable(#[trigger] values@[k]),
        decreases u64::MAX - draws,
    {
        let address = random_address_in_network(network);
        draws += 1;
        if !vec_contains(&values, address) {
            values.push(address);
        }
    }
    if values.len() < target {
        let ghost drawn = values@;
        fill_from_interval(&mut values, v6, first, last, target);
        proof {
            assert forall|k: int| 0 <= k < values@.len() implies network.spec_selectable(
                #[trigger] values@[k],
            ) by {
                if k < drawn.len() {
                    assert(values@.subrange(0, drawn.len() as int)[k] == drawn[k]);
                }
            }
        }
    }
    proof {
        if spec_selectable_address_count(network) <= sample_count
            && spec_selectable_address_count(network) < usize::MAX {
            lemma_full_sample(values@, network, v6, first as int, last as int);
        }
    }
    values
}

/// A sample without repeats of selectable addresses, as many as the network
/// has, holds every selectable address.
proof fn lemma_full_sample(values: Seq<IpAddress>, network: Network, v6: bool, first: int, last: int)
    requires
        0 <= first <= last,
        last < spec_family_end(v6),
        values.no_duplicates(),
        values.len() == last - first + 1,
        forall|k: int| 0 <= k < values.len() ==> network.spec_selectable(#[trigger] values[k]),
        forall|a: IpAddress| first <= spec_family_value(v6, a) <= last <==> network.spec_selectable(a),
    ensures
        forall|a: IpAddress| #[trigger] network.spec_selectable(a) ==> values.contains(a),
{
    lemma_value_range_len(v6, first, last + 1);
    let range = spec_value_range(v6, first, last + 1);
    values.unique_seq_to_set();
    assert(values.to_set().subset_of(range)) by {
        assert forall|a: IpAddress| values.to_set().contains(a) implies range.contains(a) by {
            let k = choose|k: int| 0 <= k < values.len() && values[k] == a;
            assert(network.spec_selectable(values[k]));
        }
    }
    assert forall|a: IpAddress| #[trigger] network.spec_selectable(a) implies values.contains(a) by {
        if !values.contains(a) {
            assert(!values.to_set().contains(a));
            assert(range.contains(a));
            values.to_set().lemma_subset_not_in_lt(range, a);
        }
    }
}


/// Why no candidate list came out.
#[derive(Debug, Clone, Copy, PartialEq, Eq, Structural)]
pub enum CandidateError {
    /// An excluded candidate is neither an address nor a network.
    InvalidExcluded { index: usize },
    /// A candidate is neither an address nor a network.
    InvalidCandidate { index: usize },
    /// No candidate address lies in the active ranges outside the excluded networks.
    NoneInRanges,
}

/// An address may be probed: inside the active ranges and outside every
/// excluded network.
pub open spec fn spec_admissible(
    address: IpAddress,
    excluded: Seq<Network>,
    ranges: Seq<Network>,
) -> bool {
    !spec_in_ranges(excluded, address) && spec_in_ranges(ranges, address)
}

/// One sampled address joins the list unless the list is full, the address
/// is not admissible, or the list already holds it.
pub open spec fn spec_admit_one(
    list: Seq<IpAddress>,
    address: IpAddress,
    excluded: Seq<Network>,
    ranges: Seq<Network>,
    max: int,
) -> Seq<IpAddress> {
    if list.len() < max && spec_admissible(address, excluded, ranges) && !list.contains(address) {
        list.push(address)
    } else {
        list
    }
}

/// The list after the sampled addresses joined it one by one, in order.
pub open spec fn spec_admit(
    list: Seq<IpAddress>,
    values: Seq<IpAddress>,
    excluded: Seq<Network>,
    ranges: Seq<Network>,
    max: int,
) -> Seq<IpAddress>
    decreases values.len(),
{
    if values.len() == 0 {
        list
    } else {
        spec_admit_one(
            spec_admit(list, values.drop_last(), excluded, ranges, max),
            values.last(),
            excluded,
            ranges,
            max,
        )
    }
}

/// Adds sampled addresses to the candidate list: in order, each admissible
/// address not yet listed, until the list holds `max`.
pub fn admit_candidates(
    list: &mut Vec<IpAddress>,
    values: &Vec<IpAddress>,
    excluded: &[Network],
    ranges: &[Network],
    max: usize,
)
    requires
        spec_ranges_wf(excluded@),
        spec_ranges_wf(ranges@),
    ensures
        final(list)@ == spec_admit(old(list)@, values@, excluded@, ranges@, max as int),
        final(list)@.len() >= old(list)@.len(),
        final(list)@.len() <= old(list)@.len() + values@.len(),
        final(list)@.subrange(0, old(list)@.len() as int) == old(list)@,
        forall|k: int|
            old(list)@.len() <= k < final(list)@.len() ==> values@.contains(#[trigger] final(list)@[k]),
        old(list)@.len() <= max ==> final(list)@.len() <= max,
        old(list)@.no_duplicates() ==> final(list)@.no_duplicates(),
        forall|k: int|
            0 <= k < final(list)@.len() ==> old(list)@.contains(#[trigger] final(list)@[k]) || (
            values@.contains(final(list)@[k]) && spec_admissible(
                final(list)@[k],
                excluded@,
                ranges@,
            )),
{
    let ghost start = list@;
    let mut i: usize = 0;
    while i < values.len()
        invariant
            i <= values@.len(),
            spec_ranges_wf(excluded@),
            spec_ranges_wf(ranges@),
            list@ == spec_admit(start, values@.take(i as int), excluded@, ranges@, max as int),
            list@.len() >= start.len(),
            list@.len() <= start.len() + i,
            list@.subrange(0, start.len() as int) == start,
            forall|k: int| start.len() <= k < list@.len() ==> values@.contains(#[trigger] list@[k]),
            start.len() <= max ==> list@.len() <= max,
            start.no_duplicates() ==> list@.no_duplicates(),
            forall|k: int|
                0 <= k < list@.len() ==> start.contains(#[trigger] list@[k]) || (
                values@.contains(list@[k]) && spec_admissible(list@[k], excluded@, ranges@)),
        decreases values@.len() - i,
    {
        let address = values[i];
        let ghost before = list@;
        assert(values@.take(i + 1).drop_last() =~= values@.take(i as int));
        if list.len() < max && !in_ranges(excluded, address) && in_ranges(ranges, address)
            && !vec_contains(list, address) {
            list.push(address);
            assert(list@.subrange(0, start.len() as int) =~= before.subrange(0, start.len() as int));
            assert forall|k: int| start.len() <= k < list@.len() implies values@.contains(
                #[trigger] list@[k],
            ) by {
                if k < before.len() {
                    assert(list@[k] == before[k]);
                } else {
                    assert(values@[i as int] == address);
                }
            }
            assert forall|k: int| 0 <= k < list@.len() implies start.contains(
                #[trigger] list@[k],
            ) || (values@.contains(list@[k]) && spec_admissible(list@[k], excluded@, ranges@)) by {
                if k < before.len() {
                    assert(list@[k] == before[k]);
                } else {
                    assert(values@[i as int] == address);
                }
            }
        }
        i += 1;
    }
    assert(values@.take(values@.len() as int) =~= values@);
}

/// Where a candidate address may come from: the candidate is that address, or
/// a network of which it is a selectable address.
pub open spec fn spec_candidate_source(candidate: Seq<char>, address: IpAddress) -> bool {
    match spec_parse_ip_address(candidate) {
        Some(a) => a == address,
        None => match spec_parse_network(candidate) {
            Some(n) => n.spec_selectable(address),
            None => false,
        },
    }
}

/// Some candidate of the list is the source of the address.
pub open spec fn spec_from_candidates(candidates: Seq<String>, address: IpAddress) -> bool {
    exists|i: int| 0 <= i < candidates.len() && spec_candidate_source(candidates[i]@, address)
}

/// A candidate that is an address the probe may use.
pub open spec fn spec_usable_address_candidate(
    candidate: Seq<char>,
    excluded: Seq<Network>,
    ranges: Seq<Network>,
) -> bool {
    spec_parse_ip_address(candidate) matches Some(a) && spec_admissible(a, excluded, ranges)
}

/// A candidate network whose sample surely keeps an address: every
/// selectable address of it may be probed, or the sample takes the whole
/// network and one of its addresses may be probed.
pub open spec fn spec_yielding_network_candidate(
    candidate: Seq<char>,
    samples: usize,
    max: usize,
    excluded: Seq<Network>,
    ranges: Seq<Network>,
) -> bool {
    &&& spec_parse_ip_address(candidate) is None
    &&& spec_parse_network(candidate) matches Some(n) && samples > 0 && ((forall|a: IpAddress|
        #[trigger] n.spec_selectable(a) ==> spec_admissible(a, excluded, ranges)) || (
    spec_selectable_address_count(n) <= samples && spec_selectable_address_count(n) <= max
        && spec_selectable_address_count(n) < usize::MAX && exists|a: IpAddress|
        #[trigger] n.spec_selectable(a) && spec_admissible(a, excluded, ranges)))
}

/// A candidate that surely puts an address on the list.
pub open spec fn spec_yielding_candidate(
    candidate: Seq<char>,
    samples: usize,
    max: usize,
    excluded: Seq<Network>,
    ranges: Seq<Network>,
) -> bool {
    spec_usable_address_candidate(candidate, excluded, ranges) || spec_yielding_network_candidate(
        candidate,
        samples,
        max,
        excluded,
        ranges,
    )
}

/// How many addresses a candidate may add: one for an address, `samples`
/// for a network.
pub open spec fn spec_candidate_share(candidate: Seq<char>, samples: usize) -> int {
    if spec_parse_ip_address(candidate) is Some {
        1
    } else {
        samples as int
    }
}

/// Run `j` of the list, from `bounds[j]` to `bounds[j + 1]`, holds addresses
/// of candidate `j`, no more than its share.
pub open spec fn spec_run_holds(
    candidates: Seq<String>,
    samples: usize,
    list: Seq<IpAddress>,
    bounds: Seq<int>,
    j: int,
) -> bool {
    &&& 0 <= bounds[j] <= bounds[j + 1] <= list.len()
    &&& bounds[j + 1] - bounds[j] <= spec_candidate_share(candidates[j]@, samples)
    &&& forall|k: int|
        bounds[j] <= k < bounds[j + 1] ==> spec_candidate_source(candidates[j]@, #[trigger] list[k])
}

/// The list is made of consecutive runs, one for each of the first
/// `bounds.len() - 1` candidates in order, each from its candidate and no
/// longer than its share.
pub open spec fn spec_contributions(
    candidates: Seq<String>,
    samples: usize,
    list: Seq<IpAddress>,
    bounds: Seq<int>,
) -> bool {
    &&& 1 <= bounds.len() <= candidates.len() + 1
    &&& bounds[0] == 0
    &&& bounds.last() == list.len()
    &&& forall|j: int|
        0 <= j < bounds.len() - 1 ==> #[trigger] spec_run_holds(candidates, samples, list, bounds, j)
}

/// The list is made of runs from the first `runs` candidates at most, as
/// `spec_contributions` says.
pub open spec fn spec_runs_within(
    candidates: Seq<String>,
    samples: usize,
    list: Seq<IpAddress>,
    runs: int,
) -> bool {
    exists|bounds: Seq<int>|
        #[trigger] spec_contributions(candidates, samples, list, bounds) && bounds.len() <= runs + 1
}

proof fn lemma_admit_grows(
    list: Seq<IpAddress>,
    values: Seq<IpAddress>,
    excluded: Seq<Network>,
    ranges: Seq<Network>,
    max: int,
)
    ensures
        spec_admit(list, values, excluded, ranges, max).len() >= list.len(),
    decreases values.len(),
{
    if values.len() > 0 {
        lemma_admit_grows(list, values.drop_last(), excluded, ranges, max);
    }
}

/// Admitting addresses of which one may be probed leaves a list that is not
/// empty, while there is room.
proof fn lemma_admit_nonempty(
    list: Seq<IpAddress>,
    values: Seq<IpAddress>,
    excluded: Seq<Network>,
    ranges: Seq<Network>,
    max: int,
    a: IpAddress,
)
    requires
        max > 0,
        values.contains(a),
        spec_admissible(a, excluded, ranges),
    ensures
        spec_admit(list, values, excluded, ranges, max).len() > 0,
    decreases values.len(),
{
    let inner = spec_admit(list, values.drop_last(), excluded, ranges, max);
    if values.last() == a {
        if inner.contains(a) {
            assert(inner.len() > 0);
        }
    } else {
        let k = choose|k: int| 0 <= k < values.len() && values[k] == a;
        assert(values.drop_last()[k] == a);
        lemma_admit_nonempty(list, values.drop_last(), excluded, ranges, max, a);
    }
}

proof fn lemma_selectable_count_pos(network: Network)
    requires
        network.wf(),
    ensures
        spec_selectable_address_count(network) >= 1,
{
    vstd::arithmetic::power2::lemma2_to64();
    match network.addr {
        IpAddress::V4(_) => {
            let hb = (32 - network.prefix_len) as nat;
            vstd::arithmetic::power2::lemma_pow2_pos(hb);
            if hb >= 2 {
                vstd::arithmetic::power2::lemma_pow2_strictly_increases(1, hb);
            }
        },
        IpAddress::V6(_) => {
            let hb = (128 - network.prefix_len) as nat;
            vstd::arithmetic::power2::lemma_pow2_pos(hb);
        },
    }
}

/// The addresses to probe: each candidate address, and a random sample of
/// each candidate network (`samples_per_cidr`, or fewer where the list is
/// nearly full), kept where admissible, without repeats, at most
/// `max_candidates` of them.
pub fn expand_candidates(settings: &OptimizerConfig, ranges: &[Network]) -> (r: Result<
    Vec<IpAddress>,
    CandidateError,
>)
    requires
        spec_ranges_wf(ranges@),
    ensures
        r matches Err(CandidateError::InvalidExcluded { index }) ==> settings.spec_excluded_error(0)
            == Some(OptimizerError::InvalidExcludedCandidate { index }),
        settings.spec_excluded_error(0) matches Some(
            OptimizerError::InvalidExcludedCandidate { index },
        ) ==> r == Err::<Vec<IpAddress>, CandidateError>(CandidateError::InvalidExcluded { index }),
        r matches Err(CandidateError::InvalidCandidate { index }) ==> {
            &&& settings.spec_excluded_error(0) is None
            &&& index < settings.candidates@.len()
            &&& !spec_candidate_valid(settings.candidates@[index as int]@)
            &&& forall|j: int|
                0 <= j < index ==> spec_candidate_valid(#[trigger] settings.candidates@[j]@)
        },
        settings.spec_candidate_error(0) matches Some(OptimizerError::InvalidCandidate { index })
            ==> (settings.spec_excluded_error(0) is None && settings.max_candidates > 0 ==> (r
            == Err::<Vec<IpAddress>, CandidateError>(CandidateError::InvalidCandidate { index })
            || (r matches Ok(v) && v@.len() == settings.max_candidates && spec_runs_within(
            settings.candidates@,
            settings.samples_per_cidr,
            v@,
            index as int,
        )))),
        settings.spec_excluded_error(0) is None && settings.max_candidates == 0 ==> r == Err::<
            Vec<IpAddress>,
            CandidateError,
        >(CandidateError::NoneInRanges),
        r matches Ok(v) ==> {
            &&& 0 < v@.len() <= settings.max_candidates
            &&& v@.no_duplicates()
            &&& forall|k: int|
                0 <= k < v@.len() ==> spec_admissible(
                    #[trigger] v@[k],
                    settings.spec_excluded_networks(),
                    ranges@,
                ) && spec_from_candidates(settings.candidates@, v@[k])
            &&& spec_runs_within(
                settings.candidates@,
                settings.samples_per_cidr,
                v@,
                settings.candidates@.len() as int,
            )
        },
        settings.spec_excluded_error(0) is None && settings.spec_candidate_error(0) is None
            && settings.max_candidates > 0 && (exists|i: int|
            0 <= i < settings.candidates@.len() && spec_usable_address_candidate(
                #[trigger] settings.candidates@[i]@,
                settings.spec_excluded_networks(),
                ranges@,
            )) ==> r is Ok,
        settings.spec_excluded_error(0) is None && settings.spec_candidate_error(0) is None
            && settings.max_candidates > 0 && (exists|i: int|
            0 <= i < settings.candidates@.len() && spec_yielding_network_candidate(
                #[trigger] settings.candidates@[i]@,
                settings.samples_per_cidr,
                settings.max_candidates,
                settings.spec_excluded_networks(),
                ranges@,
            )) ==> r is Ok,
{
    let excluded = match settings.excluded_networks() {
        Ok(networks) => networks,
        Err(OptimizerError::InvalidExcludedCandidate { index }) => {
            return Err(CandidateError::InvalidExcluded { index });
        },
        Err(_) => {
            proof {
                lemma_excluded_error_kind(*settings, 0);
                assert(false);
            }
            return Err(CandidateError::NoneInRanges);
        },
    };
    let ghost excl = settings.spec_excluded_networks();
    let ghost cands = settings.candidates@;
    let ghost samples = settings.samples_per_cidr;
    let max = settings.max_candidates;
    let mut result: Vec<IpAddress> = Vec::new();
    let ghost mut bounds: Seq<int> = seq![0int];
    let mut i: usize = 0;
    while i < settings.candidates.len()
        invariant_except_break
            (exists|j: int|
                0 <= j < i && spec_yielding_candidate(
                    #[trigger] settings.candidates@[j]@,
                    samples,
                    max,
                    excl,
                    ranges@,
                )) ==> result@.len() > 0,
        invariant
            i <= settings.candidates@.len(),
            max == settings.max_candidates,
            cands == settings.candidates@,
            samples == settings.samples_per_cidr,
            excluded@ == excl,
            excl == settings.spec_excluded_networks(),
            spec_ranges_wf(excluded@),
            spec_ranges_wf(ranges@),
            settings.spec_excluded_error(0) is None,
            result@.len() <= max,
            result@.no_duplicates(),
            bounds.len() == i + 1,
            spec_contributions(cands, samples, result@, bounds),
            forall|j: int| 0 <= j < i ==> spec_candidate_valid(#[trigger] settings.candidates@[j]@),
            forall|k: int|
                0 <= k < result@.len() ==> spec_admissible(#[trigger] result@[k], excl, ranges@)
                    && spec_from_candidates(settings.candidates@, result@[k]),
        ensures
            result@.len() <= max,
            result@.no_duplicates(),
            bounds.len() == i + 1,
            spec_contributions(cands, samples, result@, bounds),
            i < settings.candidates@.len() ==> result@.len() == max,
            forall|k: int|
                0 <= k < result@.len() ==> spec_admissible(#[trigger] result@[k], excl, ranges@)
                    && spec_from_candidates(settings.candidates@, result@[k]),
            forall|j: int|
                0 <= j < i ==> spec_candidate_valid(#[trigger] settings.candidates@[j]@),
            (exists|j: int|
                0 <= j < settings.candidates@.len() && spec_yielding_candidate(
                    #[trigger] settings.candidates@[j]@,
                    samples,
                    max,
                    excl,
                    ranges@,
                )) && max > 0 && settings.spec_candidate_error(0) is None ==> result@.len() > 0,
        decreases settings.candidates@.len() - i,
    {
        let remaining = max - result.len();
        if remaining == 0 {
            break;
        }
        let candidate = settings.candidates[i].as_str();
        assert(candidate@ == settings.candidates@[i as int]@);
        let values: Vec<IpAddress> = match parse_ip_address(candidate) {
            Some(address) => {
                let mut v: Vec<IpAddress> = Vec::new();
                v.push(address);
                v
            },
            None => match parse_network(candidate) {
                Some(network) => {
                    let count = if settings.samples_per_cidr < remaining {
                        settings.samples_per_cidr
                    } else {
                        remaining
                    };
                    let sample = random_addresses_in_network(network, count);
                    proof {
                        lemma_selectable_count_pos(network);
                        let c = settings.candidates@[i as int]@;
                        if result@.len() == 0 && spec_yielding_network_candidate(
                            c,
                            samples,
                            max,
                            excl,
                            ranges@,
                        ) {
                            if forall|a: IpAddress|
                                #[trigger] network.spec_selectable(a) ==> spec_admissible(
                                    a,
                                    excl,
                                    ranges@,
                                ) {
                                assert(network.spec_selectable(sample@[0]));
                                lemma_admit_nonempty(
                                    result@,
                                    sample@,
                                    excl,
                                    ranges@,
                                    max as int,
                                    sample@[0],
                                );
                            } else {
                                let a = choose|a: IpAddress|
                                    #[trigger] network.spec_selectable(a) && spec_admissible(
                                        a,
                                        excl,
                                        ranges@,
                                    );
                                assert(sample@.contains(a));
                                lemma_admit_nonempty(result@, sample@, excl, ranges@, max as int, a);
                            }
                        }
                    }
                    sample
                },
                None => {
                    proof {
                        lemma_candidate_error_at(*settings, i as int);
                    }
                    return Err(CandidateError::InvalidCandidate { index: i });
                },
            },
        };
        assert forall|k: int| 0 <= k < values@.len() implies spec_candidate_source(
            settings.candidates@[i as int]@,
            #[trigger] values@[k],
        ) by {}
        assert(values@.len() <= spec_candidate_share(settings.candidates@[i as int]@, samples));
        let ghost before = result@;
        let ghost old_bounds = bounds;
        proof {
            if spec_usable_address_candidate(settings.candidates@[i as int]@, excl, ranges@) {
                assert(values@ =~= seq![values@[0]]);
                assert(values@.contains(values@[0]));
                lemma_admit_nonempty(before, values@, excl, ranges@, max as int, values@[0]);
            }
            lemma_admit_grows(before, values@, excl, ranges@, max as int);
        }
        admit_candidates(&mut result, &values, excluded.as_slice(), ranges, max);
        proof {
            bounds = old_bounds.push(result@.len() as int);
            assert forall|j: int| 0 <= j < bounds.len() - 1 implies #[trigger] spec_run_holds(
                cands,
                samples,
                result@,
                bounds,
                j,
            ) by {
                if j < i {
                    assert(spec_run_holds(cands, samples, before, old_bounds, j));
                    assert(bounds[j] == old_bounds[j] && bounds[j + 1] == old_bounds[j + 1]);
                    assert forall|k: int| bounds[j] <= k < bounds[j + 1] implies spec_candidate_source(
                        cands[j]@,
                        #[trigger] result@[k],
                    ) by {
                        assert(result@.subrange(0, before.len() as int)[k] == before[k]);
                    }
                } else {
                    assert(bounds[j] == before.len());
                    assert forall|k: int| bounds[j] <= k < bounds[j + 1] implies spec_candidate_source(
                        cands[j]@,
                        #[trigger] result@[k],
                    ) by {
                        assert(values@.contains(result@[k]));
                        let m = choose|m: int| 0 <= m < values@.len() && values@[m] == result@[k];
                        assert(spec_candidate_source(cands[j]@, values@[m]));
                    }
                }
            }
        }
        assert forall|k: int| 0 <= k < result@.len() implies spec_admissible(
            #[trigger] result@[k],
            excl,
            ranges@,
        ) && spec_from_candidates(settings.candidates@, result@[k]) by {
            if !before.contains(result@[k]) {
                let m = choose|m: int| 0 <= m < values@.len() && values@[m] == result@[k];
                assert(spec_candidate_source(settings.candidates@[i as int]@, values@[m]));
            } else {
                let m = choose|m: int| 0 <= m < before.len() && before[m] == result@[k];
                assert(spec_admissible(before[m], excl, ranges@));
            }
        }
        i += 1;
        if result.len() == max {
            break;
        }
    }
    let candidate_count = settings.candidates.len();
    proof {
        if settings.max_candidates > 0 {
            if let Some(OptimizerError::InvalidCandidate { index }) = settings.spec_candidate_error(0) {
                // The loop stopped before the first invalid candidate, on a full list.
                assert(candidate_count == settings.candidates@.len());
                lemma_first_invalid_candidate(*settings, 0, index);
                assert(spec_runs_within(cands, samples, result@, index as int));
            }
        }
        assert(spec_runs_within(cands, samples, result@, cands.len() as int));
        if exists|j: int|
            0 <= j < settings.candidates@.len() && spec_usable_address_candidate(
                #[trigger] settings.candidates@[j]@,
                excl,
                ranges@,
            ) {
            let j = choose|j: int|
                0 <= j < settings.candidates@.len() && spec_usable_address_candidate(
                    #[trigger] settings.candidates@[j]@,
                    excl,
                    ranges@,
                );
            assert(spec_yielding_candidate(settings.candidates@[j]@, samples, max, excl, ranges@));
        }
        if exists|j: int|
            0 <= j < settings.candidates@.len() && spec_yielding_network_candidate(
                #[trigger] settings.candidates@[j]@,
                samples,
                max,
                excl,
                ranges@,
            ) {
            let j = choose|j: int|
                0 <= j < settings.candidates@.len() && spec_yielding_network_candidate(
                    #[trigger] settings.candidates@[j]@,
                    samples,
                    max,
                    excl,
                    ranges@,
                );
            assert(spec_yielding_candidate(settings.candidates@[j]@, samples, max, excl, ranges@));
        }
    }
    if result.len() == 0 {
        return Err(CandidateError::NoneInRanges);
    }
    Ok(result)
}

/// The first invalid candidate from `from` on is at `index`: every candidate
/// from `from` up to it is valid and it is not.
proof fn lemma_first_invalid_candidate(settings: OptimizerConfig, from: int, index: usize)
    requires
        0 <= from,
        settings.candidates@.len() <= usize::MAX,
        settings.spec_candidate_error(from) == Some(OptimizerError::InvalidCandidate { index }),
    ensures
        from <= index < settings.candidates@.len(),
        !spec_candidate_valid(settings.candidates@[index as int]@),
        forall|j: int| from <= j < index ==> spec_candidate_valid(#[trigger] settings.candidates@[j]@),
    decreases settings.candidates@.len() - from,
{
    if spec_candidate_valid(settings.candidates@[from]@) {
        lemma_first_invalid_candidate(settings, from + 1, index);
    }
}

proof fn lemma_excluded_error_kind(settings: OptimizerConfig, i: int)
    requires
        0 <= i,
    ensures
        settings.spec_excluded_error(i) is None || settings.spec_excluded_error(
            i,
        ) matches Some(OptimizerError::InvalidExcludedCandidate { .. }),
    decreases settings.excluded_candidates@.len() - i,
{
    if i < settings.excluded_candidates@.len() {
        lemma_excluded_error_kind(settings, i + 1);
    }
}

proof fn lemma_candidate_error_at(settings: OptimizerConfig, i: int)
    requires
        0 <= i < settings.candidates@.len(),
        !spec_candidate_valid(settings.candidates@[i]@),
        forall|j: int| 0 <= j < i ==> spec_candidate_valid(#[trigger] settings.candidates@[j]@),
    ensures
        settings.spec_candidate_error(0) == Some(OptimizerError::InvalidCandidate { index: i as usize }),
{
    lemma_candidate_error_from(settings, 0, i);
}

proof fn lemma_candidate_error_from(settings: OptimizerConfig, from: int, i: int)
    requires
        0 <= from <= i < settings.candidates@.len(),
        !spec_candidate_valid(settings.candidates@[i]@),
        forall|j: int| from <= j < i ==> spec_candidate_valid(#[trigger] settings.candidates@[j]@),
    ensures
        settings.spec_candidate_error(from) == Some(OptimizerError::InvalidCandidate { index: i as usize }),
    decreases i - from,
{
    if from < i {
        assert(spec_candidate_valid(settings.candidates@[from]@));
        lemma_candidate_error_from(settings, from + 1, i);
    }
}

} // verus!

use vstd::prelude::*;

use crate::config::PluginConfig;
use crate::net::IpAddress;
use crate::state::PreferredIps;
use crate::text::{
    chars_of, lower, spec_lower, spec_trim, spec_trim_end_char, str_equal, string_from_chars, trim,
    trim_end_char,
};

verus! {

broadcast use vstd::string::group_string_axioms;

/// The most probe results kept at once.
pub const MAX_COMPATIBILITY_CACHE_ENTRIES: usize = 4_096;

/// How long a refused address stays refused at most, in nanoseconds.
pub const MAX_REJECTION_NANOS: u128 = 30_000_000_000;

/// What is known of one (plugin, host, address) compatibility probe; times
/// are nanoseconds on the caller's monotonic clock.
#[derive(Debug, Clone, Copy, PartialEq, Eq, Structural)]
pub enum ProbeStatus {
    /// A probe is running.
    Pending,
    /// The address served the host correctly; trusted until then.
    VerifiedUntil(u128),
    /// The address failed the host; refused until then.
    RejectedUntil(u128),
}

/// Which probe a result belongs to.
pub struct ProbeKey {
    pub plugin_tag: String,
    pub host: String,
    pub address: IpAddress,
}

/// A key as values.
pub open spec fn spec_key(k: ProbeKey) -> (Seq<char>, Seq<char>, IpAddress) {
    (k.plugin_tag@, k.host@, k.address)
}

/// One cached result.
pub struct ProbeEntry {
    pub key: ProbeKey,
    pub status: ProbeStatus,
}

/// The status still says something at `now`: a running probe, or a result
/// that has not expired.
pub open spec fn spec_live(status: ProbeStatus, now: u128) -> bool {
    match status {
        ProbeStatus::Pending => true,
        ProbeStatus::VerifiedUntil(t) => t > now,
        ProbeStatus::RejectedUntil(t) => t > now,
    }
}

/// The entries still live at `now`, in order.
pub open spec fn spec_purge(entries: Seq<ProbeEntry>, now: u128) -> Seq<ProbeEntry> {
    entries.filter(|e: ProbeEntry| spec_live(e.status, now))
}

/// The status cached for a key, if any.
pub open spec fn spec_status_of(entries: Seq<ProbeEntry>, key: (Seq<char>, Seq<char>, IpAddress)) -> Option<
    ProbeStatus,
> {
    if exists|i: int| 0 <= i < entries.len() && spec_key(#[trigger] entries[i].key) == key {
        Some(entries[choose|i: int| 0 <= i < entries.len() && spec_key(#[trigger] entries[i].key) == key].status)
    } else {
        None
    }
}

/// No key twice.
pub open spec fn spec_distinct_keys(entries: Seq<ProbeEntry>) -> bool {
    forall|i: int, j: int|
        0 <= i < j < entries.len() ==> spec_key(#[trigger] entries[i].key) != spec_key(
            #[trigger] entries[j].key,
        )
}

/// What a lookup answers.
#[derive(Debug, Clone, Copy, PartialEq, Eq, Structural)]
pub enum CheckOutcome {
    /// The address is verified for the host: rewrite to it.
    Verified,
    /// Not (yet) verified: do not rewrite to it.
    NotYet,
    /// Not verified; a probe was registered and the caller starts it.
    Scheduled,
}

/// Results of the probes that prove a preferred address serves a host, so
/// that a strict plugin hands out only addresses proved for the very host
/// asked for. A reset (new configuration or new selection) forgets every
/// result and makes the results of running probes stale.
pub struct CompatibilityCache {
    entries: Vec<ProbeEntry>,
    epoch: u64,
}

impl CompatibilityCache {
    pub closed spec fn entries(&self) -> Seq<ProbeEntry> {
        self.entries@
    }

    pub closed spec fn spec_epoch(&self) -> u64 {
        self.epoch
    }

    /// No key twice, and no more entries than the limit.
    pub open spec fn wf(&self) -> bool {
        &&& spec_distinct_keys(self.entries())
        &&& self.entries().len() <= MAX_COMPATIBILITY_CACHE_ENTRIES
    }

    pub fn new() -> (r: CompatibilityCache)
        ensures
            r.wf(),
            r.entries().len() == 0,
            r.spec_epoch() == 0,
    {
        CompatibilityCache { entries: Vec::new(), epoch: 0 }
    }

    /// The generation of the results: a probe's result counts only in the
    /// generation it started in.
    pub fn epoch(&self) -> (r: u64)
        ensures
            r == self.spec_epoch(),
    {
        self.epoch
    }

    /// Forgets every result and starts a new generation.
    pub fn reset(&mut self)
        ensures
            final(self).wf(),
            final(self).entries().len() == 0,
            final(self).spec_epoch() == old(self).spec_epoch().wrapping_add(1),
    {
        self.entries = Vec::new();
        self.epoch = self.epoch.wrapping_add(1);
    }

    fn find(&self, key: &ProbeKey) -> (r: Option<usize>)
        requires
            self.wf(),
        ensures
            r matches Some(i) ==> i < self.entries().len() && spec_key(self.entries()[i as int].key)
                == spec_key(*key),
            r is None ==> forall|i: int|
                0 <= i < self.entries().len() ==> spec_key(#[trigger] self.entries()[i].key)
                    != spec_key(*key),
    {
        let mut i: usize = 0;
        while i < self.entries.len()
            invariant
                i <= self.entries@.len(),
                forall|k: int|
                    0 <= k < i ==> spec_key(#[trigger] self.entries@[k].key) != spec_key(*key),
            decreases self.entries@.len() - i,
        {
            let e = &self.entries[i];
            if str_equal(e.key.plugin_tag.as_str(), key.plugin_tag.as_str()) && str_equal(
                e.key.host.as_str(),
                key.host.as_str(),
            ) && e.key.address == key.address {
                return Some(i);
            }
            i += 1;
        }
        None
    }

    /// Answers whether the address may be handed out for the host now:
    /// verified and unexpired, yes; pending or refused and unexpired, no;
    /// otherwise expired results are dropped and, where room is left and a
    /// probe may start (`probe_available`), a probe is registered.
    pub fn check(&mut self, key: ProbeKey, now: u128, probe_available: bool) -> (r: CheckOutcome)
        requires
            old(self).wf(),
        ensures
            final(self).wf(),
            final(self).spec_epoch() == old(self).spec_epoch(),
            match spec_status_of(old(self).entries(), spec_key(key)) {
                Some(s) if spec_live(s, now) => {
                    &&& r == (if s is VerifiedUntil {
                        CheckOutcome::Verified
                    } else {
                        CheckOutcome::NotYet
                    })
                    &&& final(self).entries() == old(self).entries()
                },
                _ => {
                    let purged = spec_purge(old(self).entries(), now);
                    if purged.len() >= MAX_COMPATIBILITY_CACHE_ENTRIES || !probe_available {
                        r == CheckOutcome::NotYet && final(self).entries() == purged
                    } else {
                        &&& r == CheckOutcome::Scheduled
                        &&& final(self).entries().len() == purged.len() + 1
                        &&& final(self).entries().drop_last() == purged
                        &&& spec_key(final(self).entries().last().key) == spec_key(key)
                        &&& final(self).entries().last().status == ProbeStatus::Pending
                    }
                },
            },
    {
        let found = self.find(&key);
        proof {
            if found is Some {
                let i = found->0;
                assert(spec_status_of(self.entries(), spec_key(key)) == Some(self.entries()[i as int].status)) by {
                    let w = choose|w: int|
                        0 <= w < self.entries().len() && spec_key(#[trigger] self.entries()[w].key)
                            == spec_key(key);
                    if w != i {
                        if w < i {
                            assert(spec_key(self.entries()[w].key) != spec_key(self.entries()[i as int].key));
                        } else {
                            assert(spec_key(self.entries()[i as int].key) != spec_key(self.entries()[w].key));
                        }
                    }
                }
            }
        }
        if let Some(i) = found {
            match self.entries[i].status {
                ProbeStatus::VerifiedUntil(t) => if t > now {
                    return CheckOutcome::Verified;
                },
                ProbeStatus::Pending => {
                    return CheckOutcome::NotYet;
                },
                ProbeStatus::RejectedUntil(t) => if t > now {
                    return CheckOutcome::NotYet;
                },
            }
        }
        let ghost before = self.entries@;
        let mut kept: Vec<ProbeEntry> = Vec::new();
        let mut old_entries: Vec<ProbeEntry> = Vec::new();
        std::mem::swap(&mut old_entries, &mut self.entries);
        assert(old_entries@ == before);
        let mut j: usize = 0;
        assert(before.take(0) =~= Seq::<ProbeEntry>::empty());
        assert(spec_purge(before.take(0), now) =~= Seq::<ProbeEntry>::empty()) by {
            reveal(Seq::filter);
        }
        for e in it: old_entries
            invariant
                it.seq() == before,
                spec_distinct_keys(before),
                kept@ == spec_purge(before.take(it.index() as int), now),
        {
            proof {
                broadcast use Seq::lemma_filter_push;

                assert(before.take(it.index() + 1) =~= before.take(it.index() as int).push(e));
            }
            let live = match e.status {
                ProbeStatus::Pending => true,
                ProbeStatus::VerifiedUntil(t) => t > now,
                ProbeStatus::RejectedUntil(t) => t > now,
            };
            if live {
                kept.push(e);
            }
        }
        assert(before.take(before.len() as int) =~= before);
        proof {
            lemma_purge_keeps_distinct(before, now);
        }
        if kept.len() >= MAX_COMPATIBILITY_CACHE_ENTRIES || !probe_available {
            self.entries = kept;
            return CheckOutcome::NotYet;
        }
        proof {
            lemma_purge_drops_key(before, now, spec_key(key));
        }
        kept.push(ProbeEntry { key, status: ProbeStatus::Pending });
        self.entries = kept;
        proof {
            assert(self.entries@.drop_last() =~= spec_purge(before, now));
        }
        CheckOutcome::Scheduled
    }

    /// Records a finished probe's result, unless a reset happened since it
    /// started (`probe_epoch` is then stale): the address is trusted for the
    /// host until `verified_until`, or refused until `rejected_until`.
    pub fn complete(&mut self, key: ProbeKey, probe_epoch: u64, status: ProbeStatus)
        requires
            old(self).wf(),
        ensures
            final(self).wf(),
            final(self).spec_epoch() == old(self).spec_epoch(),
            probe_epoch != old(self).spec_epoch() ==> final(self).entries() == old(self).entries(),
            probe_epoch == old(self).spec_epoch() && spec_status_of(old(self).entries(), spec_key(key))
                is Some ==> spec_status_of(final(self).entries(), spec_key(key)) == Some(status)
                && final(self).entries().len() == old(self).entries().len(),
    {
        if probe_epoch != self.epoch {
            return;
        }
        match self.find(&key) {
            Some(i) => {
                let ghost before = self.entries@;
                let k = ProbeKey {
                    plugin_tag: key.plugin_tag,
                    host: key.host,
                    address: key.address,
                };
                let ghost kk = k;
                self.entries.set(i, ProbeEntry { key: k, status });
                proof {
                    assert forall|a: int, b: int|
                        0 <= a < b < self.entries@.len() implies spec_key(
                        #[trigger] self.entries@[a].key,
                    ) != spec_key(#[trigger] self.entries@[b].key) by {
                        if a != i && b != i {
                            assert(self.entries@[a] == before[a] && self.entries@[b] == before[b]);
                        } else if a == i {
                            assert(self.entries@[b] == before[b]);
                        } else {
                            assert(self.entries@[a] == before[a]);
                        }
                    }
                    let w = choose|w: int|
                        0 <= w < self.entries@.len() && spec_key(#[trigger] self.entries@[w].key)
                            == spec_key(kk);
                    assert(self.entries@[i as int].key == kk);
                    if w != i {
                        if w < i {
                            assert(spec_key(self.entries@[w].key) != spec_key(self.entries@[i as int].key));
                        } else {
                            assert(spec_key(self.entries@[i as int].key) != spec_key(self.entries@[w].key));
                        }
                    }
                }
            },
            None => {
                if self.entries.len() < MAX_COMPATIBILITY_CACHE_ENTRIES {
                    let ghost before = self.entries@;
                    self.entries.push(ProbeEntry { key, status });
                    proof {
                        assert forall|a: int, b: int|
                            0 <= a < b < self.entries@.len() implies spec_key(
                            #[trigger] self.entries@[a].key,
                        ) != spec_key(#[trigger] self.entries@[b].key) by {
                            if b < before.len() {
                                assert(self.entries@[a] == before[a] && self.entries@[b] == before[b]);
                            } else {
                                assert(self.entries@[a] == before[a]);
                            }
                        }
                    }
                }
            },
        }
    }
}

proof fn lemma_purge_keeps_distinct(entries: Seq<ProbeEntry>, now: u128)
    requires
        spec_distinct_keys(entries),
    ensures
        spec_distinct_keys(spec_purge(entries, now)),
        spec_purge(entries, now).len() <= entries.len(),
        forall|k: int|
            0 <= k < spec_purge(entries, now).len() ==> entries.contains(
                #[trigger] spec_purge(entries, now)[k],
            ) && spec_live(spec_purge(entries, now)[k].status, now),
    decreases entries.len(),
{
    broadcast use Seq::lemma_filter_push;

    if entries.len() > 0 {
        let prefix = entries.drop_last();
        assert(entries =~= prefix.push(entries.last()));
        assert(spec_distinct_keys(prefix)) by {
            assert forall|i: int, j: int| 0 <= i < j < prefix.len() implies spec_key(
            #[trigger] prefix[i].key) != spec_key(#[trigger] prefix[j].key) by {
                assert(prefix[i] == entries[i] && prefix[j] == entries[j]);
            }
        }
        lemma_purge_keeps_distinct(prefix, now);
        let rest = spec_purge(prefix, now);
        assert forall|k: int| 0 <= k < rest.len() implies entries.contains(#[trigger] rest[k]) by {
            let w = choose|w: int| 0 <= w < prefix.len() && prefix[w] == rest[k];
            assert(entries[w] == rest[k]);
        }
        if spec_live(entries.last().status, now) {
            assert forall|k: int| 0 <= k < rest.len() implies spec_key(#[trigger] rest[k].key)
                != spec_key(entries.last().key) by {
                let w = choose|w: int| 0 <= w < prefix.len() && prefix[w] == rest[k];
                assert(entries[w] == rest[k]);
                assert(spec_key(entries[w].key) != spec_key(entries[entries.len() - 1].key));
            }
            assert(entries.contains(entries.last())) by {
                assert(entries[entries.len() - 1] == entries.last());
            }
        }
    } else {
        assert(spec_purge(entries, now) =~= Seq::<ProbeEntry>::empty()) by {
            reveal(Seq::filter);
        }
    }
}

proof fn lemma_purge_drops_key(
    entries: Seq<ProbeEntry>,
    now: u128,
    key: (Seq<char>, Seq<char>, IpAddress),
)
    requires
        spec_distinct_keys(entries),
        !(spec_status_of(entries, key) matches Some(s) && spec_live(s, now)),
    ensures
        forall|k: int|
            0 <= k < spec_purge(entries, now).len() ==> spec_key(
                #[trigger] spec_purge(entries, now)[k].key,
            ) != key,
{
    lemma_purge_keeps_distinct(entries, now);
    assert forall|k: int| 0 <= k < spec_purge(entries, now).len() implies spec_key(
        #[trigger] spec_purge(entries, now)[k].key,
    ) != key by {
        let e = spec_purge(entries, now)[k];
        if spec_key(e.key) == key {
            let w = choose|w: int| 0 <= w < entries.len() && entries[w] == e;
            assert(spec_key(entries[w].key) == key);
            let c = choose|i: int| 0 <= i < entries.len() && spec_key(#[trigger] entries[i].key) == key;
            if c != w {
                if c < w {
                    assert(spec_key(entries[c].key) != spec_key(entries[w].key));
                } else {
                    assert(spec_key(entries[w].key) != spec_key(entries[c].key));
                }
            }
        }
    }
}

/// How long a probe's result is kept: the rewrite TTL, and no more than
/// thirty seconds for a refusal, so a proof never outlives the answer that
/// relies on it.
pub fn result_lifetime_nanos(rewrite_ttl_secs: u32, verified: bool) -> (r: u128)
    ensures
        verified ==> r == rewrite_ttl_secs as u128 * 1_000_000_000,
        !verified ==> r == (if rewrite_ttl_secs as u128 * 1_000_000_000 < MAX_REJECTION_NANOS {
            rewrite_ttl_secs as u128 * 1_000_000_000
        } else {
            MAX_REJECTION_NANOS as int
        }),
{
    let valid = rewrite_ttl_secs as u128 * 1_000_000_000;
    if verified || valid < MAX_REJECTION_NANOS {
        valid
    } else {
        MAX_REJECTION_NANOS
    }
}

/// The host a compatibility probe checks for a domain: trimmed, without
/// trailing dots, in ASCII lower case; none where nothing is left.
pub open spec fn spec_probe_host(domain: Seq<char>) -> Option<Seq<char>> {
    let h = spec_lower(spec_trim_end_char(spec_trim(domain), '.'));
    if h.len() > 0 {
        Some(h)
    } else {
        None
    }
}

pub fn probe_host(domain: &str) -> (r: Option<String>)
    ensures
        match spec_probe_host(domain@) {
            Some(h) => r matches Some(s) && s@ == h,
            None => r is None,
        },
{
    let chars = chars_of(domain);
    let t = trim(chars.as_slice());
    let s = trim_end_char(t.as_slice(), '.');
    let h = lower(s.as_slice());
    if h.len() > 0 {
        Some(string_from_chars(&h))
    } else {
        None
    }
}

/// The status of a key that still counts at `now`.
pub open spec fn spec_live_status(
    entries: Seq<ProbeEntry>,
    key: (Seq<char>, Seq<char>, IpAddress),
    now: u128,
) -> Option<ProbeStatus> {
    match spec_status_of(entries, key) {
        Some(s) => if spec_live(s, now) {
            Some(s)
        } else {
            None
        },
        None => None,
    }
}

/// What a lookup of `key` answers, `added` probes having been registered
/// since the cache was last purged, and a probe permit free or not.
pub open spec fn spec_gate(
    entries: Seq<ProbeEntry>,
    key: (Seq<char>, Seq<char>, IpAddress),
    now: u128,
    added: int,
    available: bool,
) -> CheckOutcome {
    match spec_live_status(entries, key, now) {
        Some(s) => if s is VerifiedUntil {
            CheckOutcome::Verified
        } else {
            CheckOutcome::NotYet
        },
        None => if spec_purge(entries, now).len() + added >= MAX_COMPATIBILITY_CACHE_ENTRIES
            || !available {
            CheckOutcome::NotYet
        } else {
            CheckOutcome::Scheduled
        },
    }
}

/// The probe host asked for, if a domain is given.
pub open spec fn spec_domain_host(domain: Option<&str>) -> Option<Seq<char>> {
    match domain {
        Some(d) => spec_probe_host(d@),
        None => None,
    }
}

/// The lookup of the preferred IPv4 address, if there is one.
pub open spec fn spec_v4_outcome(
    entries: Seq<ProbeEntry>,
    tag: Seq<char>,
    host: Seq<char>,
    preferred: PreferredIps,
    now: u128,
    permits: usize,
) -> Option<CheckOutcome> {
    match preferred.ipv4 {
        Some(a) => Some(spec_gate(entries, (tag, host, IpAddress::V4(a)), now, 0, permits > 0)),
        None => None,
    }
}

/// Probes the IPv4 lookup registered (none or one).
pub open spec fn spec_v4_added(
    entries: Seq<ProbeEntry>,
    tag: Seq<char>,
    host: Seq<char>,
    preferred: PreferredIps,
    now: u128,
    permits: usize,
) -> int {
    if spec_v4_outcome(entries, tag, host, preferred, now, permits) == Some(CheckOutcome::Scheduled) {
        1
    } else {
        0
    }
}

/// The lookup of the preferred IPv6 address, if there is one; it comes
/// after the IPv4 lookup, whose probe takes room and a permit.
pub open spec fn spec_v6_outcome(
    entries: Seq<ProbeEntry>,
    tag: Seq<char>,
    host: Seq<char>,
    preferred: PreferredIps,
    now: u128,
    permits: usize,
) -> Option<CheckOutcome> {
    let added = spec_v4_added(entries, tag, host, preferred, now, permits);
    match preferred.ipv6 {
        Some(a) => Some(
            spec_gate(entries, (tag, host, IpAddress::V6(a)), now, added, permits > added),
        ),
        None => None,
    }
}

/// The keys of the probes a lookup registers, IPv4 first.
pub open spec fn spec_gated_keys(
    entries: Seq<ProbeEntry>,
    tag: Seq<char>,
    host: Seq<char>,
    preferred: PreferredIps,
    now: u128,
    permits: usize,
) -> Seq<(Seq<char>, Seq<char>, IpAddress)> {
    let k4: Seq<(Seq<char>, Seq<char>, IpAddress)> = if spec_v4_outcome(
        entries,
        tag,
        host,
        preferred,
        now,
        permits,
    ) == Some(CheckOutcome::Scheduled) {
        seq![(tag, host, IpAddress::V4(preferred.ipv4->0))]
    } else {
        seq![]
    };
    let k6: Seq<(Seq<char>, Seq<char>, IpAddress)> = if spec_v6_outcome(
        entries,
        tag,
        host,
        preferred,
        now,
        permits,
    ) == Some(CheckOutcome::Scheduled) {
        seq![(tag, host, IpAddress::V6(preferred.ipv6->0))]
    } else {
        seq![]
    };
    k4 + k6
}

/// A lookup purges the cache: some preferred address has no live result.
pub open spec fn spec_gate_purges(
    entries: Seq<ProbeEntry>,
    tag: Seq<char>,
    host: Seq<char>,
    preferred: PreferredIps,
    now: u128,
) -> bool {
    ||| preferred.ipv4 matches Some(a) && spec_live_status(entries, (tag, host, IpAddress::V4(a)), now)
        is None
    ||| preferred.ipv6 matches Some(a) && spec_live_status(entries, (tag, host, IpAddress::V6(a)), now)
        is None
}

/// The preferred addresses one answer may carry, and the probes the lookup
/// registered.
pub struct GatedPreferred {
    pub preferred: PreferredIps,
    /// The caller starts each of these probes and reports its result.
    pub probes: Vec<ProbeKey>,
}

impl CompatibilityCache {
    /// For a strict plugin, an optimized address is handed to a client only
    /// after the requested hostname itself has passed a probe: each preferred
    /// address is looked up for the (normalized) host, and one without a live
    /// result gets a probe while room and `probe_permits` last. A lenient
    /// plugin's addresses all pass; a strict plugin passes none for an
    /// answer without a host.
    pub fn compatible_preferred(
        &mut self,
        plugin: &PluginConfig,
        domain: Option<&str>,
        preferred: &PreferredIps,
        now: u128,
        probe_permits: usize,
    ) -> (r: GatedPreferred)
        requires
            old(self).wf(),
        ensures
            final(self).wf(),
            final(self).spec_epoch() == old(self).spec_epoch(),
            !plugin.optimizer.spec_requires_compatibility_gate() ==> {
                &&& r.preferred == *preferred
                &&& r.probes@.len() == 0
                &&& final(self).entries() == old(self).entries()
            },
            plugin.optimizer.spec_requires_compatibility_gate() ==> match spec_domain_host(domain) {
                None => {
                    &&& r.preferred == PreferredIps { ipv4: None, ipv6: None }
                    &&& r.probes@.len() == 0
                    &&& final(self).entries() == old(self).entries()
                },
                Some(h) => {
                    let e = old(self).entries();
                    let tag = plugin.tag@;
                    let o4 = spec_v4_outcome(e, tag, h, *preferred, now, probe_permits);
                    let o6 = spec_v6_outcome(e, tag, h, *preferred, now, probe_permits);
                    let p = spec_purge(e, now);
                    &&& r.preferred.ipv4 == (if o4 == Some(CheckOutcome::Verified) {
                        preferred.ipv4
                    } else {
                        None
                    })
                    &&& r.preferred.ipv6 == (if o6 == Some(CheckOutcome::Verified) {
                        preferred.ipv6
                    } else {
                        None
                    })
                    &&& r.probes@.map_values(|k: ProbeKey| spec_key(k)) == spec_gated_keys(
                        e,
                        tag,
                        h,
                        *preferred,
                        now,
                        probe_permits,
                    )
                    &&& if spec_gate_purges(e, tag, h, *preferred, now) {
                        &&& final(self).entries().len() == p.len() + r.probes@.len()
                        &&& final(self).entries().take(p.len() as int) == p
                        &&& forall|i: int|
                            0 <= i < r.probes@.len() ==> spec_key(
                                #[trigger] final(self).entries()[p.len() + i].key,
                            ) == spec_key(r.probes@[i]) && final(self).entries()[p.len()
                                + i].status == ProbeStatus::Pending
                    } else {
                        final(self).entries() == e
                    }
                },
            },
            // An address of a strict plugin goes out only with a live proof
            // for this very plugin, host and address.
            plugin.optimizer.spec_requires_compatibility_gate() ==> (r.preferred.ipv4 matches Some(
                a,
            ) ==> spec_domain_host(domain) matches Some(h) && spec_live_status(
                old(self).entries(),
                (plugin.tag@, h, IpAddress::V4(a)),
                now,
            ) matches Some(ProbeStatus::VerifiedUntil(_))),
            plugin.optimizer.spec_requires_compatibility_gate() ==> (r.preferred.ipv6 matches Some(
                a,
            ) ==> spec_domain_host(domain) matches Some(h) && spec_live_status(
                old(self).entries(),
                (plugin.tag@, h, IpAddress::V6(a)),
                now,
            ) matches Some(ProbeStatus::VerifiedUntil(_))),
    {
        if !plugin.optimizer.requires_compatibility_gate() {
            return GatedPreferred {
                preferred: PreferredIps { ipv4: preferred.ipv4, ipv6: preferred.ipv6 },
                probes: Vec::new(),
            };
        }
        let host = match domain {
            Some(d) => probe_host(d),
            None => None,
        };
        let host = match host {
            Some(h) => h,
            None => {
                return GatedPreferred {
                    preferred: PreferredIps { ipv4: None, ipv6: None },
                    probes: Vec::new(),
                };
            },
        };
        let ghost e0 = self.entries();
        let ghost tag = plugin.tag@;
        let ghost h = host@;
        let mut probes: Vec<ProbeKey> = Vec::new();
        let mut permits = probe_permits;
        let mut ipv4: Option<u32> = None;
        let mut ipv6: Option<u128> = None;
        proof {
            lemma_purge_keeps_distinct(e0, now);
            lemma_purge_all_live(spec_purge(e0, now), now);
        }
        if let Some(a) = preferred.ipv4 {
            let key = ProbeKey {
                plugin_tag: plugin.tag.clone(),
                host: host.clone(),
                address: IpAddress::V4(a),
            };
            let ghost k = spec_key(key);
            proof {
                lemma_check_outcome(e0, k, now, permits > 0);
            }
            match self.check(key, now, permits > 0) {
                CheckOutcome::Verified => {
                    ipv4 = Some(a);
                },
                CheckOutcome::NotYet => {},
                CheckOutcome::Scheduled => {
                    probes.push(
                        ProbeKey {
                            plugin_tag: plugin.tag.clone(),
                            host: host.clone(),
                            address: IpAddress::V4(a),
                        },
                    );
                    permits = permits - 1;
                },
            }
        }
        let ghost e1 = self.entries();
        proof {
            lemma_after_first(e0, e1, tag, h, *preferred, now, probe_permits);
        }
        if let Some(a) = preferred.ipv6 {
            let key = ProbeKey {
                plugin_tag: plugin.tag.clone(),
                host: host.clone(),
                address: IpAddress::V6(a),
            };
            let ghost k = spec_key(key);
            proof {
                lemma_check_outcome(e1, k, now, permits > 0);
            }
            match self.check(key, now, permits > 0) {
                CheckOutcome::Verified => {
                    ipv6 = Some(a);
                },
                CheckOutcome::NotYet => {},
                CheckOutcome::Scheduled => {
                    probes.push(
                        ProbeKey {
                            plugin_tag: plugin.tag.clone(),
                            host: host.clone(),
                            address: IpAddress::V6(a),
                        },
                    );
                },
            }
        }
        proof {
            let e2 = self.entries();
            assert(probes@.map_values(|k: ProbeKey| spec_key(k)) =~= spec_gated_keys(
                e0,
                tag,
                h,
                *preferred,
                now,
                probe_permits,
            ));
            if spec_gate_purges(e0, tag, h, *preferred, now) {
                let p = spec_purge(e0, now);
                assert(e2.take(p.len() as int) =~= p);
            }
        }
        GatedPreferred { preferred: PreferredIps { ipv4, ipv6 }, probes }
    }
}

/// A sequence whose entries are all live survives a purge unchanged.
proof fn lemma_purge_all_live(entries: Seq<ProbeEntry>, now: u128)
    requires
        forall|i: int| 0 <= i < entries.len() ==> spec_live(#[trigger] entries[i].status, now),
    ensures
        spec_purge(entries, now) == entries,
    decreases entries.len(),
{
    broadcast use Seq::lemma_filter_push;

    if entries.len() == 0 {
        assert(spec_purge(entries, now) =~= entries) by {
            reveal(Seq::filter);
        }
    } else {
        let prefix = entries.drop_last();
        assert(entries =~= prefix.push(entries.last()));
        assert forall|i: int| 0 <= i < prefix.len() implies spec_live(#[trigger] prefix[i].status, now) by {
            assert(prefix[i] == entries[i]);
        }
        lemma_purge_all_live(prefix, now);
        assert(spec_live(entries[entries.len() - 1].status, now));
    }
}

/// A live entry survives a purge.
proof fn lemma_live_entry_kept(entries: Seq<ProbeEntry>, now: u128, w: int)
    requires
        0 <= w < entries.len(),
        spec_live(entries[w].status, now),
    ensures
        spec_purge(entries, now).contains(entries[w]),
    decreases entries.len(),
{
    broadcast use Seq::lemma_filter_push;

    let prefix = entries.drop_last();
    assert(entries =~= prefix.push(entries.last()));
    if w == entries.len() - 1 {
        let p = spec_purge(entries, now);
        assert(p[p.len() - 1] == entries[w]);
    } else {
        assert(prefix[w] == entries[w]);
        lemma_live_entry_kept(prefix, now, w);
        let q = spec_purge(prefix, now);
        let v = choose|v: int| 0 <= v < q.len() && q[v] == entries[w];
        let p = spec_purge(entries, now);
        assert(p[v] == q[v]);
    }
}

/// After a purge, a key's status is its live status before.
proof fn lemma_status_after_purge(
    entries: Seq<ProbeEntry>,
    now: u128,
    key: (Seq<char>, Seq<char>, IpAddress),
)
    requires
        spec_distinct_keys(entries),
    ensures
        spec_status_of(spec_purge(entries, now), key) == spec_live_status(entries, key, now),
{
    lemma_purge_keeps_distinct(entries, now);
    let p = spec_purge(entries, now);
    match spec_live_status(entries, key, now) {
        None => {
            lemma_purge_drops_key(entries, now, key);
        },
        Some(s) => {
            let w = choose|i: int| 0 <= i < entries.len() && spec_key(#[trigger] entries[i].key) == key;
            lemma_live_entry_kept(entries, now, w);
            let v = choose|v: int| 0 <= v < p.len() && p[v] == entries[w];
            assert(spec_key(p[v].key) == key);
            let c = choose|i: int| 0 <= i < p.len() && spec_key(#[trigger] p[i].key) == key;
            if c != v {
                if c < v {
                    assert(spec_key(p[c].key) != spec_key(p[v].key));
                } else {
                    assert(spec_key(p[v].key) != spec_key(p[c].key));
                }
            }
        },
    }
}

/// Adding an entry for another key leaves a key's status as it was.
proof fn lemma_status_push_other(
    entries: Seq<ProbeEntry>,
    x: ProbeEntry,
    key: (Seq<char>, Seq<char>, IpAddress),
)
    requires
        spec_distinct_keys(entries),
        spec_key(x.key) != key,
    ensures
        spec_status_of(entries.push(x), key) == spec_status_of(entries, key),
{
    let q = entries.push(x);
    if exists|i: int| 0 <= i < entries.len() && spec_key(#[trigger] entries[i].key) == key {
        let d = choose|i: int| 0 <= i < entries.len() && spec_key(#[trigger] entries[i].key) == key;
        assert(q[d] == entries[d]);
        let c = choose|i: int| 0 <= i < q.len() && spec_key(#[trigger] q[i].key) == key;
        assert(c < entries.len());
        assert(q[c] == entries[c]);
        if c != d {
            if c < d {
                assert(spec_key(entries[c].key) != spec_key(entries[d].key));
            } else {
                assert(spec_key(entries[d].key) != spec_key(entries[c].key));
            }
        }
    } else {
        assert forall|i: int| 0 <= i < q.len() implies spec_key(#[trigger] q[i].key) != key by {
            if i < entries.len() {
                assert(q[i] == entries[i]);
            }
        }
    }
}

/// What `check` answers, in the terms of `spec_gate`.
proof fn lemma_check_outcome(
    entries: Seq<ProbeEntry>,
    key: (Seq<char>, Seq<char>, IpAddress),
    now: u128,
    available: bool,
)
    ensures
        spec_gate(entries, key, now, 0, available) == match spec_status_of(entries, key) {
            Some(s) if spec_live(s, now) => if s is VerifiedUntil {
                CheckOutcome::Verified
            } else {
                CheckOutcome::NotYet
            },
            _ => if spec_purge(entries, now).len() >= MAX_COMPATIBILITY_CACHE_ENTRIES || !available {
                CheckOutcome::NotYet
            } else {
                CheckOutcome::Scheduled
            },
        },
{
}

/// The cache after the IPv4 lookup, as the IPv6 lookup sees it.
proof fn lemma_after_first(
    e0: Seq<ProbeEntry>,
    e1: Seq<ProbeEntry>,
    tag: Seq<char>,
    host: Seq<char>,
    preferred: PreferredIps,
    now: u128,
    permits: usize,
)
    requires
        spec_distinct_keys(e0),
        match preferred.ipv4 {
            None => e1 == e0,
            Some(a) => {
                let k = (tag, host, IpAddress::V4(a));
                match spec_status_of(e0, k) {
                    Some(s) if spec_live(s, now) => e1 == e0,
                    _ => {
                        let purged = spec_purge(e0, now);
                        if purged.len() >= MAX_COMPATIBILITY_CACHE_ENTRIES || !(permits > 0) {
                            e1 == purged
                        } else {
                            &&& e1.len() == purged.len() + 1
                            &&& e1.drop_last() == purged
                            &&& spec_key(e1.last().key) == k
                            &&& e1.last().status == ProbeStatus::Pending
                        }
                    },
                }
            },
        },
    ensures
        spec_distinct_keys(e1),
        forall|a: u128|
            #![trigger spec_live_status(e1, (tag, host, IpAddress::V6(a)), now)]
            spec_live_status(e1, (tag, host, IpAddress::V6(a)), now) == spec_live_status(
                e0,
                (tag, host, IpAddress::V6(a)),
                now,
            ),
        e1 == e0 || spec_purge(e1, now).len() == spec_purge(e0, now).len() + spec_v4_added(
            e0,
            tag,
            host,
            preferred,
            now,
            permits,
        ),
        e1 == e0 ==> spec_v4_added(e0, tag, host, preferred, now, permits) == 0,
        e1 != e0 ==> spec_purge(e1, now).take(spec_purge(e0, now).len() as int) == spec_purge(
            e0,
            now,
        ),
        e1 != e0 ==> spec_purge(e1, now) == e1,
{
    if let Some(a4) = preferred.ipv4 {
        let k = (tag, host, IpAddress::V4(a4));
        if !(spec_status_of(e0, k) matches Some(s) && spec_live(s, now)) {
            let purged = spec_purge(e0, now);
            lemma_purge_keeps_distinct(e0, now);
            lemma_purge_drops_key(e0, now, k);
            lemma_purge_all_live(purged, now);
            assert forall|a: u128|
                #![trigger spec_live_status(e1, (tag, host, IpAddress::V6(a)), now)]
                spec_live_status(e1, (tag, host, IpAddress::V6(a)), now) == spec_live_status(
                    e0,
                    (tag, host, IpAddress::V6(a)),
                    now,
                ) by {
                let k6 = (tag, host, IpAddress::V6(a));
                lemma_status_after_purge(e0, now, k6);
                if e1 != purged {
                    assert(e1 =~= purged.push(e1.last()));
                    lemma_status_push_other(purged, e1.last(), k6);
                }
            }
            if e1 != purged {
                assert(e1 =~= purged.push(e1.last()));
                assert(spec_distinct_keys(e1)) by {
                    assert forall|i: int, j: int| 0 <= i < j < e1.len() implies spec_key(
                        #[trigger] e1[i].key,
                    ) != spec_key(#[trigger] e1[j].key) by {
                        if j < purged.len() {
                            assert(e1[i] == purged[i] && e1[j] == purged[j]);
                        } else {
                            assert(e1[i] == purged[i]);
                        }
                    }
                }
                assert forall|i: int| 0 <= i < e1.len() implies spec_live(#[trigger] e1[i].status, now) by {
                    if i < purged.len() {
                        assert(e1[i] == purged[i]);
                    }
                }
                lemma_purge_all_live(e1, now);
                assert(e1.take(purged.len() as int) =~= purged);
                if e1 == e0 {
                    let c = choose|i: int| 0 <= i < e0.len() && spec_key(#[trigger] e0[i].key) == k;
                    assert(spec_key(e0[e0.len() - 1].key) == k);
                    if c != e0.len() - 1 {
                        assert(spec_key(e0[c].key) != spec_key(e0[e0.len() - 1].key));
                    }
                }
            } else {
                assert(purged.take(purged.len() as int) =~= purged);
            }
        }
    }
}

} // verus!

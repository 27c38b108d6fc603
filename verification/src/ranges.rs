use vstd::prelude::*;

use crate::net::{parse_network, spec_parse_network, spec_ranges_wf, Network};
use crate::text::{
    chars_of, fields, spec_char_lists, spec_fields, string_from_chars,
};

verus! {

broadcast use vstd::string::group_string_axioms;

/// The official lists of Cloudflare's IPv4 and IPv6 ranges.
pub const RANGE_URL_V4: &'static str = "https://www.cloudflare.com/ips-v4";

pub const RANGE_URL_V6: &'static str = "https://www.cloudflare.com/ips-v6";

/// The ranges Cloudflare published when this list was written.
pub open spec fn spec_fallback_range_texts() -> Seq<Seq<char>> {
    seq![
        "173.245.48.0/20"@,
        "103.21.244.0/22"@,
        "103.22.200.0/22"@,
        "103.31.4.0/22"@,
        "141.101.64.0/18"@,
        "108.162.192.0/18"@,
        "190.93.240.0/20"@,
        "188.114.96.0/20"@,
        "197.234.240.0/22"@,
        "198.41.128.0/17"@,
        "162.158.0.0/15"@,
        "104.16.0.0/13"@,
        "104.24.0.0/14"@,
        "172.64.0.0/13"@,
        "131.0.72.0/22"@,
        "2400:cb00::/32"@,
        "2606:4700::/32"@,
        "2803:f800::/32"@,
        "2405:b500::/32"@,
        "2405:8100::/32"@,
        "2a06:98c0::/29"@,
        "2c0f:f248::/32"@,
    ]
}

/// Cloudflare's ranges as published when this list was written, used until
/// the official lists are fetched.
pub fn fallback_range_texts() -> (r: Vec<&'static str>)
    ensures
        spec_texts(r@) == spec_fallback_range_texts(),
        r@.len() == 22,
{
    let mut v: Vec<&'static str> = Vec::new();
    v.push("173.245.48.0/20");
    v.push("103.21.244.0/22");
    v.push("103.22.200.0/22");
    v.push("103.31.4.0/22");
    v.push("141.101.64.0/18");
    v.push("108.162.192.0/18");
    v.push("190.93.240.0/20");
    v.push("188.114.96.0/20");
    v.push("197.234.240.0/22");
    v.push("198.41.128.0/17");
    v.push("162.158.0.0/15");
    v.push("104.16.0.0/13");
    v.push("104.24.0.0/14");
    v.push("172.64.0.0/13");
    v.push("131.0.72.0/22");
    v.push("2400:cb00::/32");
    v.push("2606:4700::/32");
    v.push("2803:f800::/32");
    v.push("2405:b500::/32");
    v.push("2405:8100::/32");
    v.push("2a06:98c0::/29");
    v.push("2c0f:f248::/32");
    assert(spec_texts(v@) =~= spec_fallback_range_texts());
    v
}

/// Why a range list was refused.
#[derive(Debug, Clone, Copy, PartialEq, Eq, Structural)]
pub enum RangeError {
    /// The value at this position is not a CIDR network.
    InvalidCidr { index: usize },
    /// No range is left after blank lines and comments.
    Empty,
}

/// A value that counts: not empty and not a `#` comment.
pub open spec fn spec_range_value(value: Seq<char>) -> bool {
    value.len() > 0 && value[0] != '#'
}

/// The networks of the values from `i` on, comments and blanks skipped; the
/// first value that is no network is an error.
pub open spec fn spec_parse_range_values(values: Seq<Seq<char>>, i: int) -> Result<Seq<Network>, RangeError>
    decreases values.len() - i,
{
    if i < 0 || i >= values.len() {
        Ok(Seq::empty())
    } else if !spec_range_value(values[i]) {
        spec_parse_range_values(values, i + 1)
    } else {
        match spec_parse_network(values[i]) {
            None => Err(RangeError::InvalidCidr { index: i as usize }),
            Some(n) => match spec_parse_range_values(values, i + 1) {
                Err(e) => Err(e),
                Ok(rest) => Ok(seq![n] + rest),
            },
        }
    }
}

/// A range list: every counting value parsed, and at least one.
pub open spec fn spec_parse_ranges(values: Seq<Seq<char>>) -> Result<Seq<Network>, RangeError> {
    match spec_parse_range_values(values, 0) {
        Err(e) => Err(e),
        Ok(ranges) => if ranges.len() == 0 {
            Err(RangeError::Empty)
        } else {
            Ok(ranges)
        },
    }
}

/// The characters of each string.
pub open spec fn spec_texts(values: Seq<&str>) -> Seq<Seq<char>> {
    values.map_values(|v: &str| v@)
}

/// `done` in front of a parse result.
pub open spec fn spec_prepend_ranges(done: Seq<Network>, r: Result<Seq<Network>, RangeError>) -> Result<
    Seq<Network>,
    RangeError,
> {
    match r {
        Ok(rest) => Ok(done + rest),
        Err(e) => Err(e),
    }
}

/// Parses a range list.
pub fn parse_ranges(values: &Vec<&str>) -> (r: Result<Vec<Network>, RangeError>)
    ensures
        match r {
            Ok(v) => spec_parse_ranges(spec_texts(values@)) == Ok::<Seq<Network>, RangeError>(v@)
                && spec_ranges_wf(v@),
            Err(e) => spec_parse_ranges(spec_texts(values@)) == Err::<Seq<Network>, RangeError>(e),
        },
{
    let ghost t = spec_texts(values@);
    let mut out: Vec<Network> = Vec::new();
    let mut i: usize = 0;
    assert(Seq::<Network>::empty() + spec_parse_range_values(t, 0)->Ok_0 =~= spec_parse_range_values(t, 0)->Ok_0);
    while i < values.len()
        invariant
            i <= values@.len(),
            t == spec_texts(values@),
            spec_ranges_wf(out@),
            spec_parse_range_values(t, 0) == spec_prepend_ranges(
                out@,
                spec_parse_range_values(t, i as int),
            ),
        decreases values@.len() - i,
    {
        let value = values[i];
        let chars = chars_of(value);
        assert(t[i as int] == value@);
        if chars.len() == 0 || chars[0] == '#' {
            i += 1;
            continue;
        }
        match parse_network(value) {
            None => {
                return Err(RangeError::InvalidCidr { index: i });
            },
            Some(n) => {
                proof {
                    match spec_parse_range_values(t, i + 1) {
                        Ok(rest) => {
                            assert(out@.push(n) + rest =~= out@ + (seq![n] + rest));
                        },
                        Err(_) => {},
                    }
                }
                out.push(n);
            },
        }
        i += 1;
    }
    assert(out@ + Seq::<Network>::empty() =~= out@);
    if out.len() == 0 {
        return Err(RangeError::Empty);
    }
    Ok(out)
}

/// Cloudflare's published ranges as networks.
pub fn fallback_ranges() -> (r: Result<Vec<Network>, RangeError>)
    ensures
        match r {
            Ok(v) => spec_parse_ranges(spec_fallback_range_texts()) == Ok::<Seq<Network>, RangeError>(v@)
                && spec_ranges_wf(v@),
            Err(e) => spec_parse_ranges(spec_fallback_range_texts()) == Err::<Seq<Network>, RangeError>(e),
        },
{
    let texts = fallback_range_texts();
    parse_ranges(&texts)
}

/// The whitespace-separated values of the fetched list bodies, in order.
pub open spec fn spec_body_values(bodies: Seq<Seq<char>>) -> Seq<Seq<char>>
    decreases bodies.len(),
{
    if bodies.len() == 0 {
        Seq::empty()
    } else {
        spec_body_values(bodies.drop_last()) + spec_fields(bodies.last())
    }
}

/// Parses the fetched range lists: the whitespace-separated values of all
/// bodies, in order.
pub fn ranges_from_bodies(bodies: &Vec<String>) -> (r: Result<Vec<Network>, RangeError>)
    ensures
        match r {
            Ok(v) => spec_parse_ranges(spec_body_values(bodies@.map_values(|b: String| b@)))
                == Ok::<Seq<Network>, RangeError>(v@) && spec_ranges_wf(v@),
            Err(e) => spec_parse_ranges(spec_body_values(bodies@.map_values(|b: String| b@)))
                == Err::<Seq<Network>, RangeError>(e),
        },
{
    let ghost bv = bodies@.map_values(|b: String| b@);
    let mut values: Vec<String> = Vec::new();
    let mut i: usize = 0;
    assert(values@.map_values(|v: String| v@) =~= spec_body_values(bv.take(0)));
    while i < bodies.len()
        invariant
            i <= bodies@.len(),
            bv == bodies@.map_values(|b: String| b@),
            values@.map_values(|v: String| v@) == spec_body_values(bv.take(i as int)),
        decreases bodies@.len() - i,
    {
        assert(bv.take(i + 1).drop_last() =~= bv.take(i as int));
        assert(bv.take(i + 1).last() == bodies@[i as int]@);
        let chars = chars_of(bodies[i].as_str());
        let f = fields(chars.as_slice());
        let ghost before = values@.map_values(|v: String| v@);
        let mut k: usize = 0;
        while k < f.len()
            invariant
                k <= f@.len(),
                values@.map_values(|v: String| v@) == before + spec_char_lists(f@).take(k as int),
            decreases f@.len() - k,
        {
            let ghost prev = values@.map_values(|v: String| v@);
            values.push(string_from_chars(&f[k]));
            assert(values@.map_values(|v: String| v@) =~= prev.push(f@[k as int]@));
            assert(spec_char_lists(f@).take(k + 1) =~= spec_char_lists(f@).take(k as int).push(
                f@[k as int]@,
            ));
            k += 1;
        }
        assert(spec_char_lists(f@).take(f@.len() as int) =~= spec_char_lists(f@));
        i += 1;
    }
    assert(bv.take(bv.len() as int) =~= bv);
    let mut slices: Vec<&str> = Vec::new();
    let mut j: usize = 0;
    while j < values.len()
        invariant
            j <= values@.len(),
            spec_texts(slices@) == values@.map_values(|v: String| v@).take(j as int),
        decreases values@.len() - j,
    {
        let ghost prev = slices@;
        let text = values[j].as_str();
        assert(text@ == values@[j as int]@);
        slices.push(text);
        assert(spec_texts(slices@) =~= spec_texts(prev).push(text@));
        assert(values@.map_values(|v: String| v@).take(j + 1) =~= values@.map_values(
            |v: String| v@,
        ).take(j as int).push(values@[j as int]@));
        j += 1;
    }
    assert(values@.map_values(|v: String| v@).take(values@.len() as int) =~= values@.map_values(
        |v: String| v@,
    ));
    parse_ranges(&slices)
}

} // verus!

use vstd::prelude::*;

use crate::config::{PluginConfig, PluginType};
use crate::net::{in_ranges, spec_in_ranges, spec_ranges_wf, IpAddress, Network};
use crate::state::PreferredIps;

verus! {

/// The value of an SVCB/HTTPS service parameter, as far as the rewrite reads it.
pub enum SvcValue {
    Ipv4Hint(Vec<u32>),
    Ipv6Hint(Vec<u128>),
    Other,
}

/// An SVCB/HTTPS service parameter: its key number and value.
pub struct SvcParam {
    pub key: u16,
    pub value: SvcValue,
}

/// The data of an answer record, as far as the rewrite reads it.
pub enum RecordData {
    A(u32),
    Aaaa(u128),
    Svcb(Vec<SvcParam>),
    Https(Vec<SvcParam>),
    Other,
}

/// An answer record: its data and TTL.
pub struct AnswerRecord {
    pub data: RecordData,
    pub ttl: u32,
}

/// A service parameter value, as values.
pub enum SvcValueView {
    Ipv4Hint(Seq<u32>),
    Ipv6Hint(Seq<u128>),
    Other,
}

/// A service parameter, as values.
pub struct SvcParamView {
    pub key: u16,
    pub value: SvcValueView,
}

/// Record data, as values.
pub enum RecordView {
    A(u32),
    Aaaa(u128),
    Svcb(Seq<SvcParamView>),
    Https(Seq<SvcParamView>),
    Other,
}

/// An answer record, as values.
pub struct AnswerView {
    pub data: RecordView,
    pub ttl: u32,
}

impl SvcParam {
    pub open spec fn view(&self) -> SvcParamView {
        SvcParamView {
            key: self.key,
            value: match self.value {
                SvcValue::Ipv4Hint(a) => SvcValueView::Ipv4Hint(a@),
                SvcValue::Ipv6Hint(a) => SvcValueView::Ipv6Hint(a@),
                SvcValue::Other => SvcValueView::Other,
            },
        }
    }
}

/// The values of a parameter list.
pub open spec fn spec_params_view(params: Seq<SvcParam>) -> Seq<SvcParamView> {
    params.map_values(|p: SvcParam| p.view())
}

impl AnswerRecord {
    pub open spec fn view(&self) -> AnswerView {
        AnswerView {
            data: match self.data {
                RecordData::A(a) => RecordView::A(a),
                RecordData::Aaaa(a) => RecordView::Aaaa(a),
                RecordData::Svcb(p) => RecordView::Svcb(spec_params_view(p@)),
                RecordData::Https(p) => RecordView::Https(spec_params_view(p@)),
                RecordData::Other => RecordView::Other,
            },
            ttl: self.ttl,
        }
    }
}

/// The values of an answer list.
pub open spec fn spec_answers_view(answers: Seq<AnswerRecord>) -> Seq<AnswerView> {
    answers.map_values(|a: AnswerRecord| a.view())
}

/// The address of an A (IPv4) or AAAA (IPv6) answer.
pub open spec fn spec_answer_address(a: AnswerView, ipv4: bool) -> Option<IpAddress> {
    match a.data {
        RecordView::A(x) => if ipv4 {
            Some(IpAddress::V4(x))
        } else {
            None
        },
        RecordView::Aaaa(x) => if ipv4 {
            None
        } else {
            Some(IpAddress::V6(x))
        },
        _ => None,
    }
}

/// There are answers of the family, and all of them lie in the ranges.
pub open spec fn spec_all_cloudflare_addresses(
    answers: Seq<AnswerView>,
    ipv4: bool,
    ranges: Seq<Network>,
) -> bool {
    &&& exists|i: int| 0 <= i < answers.len() && spec_answer_address(answers[i], ipv4) is Some
    &&& forall|i: int|
        0 <= i < answers.len() && spec_answer_address(answers[i], ipv4) is Some ==> spec_in_ranges(
            ranges,
            spec_answer_address(answers[i], ipv4)->0,
        )
}

/// Every answer of the family points at the preferred address with the
/// rewrite TTL; `true` where something changed.
pub open spec fn spec_rewrite_addresses(
    answers: Seq<AnswerView>,
    preferred: IpAddress,
    ttl: u32,
) -> (Seq<AnswerView>, bool) {
    let ipv4 = preferred is V4;
    let out = answers.map_values(
        |a: AnswerView|
            if spec_answer_address(a, ipv4) is Some {
                AnswerView {
                    data: match preferred {
                        IpAddress::V4(x) => RecordView::A(x),
                        IpAddress::V6(x) => RecordView::Aaaa(x),
                    },
                    ttl,
                }
            } else {
                a
            },
    );
    (
        out,
        exists|i: int|
            0 <= i < answers.len() && spec_answer_address(answers[i], ipv4) is Some && (
            spec_answer_address(answers[i], ipv4)->0 != preferred || answers[i].ttl != ttl),
    )
}

/// Whether an answer is of the address family (IPv4 when `ipv4`).
pub fn answer_address(a: &AnswerRecord, ipv4: bool) -> (r: Option<IpAddress>)
    ensures
        r == spec_answer_address(a.view(), ipv4),
{
    match a.data {
        RecordData::A(x) => if ipv4 {
            Some(IpAddress::V4(x))
        } else {
            None
        },
        RecordData::Aaaa(x) => if ipv4 {
            None
        } else {
            Some(IpAddress::V6(x))
        },
        _ => None,
    }
}

/// There are answers of the family and every one lies in the ranges.
pub fn all_cloudflare_addresses(answers: &Vec<AnswerRecord>, ipv4: bool, ranges: &[Network]) -> (r:
    bool)
    requires
        spec_ranges_wf(ranges@),
    ensures
        r == spec_all_cloudflare_addresses(spec_answers_view(answers@), ipv4, ranges@),
{
    let ghost v = spec_answers_view(answers@);
    let mut found = false;
    let mut i: usize = 0;
    while i < answers.len()
        invariant
            i <= answers@.len(),
            v == spec_answers_view(answers@),
            spec_ranges_wf(ranges@),
            found <==> exists|k: int| 0 <= k < i && spec_answer_address(v[k], ipv4) is Some,
            forall|k: int|
                0 <= k < i && spec_answer_address(v[k], ipv4) is Some ==> spec_in_ranges(
                    ranges@,
                    spec_answer_address(v[k], ipv4)->0,
                ),
        decreases answers@.len() - i,
    {
        assert(v[i as int] == answers@[i as int].view());
        match answer_address(&answers[i], ipv4) {
            Some(address) => {
                if !in_ranges(ranges, address) {
                    return false;
                }
                found = true;
            },
            None => {},
        }
        i += 1;
    }
    found
}

/// Points every answer of the preferred address's family at it, with the
/// rewrite TTL; `true` where something changed.
pub fn rewrite_address_records(answers: &mut Vec<AnswerRecord>, preferred: IpAddress, ttl: u32) -> (r:
    bool)
    ensures
        (spec_answers_view(final(answers)@), r) == spec_rewrite_addresses(
            spec_answers_view(old(answers)@),
            preferred,
            ttl,
        ),
{
    let ghost v0 = spec_answers_view(answers@);
    let ipv4 = preferred.is_ipv4();
    let ghost target = spec_rewrite_addresses(v0, preferred, ttl).0;
    let mut changed = false;
    let mut i: usize = 0;
    while i < answers.len()
        invariant
            i <= answers@.len(),
            answers@.len() == v0.len(),
            ipv4 == (preferred is V4),
            target == spec_rewrite_addresses(v0, preferred, ttl).0,
            forall|k: int| 0 <= k < i ==> #[trigger] answers@[k].view() == target[k],
            forall|k: int| i <= k < answers@.len() ==> #[trigger] answers@[k].view() == v0[k],
            changed <==> exists|k: int|
                0 <= k < i && spec_answer_address(v0[k], ipv4) is Some && (spec_answer_address(
                    v0[k],
                    ipv4,
                )->0 != preferred || v0[k].ttl != ttl),
        decreases answers@.len() - i,
    {
        let ghost before = answers@;
        match answer_address(&answers[i], ipv4) {
            Some(address) => {
                if address != preferred || answers[i].ttl != ttl {
                    changed = true;
                }
                let data = match preferred {
                    IpAddress::V4(x) => RecordData::A(x),
                    IpAddress::V6(x) => RecordData::Aaaa(x),
                };
                answers.set(i, AnswerRecord { data, ttl });
            },
            None => {},
        }
        proof {
            assert forall|k: int| 0 <= k < i + 1 implies #[trigger] answers@[k].view() == target[k] by {
                if k < i {
                    assert(answers@[k] == before[k]);
                }
            }
            assert forall|k: int| i + 1 <= k < answers@.len() implies #[trigger] answers@[k].view()
                == v0[k] by {
                assert(answers@[k] == before[k]);
            }
        }
        i += 1;
    }
    assert(spec_answers_view(answers@) =~= target);
    changed
}


/// The hint addresses of a parameter of the family (IPv4 when `ipv4`).
pub open spec fn spec_hint_addresses(v: SvcValueView, ipv4: bool) -> Option<Seq<IpAddress>> {
    match v {
        SvcValueView::Ipv4Hint(a) => if ipv4 {
            Some(a.map_values(|x: u32| IpAddress::V4(x)))
        } else {
            None
        },
        SvcValueView::Ipv6Hint(a) => if ipv4 {
            None
        } else {
            Some(a.map_values(|x: u128| IpAddress::V6(x)))
        },
        SvcValueView::Other => None,
    }
}

/// There are hints of the family, none empty, all in the ranges.
pub open spec fn spec_all_cloudflare_hints(
    params: Seq<SvcParamView>,
    ipv4: bool,
    ranges: Seq<Network>,
) -> bool {
    &&& exists|i: int| 0 <= i < params.len() && spec_hint_addresses(params[i].value, ipv4) is Some
    &&& forall|i: int|
        #![trigger params[i]]
        0 <= i < params.len() && spec_hint_addresses(params[i].value, ipv4) is Some ==> {
            let a = spec_hint_addresses(params[i].value, ipv4)->0;
            a.len() > 0 && forall|j: int| 0 <= j < a.len() ==> spec_in_ranges(ranges, #[trigger] a[j])
        }
}

/// The parameters with every hint of a rewritten family replaced by the
/// preferred address; `None` where neither family is rewritten. A family is
/// rewritten where there is a preferred address for it and all its hints lie
/// in the ranges.
pub open spec fn spec_rewrite_svcb(
    params: Seq<SvcParamView>,
    preferred: PreferredIps,
    ranges: Seq<Network>,
) -> Option<Seq<SvcParamView>> {
    let r4 = preferred.ipv4 is Some && spec_all_cloudflare_hints(params, true, ranges);
    let r6 = preferred.ipv6 is Some && spec_all_cloudflare_hints(params, false, ranges);
    if !r4 && !r6 {
        None
    } else {
        Some(
            params.map_values(
                |p: SvcParamView|
                    match p.value {
                        SvcValueView::Ipv4Hint(_) => if r4 {
                            SvcParamView {
                                key: p.key,
                                value: SvcValueView::Ipv4Hint(seq![preferred.ipv4->0]),
                            }
                        } else {
                            p
                        },
                        SvcValueView::Ipv6Hint(_) => if r6 {
                            SvcParamView {
                                key: p.key,
                                value: SvcValueView::Ipv6Hint(seq![preferred.ipv6->0]),
                            }
                        } else {
                            p
                        },
                        SvcValueView::Other => p,
                    },
            ),
        )
    }
}

/// The SVCB or HTTPS answer after the hint rewrite, and whether it changed.
pub open spec fn spec_rewrite_svcb_answer(
    a: AnswerView,
    preferred: PreferredIps,
    ranges: Seq<Network>,
    ttl: u32,
) -> (AnswerView, bool) {
    match a.data {
        RecordView::Svcb(ps) => match spec_rewrite_svcb(ps, preferred, ranges) {
            Some(np) => (AnswerView { data: RecordView::Svcb(np), ttl }, np != ps || a.ttl != ttl),
            None => (a, false),
        },
        RecordView::Https(ps) => match spec_rewrite_svcb(ps, preferred, ranges) {
            Some(np) => (AnswerView { data: RecordView::Https(np), ttl }, np != ps || a.ttl != ttl),
            None => (a, false),
        },
        _ => (a, false),
    }
}

/// Every SVCB and HTTPS answer after the hint rewrite, and whether any changed.
pub open spec fn spec_rewrite_svcb_answers(
    answers: Seq<AnswerView>,
    preferred: PreferredIps,
    ranges: Seq<Network>,
    ttl: u32,
) -> (Seq<AnswerView>, bool) {
    (
        answers.map_values(|a: AnswerView| spec_rewrite_svcb_answer(a, preferred, ranges, ttl).0),
        exists|i: int|
            0 <= i < answers.len() && (#[trigger] spec_rewrite_svcb_answer(
                answers[i],
                preferred,
                ranges,
                ttl,
            )).1,
    )
}

/// The hint addresses of a parameter of the family.
#[verifier::loop_isolation(false)]
fn hint_in_ranges(value: &SvcValue, ipv4: bool, ranges: &[Network]) -> (r: Option<bool>)
    requires
        spec_ranges_wf(ranges@),
    ensures
        r is Some <==> spec_hint_addresses(
            (SvcParam { key: 0, value: *value }).view().value,
            ipv4,
        ) is Some,
        r matches Some(ok) ==> {
            let a = spec_hint_addresses((SvcParam { key: 0, value: *value }).view().value, ipv4)->0;
            ok == (a.len() > 0 && forall|j: int| 0 <= j < a.len() ==> spec_in_ranges(ranges@, #[trigger] a[j]))
        },
{
    match value {
        SvcValue::Ipv4Hint(addresses) => {
            if !ipv4 {
                return None;
            }
            let ghost a = addresses@.map_values(|x: u32| IpAddress::V4(x));
            if addresses.len() == 0 {
                return Some(false);
            }
            let mut i: usize = 0;
            while i < addresses.len()
                invariant
                    i <= addresses@.len(),
                    a == addresses@.map_values(|x: u32| IpAddress::V4(x)),
                    spec_ranges_wf(ranges@),
                    forall|j: int| 0 <= j < i ==> spec_in_ranges(ranges@, #[trigger] a[j]),
                decreases addresses@.len() - i,
            {
                if !in_ranges(ranges, IpAddress::V4(addresses[i])) {
                    assert(a[i as int] == IpAddress::V4(addresses@[i as int]));
                    return Some(false);
                }
                i += 1;
            }
            Some(true)
        },
        SvcValue::Ipv6Hint(addresses) => {
            if ipv4 {
                return None;
            }
            let ghost a = addresses@.map_values(|x: u128| IpAddress::V6(x));
            if addresses.len() == 0 {
                return Some(false);
            }
            let mut i: usize = 0;
            while i < addresses.len()
                invariant
                    i <= addresses@.len(),
                    a == addresses@.map_values(|x: u128| IpAddress::V6(x)),
                    spec_ranges_wf(ranges@),
                    forall|j: int| 0 <= j < i ==> spec_in_ranges(ranges@, #[trigger] a[j]),
                decreases addresses@.len() - i,
            {
                if !in_ranges(ranges, IpAddress::V6(addresses[i])) {
                    assert(a[i as int] == IpAddress::V6(addresses@[i as int]));
                    return Some(false);
                }
                i += 1;
            }
            Some(true)
        },
        SvcValue::Other => None,
    }
}

/// There are hints of the family, none empty, all in the ranges.
pub fn all_cloudflare_svcb_hints(params: &Vec<SvcParam>, ipv4: bool, ranges: &[Network]) -> (r: bool)
    requires
        spec_ranges_wf(ranges@),
    ensures
        r == spec_all_cloudflare_hints(spec_params_view(params@), ipv4, ranges@),
        forall|i: int, j: int|
            #![trigger spec_hint_addresses(spec_params_view(params@)[i].value, ipv4)->0[j]]
            0 <= i < params@.len() && spec_hint_addresses(
                spec_params_view(params@)[i].value,
                ipv4,
            ) is Some && 0 <= j < spec_hint_addresses(spec_params_view(params@)[i].value, ipv4)->0.len()
                && !spec_in_ranges(
                ranges@,
                spec_hint_addresses(spec_params_view(params@)[i].value, ipv4)->0[j],
            ) ==> !r,
{
    let ghost v = spec_params_view(params@);
    let mut found = false;
    let mut i: usize = 0;
    while i < params.len()
        invariant
            i <= params@.len(),
            v == spec_params_view(params@),
            spec_ranges_wf(ranges@),
            found <==> exists|k: int| 0 <= k < i && spec_hint_addresses(v[k].value, ipv4) is Some,
            forall|k: int|
                #![trigger v[k]]
                0 <= k < i && spec_hint_addresses(v[k].value, ipv4) is Some ==> {
                    let a = spec_hint_addresses(v[k].value, ipv4)->0;
                    a.len() > 0 && forall|j: int| 0 <= j < a.len() ==> spec_in_ranges(ranges@, #[trigger] a[j])
                },
        decreases params@.len() - i,
    {
        assert(v[i as int].value == (SvcParam { key: 0, value: params@[i as int].value }).view().value);
        match hint_in_ranges(&params[i].value, ipv4, ranges) {
            Some(ok) => {
                if !ok {
                    return false;
                }
                found = true;
            },
            None => {},
        }
        i += 1;
    }
    found
}

/// A copy of a list of 32-bit values.
fn copy_u32s(v: &Vec<u32>) -> (r: Vec<u32>)
    ensures
        r@ == v@,
{
    let mut r: Vec<u32> = Vec::new();
    let mut i: usize = 0;
    while i < v.len()
        invariant
            i <= v@.len(),
            r@ == v@.take(i as int),
        decreases v@.len() - i,
    {
        r.push(v[i]);
        assert(v@.take(i + 1) =~= v@.take(i as int).push(v@[i as int]));
        i += 1;
    }
    assert(v@.take(v@.len() as int) =~= v@);
    r
}

/// A copy of a list of 128-bit values.
fn copy_u128s(v: &Vec<u128>) -> (r: Vec<u128>)
    ensures
        r@ == v@,
{
    let mut r: Vec<u128> = Vec::new();
    let mut i: usize = 0;
    while i < v.len()
        invariant
            i <= v@.len(),
            r@ == v@.take(i as int),
        decreases v@.len() - i,
    {
        r.push(v[i]);
        assert(v@.take(i + 1) =~= v@.take(i as int).push(v@[i as int]));
        i += 1;
    }
    assert(v@.take(v@.len() as int) =~= v@);
    r
}

/// The parameters with the hints of the rewritten families replaced.
pub fn rewrite_svcb(params: &Vec<SvcParam>, preferred: &PreferredIps, ranges: &[Network]) -> (r:
    Option<Vec<SvcParam>>)
    requires
        spec_ranges_wf(ranges@),
    ensures
        match r {
            Some(np) => spec_rewrite_svcb(spec_params_view(params@), *preferred, ranges@) == Some(
                spec_params_view(np@),
            ),
            None => spec_rewrite_svcb(spec_params_view(params@), *preferred, ranges@) is None,
        },
{
    let rewrite_ipv4 = preferred.ipv4.is_some() && all_cloudflare_svcb_hints(params, true, ranges);
    let rewrite_ipv6 = preferred.ipv6.is_some() && all_cloudflare_svcb_hints(params, false, ranges);
    if !rewrite_ipv4 && !rewrite_ipv6 {
        return None;
    }
    let ghost target = spec_rewrite_svcb(spec_params_view(params@), *preferred, ranges@)->0;
    let mut out: Vec<SvcParam> = Vec::new();
    let mut i: usize = 0;
    while i < params.len()
        invariant
            i <= params@.len(),
            out@.len() == i,
            target == spec_rewrite_svcb(spec_params_view(params@), *preferred, ranges@)->0,
            rewrite_ipv4 == (preferred.ipv4 is Some && spec_all_cloudflare_hints(
                spec_params_view(params@),
                true,
                ranges@,
            )),
            rewrite_ipv6 == (preferred.ipv6 is Some && spec_all_cloudflare_hints(
                spec_params_view(params@),
                false,
                ranges@,
            )),
            rewrite_ipv4 || rewrite_ipv6,
            forall|k: int| 0 <= k < i ==> #[trigger] out@[k].view() == target[k],
        decreases params@.len() - i,
    {
        let param = &params[i];
        let value = match &param.value {
            SvcValue::Ipv4Hint(addresses) => if rewrite_ipv4 {
                let mut v: Vec<u32> = Vec::new();
                v.push(preferred.ipv4.unwrap());
                SvcValue::Ipv4Hint(v)
            } else {
                SvcValue::Ipv4Hint(copy_u32s(addresses))
            },
            SvcValue::Ipv6Hint(addresses) => if rewrite_ipv6 {
                let mut v: Vec<u128> = Vec::new();
                v.push(preferred.ipv6.unwrap());
                SvcValue::Ipv6Hint(v)
            } else {
                SvcValue::Ipv6Hint(copy_u128s(addresses))
            },
            SvcValue::Other => SvcValue::Other,
        };
        let ghost before = out@;
        out.push(SvcParam { key: param.key, value });
        proof {
            assert forall|k: int| 0 <= k < i + 1 implies #[trigger] out@[k].view() == target[k] by {
                if k < i {
                    assert(out@[k] == before[k]);
                } else {
                    assert(spec_params_view(params@)[k] == params@[k].view());
                    match params@[k].value {
                        SvcValue::Ipv4Hint(_) => {},
                        SvcValue::Ipv6Hint(_) => {},
                        SvcValue::Other => {},
                    }
                    assert(out@[k].view().value =~~= target[k].value);
                }
            }
        }
        i += 1;
    }
    assert(spec_params_view(out@) =~= target);
    Some(out)
}


fn u32s_equal(a: &Vec<u32>, b: &Vec<u32>) -> (r: bool)
    ensures
        r == (a@ == b@),
{
    if a.len() != b.len() {
        return false;
    }
    let mut i: usize = 0;
    while i < a.len()
        invariant
            i <= a@.len() == b@.len(),
            forall|k: int| 0 <= k < i ==> a@[k] == b@[k],
        decreases a@.len() - i,
    {
        if a[i] != b[i] {
            return false;
        }
        i += 1;
    }
    assert(a@ =~= b@);
    true
}

fn u128s_equal(a: &Vec<u128>, b: &Vec<u128>) -> (r: bool)
    ensures
        r == (a@ == b@),
{
    if a.len() != b.len() {
        return false;
    }
    let mut i: usize = 0;
    while i < a.len()
        invariant
            i <= a@.len() == b@.len(),
            forall|k: int| 0 <= k < i ==> a@[k] == b@[k],
        decreases a@.len() - i,
    {
        if a[i] != b[i] {
            return false;
        }
        i += 1;
    }
    assert(a@ =~= b@);
    true
}

/// Two parameter lists hold the same keys and values.
pub fn params_equal(a: &Vec<SvcParam>, b: &Vec<SvcParam>) -> (r: bool)
    ensures
        r == (spec_params_view(a@) == spec_params_view(b@)),
{
    if a.len() != b.len() {
        assert(spec_params_view(a@).len() != spec_params_view(b@).len());
        return false;
    }
    let mut i: usize = 0;
    while i < a.len()
        invariant
            i <= a@.len() == b@.len(),
            forall|k: int| 0 <= k < i ==> #[trigger] a@[k].view() == b@[k].view(),
        decreases a@.len() - i,
    {
        let same = a[i].key == b[i].key && match (&a[i].value, &b[i].value) {
            (SvcValue::Ipv4Hint(x), SvcValue::Ipv4Hint(y)) => u32s_equal(x, y),
            (SvcValue::Ipv6Hint(x), SvcValue::Ipv6Hint(y)) => u128s_equal(x, y),
            (SvcValue::Other, SvcValue::Other) => true,
            _ => false,
        };
        if !same {
            assert(spec_params_view(a@)[i as int] != spec_params_view(b@)[i as int]);
            return false;
        }
        i += 1;
    }
    assert(spec_params_view(a@) =~= spec_params_view(b@));
    true
}

/// Rewrites the hints of every SVCB and HTTPS answer; `true` where an answer
/// changed.
pub fn rewrite_svcb_records(
    answers: &mut Vec<AnswerRecord>,
    preferred: &PreferredIps,
    ranges: &[Network],
    ttl: u32,
) -> (r: bool)
    requires
        spec_ranges_wf(ranges@),
    ensures
        (spec_answers_view(final(answers)@), r) == spec_rewrite_svcb_answers(
            spec_answers_view(old(answers)@),
            *preferred,
            ranges@,
            ttl,
        ),
{
    let ghost v0 = spec_answers_view(answers@);
    let ghost target = spec_rewrite_svcb_answers(v0, *preferred, ranges@, ttl).0;
    let mut changed = false;
    let mut i: usize = 0;
    while i < answers.len()
        invariant
            i <= answers@.len(),
            answers@.len() == v0.len(),
            spec_ranges_wf(ranges@),
            target == spec_rewrite_svcb_answers(v0, *preferred, ranges@, ttl).0,
            forall|k: int| 0 <= k < i ==> #[trigger] answers@[k].view() == target[k],
            forall|k: int| i <= k < answers@.len() ==> #[trigger] answers@[k].view() == v0[k],
            changed <==> exists|k: int|
                0 <= k < i && (#[trigger] spec_rewrite_svcb_answer(v0[k], *preferred, ranges@, ttl)).1,
        decreases answers@.len() - i,
    {
        let ghost before = answers@;
        assert(answers@[i as int].view() == v0[i as int]);
        let replacement = match &answers[i].data {
            RecordData::Svcb(params) => match rewrite_svcb(params, preferred, ranges) {
                Some(np) => {
                    let data_changed = !params_equal(params, &np);
                    Some((RecordData::Svcb(np), data_changed))
                },
                None => None,
            },
            RecordData::Https(params) => match rewrite_svcb(params, preferred, ranges) {
                Some(np) => {
                    let data_changed = !params_equal(params, &np);
                    Some((RecordData::Https(np), data_changed))
                },
                None => None,
            },
            _ => None,
        };
        match replacement {
            Some((data, data_changed)) => {
                if data_changed || answers[i].ttl != ttl {
                    changed = true;
                }
                answers.set(i, AnswerRecord { data, ttl });
            },
            None => {},
        }
        proof {
            assert forall|k: int| 0 <= k < i + 1 implies #[trigger] answers@[k].view() == target[k] by {
                if k < i {
                    assert(answers@[k] == before[k]);
                }
            }
            assert forall|k: int| i + 1 <= k < answers@.len() implies #[trigger] answers@[k].view()
                == v0[k] by {
                assert(answers@[k] == before[k]);
            }
        }
        i += 1;
    }
    assert(spec_answers_view(answers@) =~= target);
    changed
}

/// The answers after the Cloudflare rewrite, and whether any changed: A
/// answers point at the preferred IPv4 address where there is one and every
/// A answer lies in the ranges (likewise AAAA), then SVCB and HTTPS hints.
pub open spec fn spec_rewrite_cloudflare(
    answers: Seq<AnswerView>,
    ranges: Seq<Network>,
    preferred: PreferredIps,
    ttl: u32,
) -> (Seq<AnswerView>, bool) {
    let (a1, c1) = if preferred.ipv4 is Some && spec_all_cloudflare_addresses(answers, true, ranges) {
        spec_rewrite_addresses(answers, IpAddress::V4(preferred.ipv4->0), ttl)
    } else {
        (answers, false)
    };
    let (a2, c2) = if preferred.ipv6 is Some && spec_all_cloudflare_addresses(a1, false, ranges) {
        spec_rewrite_addresses(a1, IpAddress::V6(preferred.ipv6->0), ttl)
    } else {
        (a1, false)
    };
    let (a3, c3) = spec_rewrite_svcb_answers(a2, preferred, ranges, ttl);
    (a3, c1 || c2 || c3)
}

/// Rewrites a Cloudflare answer to the preferred addresses; `true` where it
/// changed, in which case the caller drops its DNSSEC state.
pub fn rewrite_cloudflare_response(
    answers: &mut Vec<AnswerRecord>,
    ranges: &[Network],
    preferred: &PreferredIps,
    ttl: u32,
) -> (r: bool)
    requires
        spec_ranges_wf(ranges@),
    ensures
        (spec_answers_view(final(answers)@), r) == spec_rewrite_cloudflare(
            spec_answers_view(old(answers)@),
            ranges@,
            *preferred,
            ttl,
        ),
{
    let mut changed = false;
    match preferred.ipv4 {
        Some(ipv4) => {
            if all_cloudflare_addresses(answers, true, ranges) {
                changed = rewrite_address_records(answers, IpAddress::V4(ipv4), ttl);
            }
        },
        None => {},
    }
    match preferred.ipv6 {
        Some(ipv6) => {
            if all_cloudflare_addresses(answers, false, ranges) {
                let c = rewrite_address_records(answers, IpAddress::V6(ipv6), ttl);
                changed = changed || c;
            }
        },
        None => {},
    }
    let c = rewrite_svcb_records(answers, preferred, ranges, ttl);
    changed || c
}

/// Applies a configured built-in interceptor to an answer's records. The
/// configuration only names plugins compiled in; nothing is loaded from it.
/// Without preferred addresses nothing changes.
pub fn intercept_response(
    plugin: &PluginConfig,
    answers: &mut Vec<AnswerRecord>,
    ranges: &[Network],
    preferred: Option<PreferredIps>,
) -> (r: bool)
    requires
        spec_ranges_wf(ranges@),
    ensures
        match preferred {
            None => !r && final(answers)@ == old(answers)@,
            Some(p) => (spec_answers_view(final(answers)@), r) == spec_rewrite_cloudflare(
                spec_answers_view(old(answers)@),
                ranges@,
                p,
                plugin.rewrite_ttl_secs,
            ),
        },
{
    match plugin.kind {
        PluginType::CloudflarePreferred => match preferred {
            Some(p) => rewrite_cloudflare_response(answers, ranges, &p, plugin.rewrite_ttl_secs),
            None => false,
        },
    }
}

/// The service parameters of an SVCB or HTTPS record.
pub open spec fn spec_record_params(d: RecordView) -> Option<Seq<SvcParamView>> {
    match d {
        RecordView::Svcb(ps) => Some(ps),
        RecordView::Https(ps) => Some(ps),
        _ => None,
    }
}

/// Mixed hints are left as they are: where a hint address of one family in
/// an SVCB or HTTPS answer lies outside the Cloudflare ranges, every hint of
/// that family in that answer comes out of the rewrite unchanged.
pub proof fn law_mixed_hints_are_kept(
    answers: Seq<AnswerView>,
    ranges: Seq<Network>,
    preferred: PreferredIps,
    ttl: u32,
    ipv4: bool,
    k: int,
    i: int,
    j: int,
)
    requires
        0 <= k < answers.len(),
        spec_record_params(answers[k].data) is Some,
        0 <= i < spec_record_params(answers[k].data)->0.len(),
        spec_hint_addresses(spec_record_params(answers[k].data)->0[i].value, ipv4) is Some,
        0 <= j < spec_hint_addresses(spec_record_params(answers[k].data)->0[i].value, ipv4)->0.len(),
        !spec_in_ranges(
            ranges,
            spec_hint_addresses(spec_record_params(answers[k].data)->0[i].value, ipv4)->0[j],
        ),
    ensures
        ({
            let out = spec_rewrite_cloudflare(answers, ranges, preferred, ttl).0;
            let ps = spec_record_params(answers[k].data)->0;
            &&& out.len() == answers.len()
            &&& spec_record_params(out[k].data) is Some
            &&& spec_record_params(out[k].data)->0.len() == ps.len()
            &&& forall|m: int|
                0 <= m < ps.len() && spec_hint_addresses(ps[m].value, ipv4) is Some ==> (
                #[trigger] spec_record_params(out[k].data)->0[m]) == ps[m]
        }),
{
    let ps = spec_record_params(answers[k].data)->0;
    let a1 = if preferred.ipv4 is Some && spec_all_cloudflare_addresses(answers, true, ranges) {
        spec_rewrite_addresses(answers, IpAddress::V4(preferred.ipv4->0), ttl).0
    } else {
        answers
    };
    assert(a1.len() == answers.len() && a1[k] == answers[k]);
    let a2 = if preferred.ipv6 is Some && spec_all_cloudflare_addresses(a1, false, ranges) {
        spec_rewrite_addresses(a1, IpAddress::V6(preferred.ipv6->0), ttl).0
    } else {
        a1
    };
    assert(a2.len() == answers.len() && a2[k] == answers[k]);
    let a = spec_hint_addresses(ps[i].value, ipv4)->0;
    assert(!spec_all_cloudflare_hints(ps, ipv4, ranges)) by {
        if spec_all_cloudflare_hints(ps, ipv4, ranges) {
            assert(ps[i] == ps[i]);
            assert(spec_in_ranges(ranges, a[j]));
        }
    }
    let out = spec_rewrite_cloudflare(answers, ranges, preferred, ttl).0;
    assert(out[k] == spec_rewrite_svcb_answer(a2[k], preferred, ranges, ttl).0);
}

/// A mixed IPv4 answer is left as it is: where some A record points
/// outside the Cloudflare ranges, every A record comes out of the rewrite
/// unchanged (the other families are judged on their own).
pub proof fn law_mixed_ipv4_answers_are_kept(
    answers: Seq<AnswerView>,
    ranges: Seq<Network>,
    preferred: PreferredIps,
    ttl: u32,
    outside: int,
)
    requires
        0 <= outside < answers.len(),
        spec_answer_address(answers[outside], true) is Some,
        !spec_in_ranges(ranges, spec_answer_address(answers[outside], true)->0),
    ensures
        ({
            let out = spec_rewrite_cloudflare(answers, ranges, preferred, ttl).0;
            &&& out.len() == answers.len()
            &&& forall|k: int|
                0 <= k < answers.len() && spec_answer_address(answers[k], true) is Some ==> out[k]
                    == answers[k]
        }),
{
    assert(!spec_all_cloudflare_addresses(answers, true, ranges));
    let a1 = answers;
    let a2 = if preferred.ipv6 is Some && spec_all_cloudflare_addresses(a1, false, ranges) {
        spec_rewrite_addresses(a1, IpAddress::V6(preferred.ipv6->0), ttl).0
    } else {
        a1
    };
    assert forall|k: int|
        0 <= k < answers.len() && spec_answer_address(answers[k], true) is Some implies a2[k]
            == answers[k] && spec_rewrite_svcb_answer(a2[k], preferred, ranges, ttl).0
            == a2[k] by {
        assert(answers[k].data is A);
    }
}

/// A mixed IPv6 answer is left as it is: where some AAAA record points
/// outside the Cloudflare ranges, every AAAA record comes out of the
/// rewrite unchanged.
pub proof fn law_mixed_ipv6_answers_are_kept(
    answers: Seq<AnswerView>,
    ranges: Seq<Network>,
    preferred: PreferredIps,
    ttl: u32,
    outside: int,
)
    requires
        0 <= outside < answers.len(),
        spec_answer_address(answers[outside], false) is Some,
        !spec_in_ranges(ranges, spec_answer_address(answers[outside], false)->0),
    ensures
        ({
            let out = spec_rewrite_cloudflare(answers, ranges, preferred, ttl).0;
            &&& out.len() == answers.len()
            &&& forall|k: int|
                0 <= k < answers.len() && spec_answer_address(answers[k], false) is Some ==> out[k]
                    == answers[k]
        }),
{
    let a1 = if preferred.ipv4 is Some && spec_all_cloudflare_addresses(answers, true, ranges) {
        spec_rewrite_addresses(answers, IpAddress::V4(preferred.ipv4->0), ttl).0
    } else {
        answers
    };
    assert forall|k: int| 0 <= k < answers.len() && spec_answer_address(answers[k], false) is Some implies a1[k]
        == answers[k] by {
        assert(answers[k].data is Aaaa);
    }
    assert(a1.len() == answers.len());
    assert(a1[outside] == answers[outside]);
    assert(!spec_all_cloudflare_addresses(a1, false, ranges));
    assert forall|k: int|
        0 <= k < answers.len() && spec_answer_address(answers[k], false) is Some implies spec_rewrite_svcb_answer(
            a1[k],
            preferred,
            ranges,
            ttl,
        ).0 == answers[k] by {
        assert(answers[k].data is Aaaa);
    }
}

/// With no preferred address there is nothing to rewrite: the answer comes
/// back as it was, reported unchanged.
pub proof fn law_no_preferred_address_changes_nothing(
    answers: Seq<AnswerView>,
    ranges: Seq<Network>,
    ttl: u32,
)
    ensures
        spec_rewrite_cloudflare(answers, ranges, PreferredIps { ipv4: None, ipv6: None }, ttl)
            == (answers, false),
{
    let none = PreferredIps { ipv4: None, ipv6: None };
    let r = spec_rewrite_svcb_answers(answers, none, ranges, ttl);
    assert forall|i: int| 0 <= i < answers.len() implies !(#[trigger] spec_rewrite_svcb_answer(
        answers[i],
        none,
        ranges,
        ttl,
    )).1 && spec_rewrite_svcb_answer(answers[i], none, ranges, ttl).0 == answers[i] by {}
    assert(r.0 =~= answers);
}

/// The record type of DNSSEC signatures.
pub const RRSIG_TYPE: u16 = 46;

/// What clearing the DNSSEC state reads of a message: the record types of
/// its three sections, and whether it carries EDNS.
pub struct DnssecView {
    pub answers: Vec<u16>,
    pub name_servers: Vec<u16>,
    pub additionals: Vec<u16>,
    pub has_edns: bool,
}

/// The DNSSEC state a rewritten message is left with: which records of each
/// section stay, the authenticated-data flag, and the EDNS DNSSEC-OK flag
/// where the message carries EDNS.
pub struct DnssecClearing {
    pub keep_answers: Vec<bool>,
    pub keep_name_servers: Vec<bool>,
    pub keep_additionals: Vec<bool>,
    pub authentic_data: bool,
    pub dnssec_ok: Option<bool>,
}

/// Every record but the signatures stays.
pub open spec fn spec_keep_unsigned(types: Seq<u16>) -> Seq<bool> {
    types.map_values(|t: u16| t != RRSIG_TYPE)
}

fn keep_unsigned(types: &Vec<u16>) -> (r: Vec<bool>)
    ensures
        r@ == spec_keep_unsigned(types@),
{
    let mut keep: Vec<bool> = Vec::new();
    let mut i: usize = 0;
    while i < types.len()
        invariant
            i <= types@.len(),
            keep@ == spec_keep_unsigned(types@.take(i as int)),
        decreases types@.len() - i,
    {
        keep.push(types[i] != RRSIG_TYPE);
        proof {
            assert(spec_keep_unsigned(types@.take(i + 1)) =~= spec_keep_unsigned(types@.take(i as int)).push(
                types@[i as int] != RRSIG_TYPE,
            ));
        }
        i += 1;
    }
    assert(types@.take(types@.len() as int) =~= types@);
    keep
}

/// A rewritten answer can no longer be vouched for by DNSSEC: its
/// signatures are dropped from every section, it is not marked
/// authenticated, and where it carries EDNS it no longer asks for DNSSEC.
pub fn clear_dnssec(view: &DnssecView) -> (r: DnssecClearing)
    ensures
        r.keep_answers@ == spec_keep_unsigned(view.answers@),
        r.keep_name_servers@ == spec_keep_unsigned(view.name_servers@),
        r.keep_additionals@ == spec_keep_unsigned(view.additionals@),
        !r.authentic_data,
        r.dnssec_ok == (if view.has_edns {
            Some(false)
        } else {
            None::<bool>
        }),
{
    DnssecClearing {
        keep_answers: keep_unsigned(&view.answers),
        keep_name_servers: keep_unsigned(&view.name_servers),
        keep_additionals: keep_unsigned(&view.additionals),
        authentic_data: false,
        dnssec_ok: if view.has_edns {
            Some(false)
        } else {
            None
        },
    }
}

/// The DNSSEC state `clear_dnssec` leaves a message with.
pub open spec fn spec_dnssec_cleared(view: DnssecView, c: DnssecClearing) -> bool {
    &&& c.keep_answers@ == spec_keep_unsigned(view.answers@)
    &&& c.keep_name_servers@ == spec_keep_unsigned(view.name_servers@)
    &&& c.keep_additionals@ == spec_keep_unsigned(view.additionals@)
    &&& !c.authentic_data
    &&& c.dnssec_ok == (if view.has_edns {
        Some(false)
    } else {
        None::<bool>
    })
}

proof fn lemma_unchanged_addresses(answers: Seq<AnswerView>, preferred: IpAddress, ttl: u32)
    requires
        !spec_rewrite_addresses(answers, preferred, ttl).1,
    ensures
        spec_rewrite_addresses(answers, preferred, ttl).0 == answers,
{
    let out = spec_rewrite_addresses(answers, preferred, ttl).0;
    let ipv4 = preferred is V4;
    assert forall|i: int| 0 <= i < answers.len() implies out[i] == answers[i] by {
        if spec_answer_address(answers[i], ipv4) is Some {
            assert(spec_answer_address(answers[i], ipv4)->0 == preferred && answers[i].ttl == ttl);
        }
    }
    assert(out =~= answers);
}

/// A rewrite that reports no change leaves the answers as they were.
pub proof fn law_unchanged_rewrite_keeps_answers(
    answers: Seq<AnswerView>,
    ranges: Seq<Network>,
    preferred: PreferredIps,
    ttl: u32,
)
    requires
        !spec_rewrite_cloudflare(answers, ranges, preferred, ttl).1,
    ensures
        spec_rewrite_cloudflare(answers, ranges, preferred, ttl).0 == answers,
{
    let a1 = if preferred.ipv4 is Some && spec_all_cloudflare_addresses(answers, true, ranges) {
        spec_rewrite_addresses(answers, IpAddress::V4(preferred.ipv4->0), ttl).0
    } else {
        answers
    };
    if preferred.ipv4 is Some && spec_all_cloudflare_addresses(answers, true, ranges) {
        lemma_unchanged_addresses(answers, IpAddress::V4(preferred.ipv4->0), ttl);
    }
    let a2 = if preferred.ipv6 is Some && spec_all_cloudflare_addresses(a1, false, ranges) {
        spec_rewrite_addresses(a1, IpAddress::V6(preferred.ipv6->0), ttl).0
    } else {
        a1
    };
    if preferred.ipv6 is Some && spec_all_cloudflare_addresses(a1, false, ranges) {
        lemma_unchanged_addresses(a1, IpAddress::V6(preferred.ipv6->0), ttl);
    }
    let out = spec_rewrite_svcb_answers(a2, preferred, ranges, ttl).0;
    assert forall|i: int| 0 <= i < a2.len() implies out[i] == a2[i] by {
        assert(!(spec_rewrite_svcb_answer(a2[i], preferred, ranges, ttl)).1);
    }
    assert(out =~= a2);
}

/// Intercepts an answer: the answer records are rewritten as
/// `intercept_response` does, and where that changed anything the DNSSEC
/// state the message is left with comes back (`clear_dnssec` of its view);
/// where nothing changed, nothing comes back and the records stay as they were.
pub fn intercept_message(
    plugin: &PluginConfig,
    answers: &mut Vec<AnswerRecord>,
    dnssec: &DnssecView,
    ranges: &[Network],
    preferred: Option<PreferredIps>,
) -> (r: Option<DnssecClearing>)
    requires
        spec_ranges_wf(ranges@),
    ensures
        match preferred {
            None => r is None && final(answers)@ == old(answers)@,
            Some(p) => {
                let rewrite = spec_rewrite_cloudflare(
                    spec_answers_view(old(answers)@),
                    ranges@,
                    p,
                    plugin.rewrite_ttl_secs,
                );
                &&& spec_answers_view(final(answers)@) == rewrite.0
                &&& (r is Some <==> rewrite.1)
            },
        },
        r is None ==> spec_answers_view(final(answers)@) == spec_answers_view(old(answers)@),
        r matches Some(c) ==> spec_dnssec_cleared(*dnssec, c),
{
    let changed = intercept_response(plugin, answers, ranges, preferred);
    if changed {
        Some(clear_dnssec(dnssec))
    } else {
        proof {
            if let Some(p) = preferred {
                law_unchanged_rewrite_keeps_answers(
                    spec_answers_view(old(answers)@),
                    ranges@,
                    p,
                    plugin.rewrite_ttl_secs,
                );
            }
        }
        None
    }
}

} // verus!

use hickory_proto::serialize::binary::BinDecodable;
use vstd::prelude::*;

use crate::config::{spec_first_index, FileConfig, LayerType, RuleSetMatcher};
use crate::net::SocketAddress;
use crate::rule_sets::RuleSetStore;
use crate::text::{
    chars_equal, chars_of, lower, piece_end, slice_chars, spec_lower, spec_next_sep, spec_trim,
    trim,
};

verus! {

broadcast use vstd::string::group_string_axioms;

/// The media type a DoH answer must carry.
pub const DNS_MESSAGE_MEDIA_TYPE: &'static str = "application/dns-message";

/// A `Content-Type` value names `application/dns-message` (in any ASCII case,
/// parameters after `;` ignored).
pub open spec fn spec_is_dns_message_content_type(value: Seq<char>) -> bool {
    spec_lower(spec_trim(value.subrange(0, spec_next_sep(value, ';', 0))))
        == DNS_MESSAGE_MEDIA_TYPE@
}

pub fn is_dns_message_content_type(value: &str) -> (r: bool)
    ensures
        r == spec_is_dns_message_content_type(value@),
{
    let chars = chars_of(value);
    let end = piece_end(chars.as_slice(), ';', 0);
    let media_type = slice_chars(chars.as_slice(), 0, end);
    let trimmed = trim(media_type.as_slice());
    let lowered = lower(trimmed.as_slice());
    let expected = chars_of(DNS_MESSAGE_MEDIA_TYPE);
    chars_equal(lowered.as_slice(), expected.as_slice())
}

/// The layers a request visits from layer `i`, following fallbacks, at most
/// `fuel` of them.
pub open spec fn spec_chain_from(config: FileConfig, i: int, fuel: nat) -> Seq<int>
    decreases fuel,
{
    if fuel == 0 {
        Seq::empty()
    } else {
        match config.spec_fallback_target(i) {
            None => seq![i],
            Some(j) => seq![i] + spec_chain_from(config, j, (fuel - 1) as nat),
        }
    }
}

/// The fallback chain of a request that starts at layer `start`: the layer,
/// its fallback, that layer's fallback, and so on (a valid configuration's
/// chains end within as many steps as there are layers).
pub open spec fn spec_layer_chain(config: FileConfig, start: int) -> Seq<int> {
    spec_chain_from(config, start, config.layers@.len())
}

proof fn lemma_walk_head(config: FileConfig, i: int, j: int, k: nat)
    requires
        config.spec_fallback_target(i) == Some(j),
    ensures
        config.spec_walk(i, k + 1) == config.spec_walk(j, k),
    decreases k,
{
    assert(config.spec_walk(i, 0) == Some(i));
    assert(config.spec_walk(j, 0) == Some(j));
    if k > 0 {
        lemma_walk_head(config, i, j, (k - 1) as nat);
        assert(config.spec_walk(i, k + 1) == match config.spec_walk(i, k) {
            None => None,
            Some(x) => config.spec_fallback_target(x),
        });
        assert(config.spec_walk(j, k) == match config.spec_walk(j, (k - 1) as nat) {
            None => None,
            Some(x) => config.spec_fallback_target(x),
        });
    }
}

proof fn lemma_chain_walk(config: FileConfig, i: int, fuel: nat)
    ensures
        spec_chain_from(config, i, fuel).len() <= fuel,
        fuel > 0 ==> spec_chain_from(config, i, fuel).len() >= 1,
        forall|k: int|
            0 <= k < spec_chain_from(config, i, fuel).len() ==> config.spec_walk(i, k as nat)
                == Some(#[trigger] spec_chain_from(config, i, fuel)[k]),
        spec_chain_from(config, i, fuel).len() < fuel ==> config.spec_walk(
            i,
            spec_chain_from(config, i, fuel).len(),
        ) is None,
    decreases fuel,
{
    if fuel > 0 {
        let chain = spec_chain_from(config, i, fuel);
        match config.spec_fallback_target(i) {
            None => {
                assert(config.spec_walk(i, 0) == Some(i));
                assert(config.spec_walk(i, 1) == config.spec_fallback_target(i));
            },
            Some(j) => {
                let rest = spec_chain_from(config, j, (fuel - 1) as nat);
                lemma_chain_walk(config, j, (fuel - 1) as nat);
                assert forall|k: int| 0 <= k < chain.len() implies config.spec_walk(i, k as nat)
                    == Some(#[trigger] chain[k]) by {
                    if k > 0 {
                        assert(chain[k] == rest[k - 1]);
                        lemma_walk_head(config, i, j, (k - 1) as nat);
                    }
                }
                if chain.len() < fuel {
                    lemma_walk_head(config, i, j, rest.len());
                }
            },
        }
    }
}

proof fn lemma_walk_none_persists(config: FileConfig, i: int, a: nat, b: nat)
    requires
        a <= b,
        config.spec_walk(i, a) is None,
    ensures
        config.spec_walk(i, b) is None,
    decreases b,
{
    if b > a {
        lemma_walk_none_persists(config, i, a, (b - 1) as nat);
    }
}

proof fn lemma_walk_shift(config: FileConfig, i: int, a: nat, b: nat, t: nat)
    requires
        config.spec_walk(i, a) == config.spec_walk(i, b),
    ensures
        config.spec_walk(i, a + t) == config.spec_walk(i, b + t),
    decreases t,
{
    if t > 0 {
        lemma_walk_shift(config, i, a, b, (t - 1) as nat);
        assert(config.spec_walk(i, a + t) == match config.spec_walk(i, (a + t - 1) as nat) {
            None => None,
            Some(j) => config.spec_fallback_target(j),
        });
        assert(config.spec_walk(i, b + t) == match config.spec_walk(i, (b + t - 1) as nat) {
            None => None,
            Some(j) => config.spec_fallback_target(j),
        });
    }
}

proof fn lemma_walk_cycles_forever(config: FileConfig, i: int, a: nat, b: nat, x: nat)
    requires
        a < b <= x,
        config.spec_walk(i, a) == config.spec_walk(i, b),
        config.spec_walk(i, b) is Some,
    ensures
        config.spec_walk(i, x) is Some,
    decreases x,
{
    if x > b {
        let back = (x - (b - a)) as nat;
        if back >= b {
            lemma_walk_cycles_forever(config, i, a, b, back);
        } else if config.spec_walk(i, back) is None {
            lemma_walk_none_persists(config, i, back, b);
        }
        lemma_walk_shift(config, i, a, b, (x - b) as nat);
    }
}

proof fn lemma_no_cycle_error(config: FileConfig, i: int, k: int)
    requires
        0 <= i <= k < config.layers@.len(),
        config.spec_cycle_error(i) is None,
    ensures
        config.spec_chain_ends(k),
    decreases k - i,
{
    if i < k {
        lemma_no_cycle_error(config, i + 1, k);
    }
}

/// In a valid configuration the fallback chain of every layer is complete
/// and visits no layer twice: it starts at the layer, each next layer is the
/// previous one's fallback, and its last layer has no fallback.
pub proof fn law_valid_chains_end_without_repeats(config: FileConfig, start: int)
    requires
        config.spec_valid(),
        0 <= start < config.layers@.len(),
    ensures
        ({
            let chain = spec_layer_chain(config, start);
            &&& chain.len() >= 1
            &&& chain[0] == start
            &&& forall|k: int|
                0 <= k < chain.len() - 1 ==> config.spec_fallback_target(#[trigger] chain[k])
                    == Some(chain[k + 1])
            &&& config.spec_fallback_target(chain.last()) is None
            &&& forall|a: int, b: int|
                0 <= a < b < chain.len() ==> #[trigger] chain[a] != #[trigger] chain[b]
        }),
{
    let n = config.layers@.len();
    let chain = spec_layer_chain(config, start);
    assert(config.spec_cycle_error(0) is None);
    lemma_no_cycle_error(config, 0, start);
    lemma_chain_walk(config, start, n);
    assert(config.spec_walk(start, 0) == Some(chain[0]));
    assert forall|k: int| 0 <= k < chain.len() - 1 implies config.spec_fallback_target(
        #[trigger] chain[k],
    ) == Some(chain[k + 1]) by {
        assert(config.spec_walk(start, (k + 1) as nat) == Some(chain[k + 1]));
        assert(config.spec_walk(start, k as nat) == Some(chain[k]));
    }
    let last = (chain.len() - 1) as nat;
    assert(config.spec_walk(start, last) == Some(chain.last()));
    assert(config.spec_walk(start, last + 1) == config.spec_fallback_target(chain.last()));
    if chain.len() == n {
        assert(config.spec_walk(start, n) is None);
    }
    assert forall|a: int, b: int| 0 <= a < b < chain.len() implies #[trigger] chain[a]
        != #[trigger] chain[b] by {
        if chain[a] == chain[b] {
            assert(config.spec_walk(start, a as nat) == Some(chain[a]));
            assert(config.spec_walk(start, b as nat) == Some(chain[b]));
            lemma_walk_cycles_forever(config, start, a as nat, b as nat, n);
        }
    }
}

/// The interceptor layers among the first `end` layers of a chain.
pub open spec fn spec_interceptors_before(config: FileConfig, chain: Seq<int>, end: int) -> Seq<int>
    decreases end,
{
    if end <= 0 || end > chain.len() {
        Seq::empty()
    } else {
        let rest = spec_interceptors_before(config, chain, end - 1);
        if config.layers@[chain[end - 1]].kind == LayerType::Interceptor {
            rest.push(chain[end - 1])
        } else {
            rest
        }
    }
}

/// The layers of a chain from `from` on until (not including) its next
/// network layer are all interceptors.
pub open spec fn spec_only_interceptors(config: FileConfig, chain: Seq<int>, from: int, to: int) -> bool {
    forall|m: int| from <= m < to ==> config.layers@[chain[m]].kind == LayerType::Interceptor
}

/// What a request does next on its walk.
pub enum WalkStep {
    /// Query this network layer.
    Next(usize),
    /// The layer queried answered: return its answer, rewritten by these
    /// interceptor layers in this order.
    Answer(Vec<usize>),
    /// Every network layer of the chain failed: the request fails.
    Exhausted,
}

/// A request's walk along its layer chain: the network layers are tried in
/// order, and the interceptors met on the way rewrite the answer of the one
/// that answers.
pub struct LayerWalk {
    chain: Vec<usize>,
    position: usize,
    interceptors: Vec<usize>,
}

impl LayerWalk {
    /// The chain being walked.
    pub closed spec fn chain(&self) -> Seq<int> {
        self.chain@.map_values(|l: usize| l as int)
    }

    /// How many layers of the chain were passed.
    pub closed spec fn position(&self) -> int {
        self.position as int
    }

    /// The interceptors passed so far, in walk order.
    pub closed spec fn interceptors(&self) -> Seq<int> {
        self.interceptors@.map_values(|l: usize| l as int)
    }

    /// The walk follows the chain of `config` from its start.
    pub open spec fn wf(&self, config: FileConfig) -> bool {
        &&& 0 <= self.position() <= self.chain().len()
        &&& forall|k: int| 0 <= k < self.chain().len() ==> 0 <= #[trigger] self.chain()[k] < config.layers@.len()
        &&& self.interceptors() == spec_interceptors_before(config, self.chain(), self.position())
    }

    /// Starts the walk of a request at layer `start`.
    pub fn start(config: &FileConfig, start: usize) -> (r: LayerWalk)
        requires
            start < config.layers@.len(),
        ensures
            r.wf(*config),
            r.chain() == spec_layer_chain(*config, start as int),
            r.position() == 0,
    {
        let n = config.layers.len();
        let mut chain: Vec<usize> = Vec::new();
        let mut current = start;
        let mut fuel = n;
        let ghost total = spec_layer_chain(*config, start as int);
        loop
            invariant_except_break
                fuel > 0 ==> total == chain@.map_values(|l: usize| l as int) + spec_chain_from(
                    *config,
                    current as int,
                    fuel as nat,
                ),
                fuel == 0 ==> total == chain@.map_values(|l: usize| l as int),
            invariant
                n == config.layers@.len(),
                fuel <= n,
                current < n,
                forall|k: int| 0 <= k < chain@.len() ==> #[trigger] chain@[k] < n,
            ensures
                total == chain@.map_values(|l: usize| l as int),
                forall|k: int| 0 <= k < chain@.len() ==> #[trigger] chain@[k] < n,
            decreases fuel,
        {
            if fuel == 0 {
                break;
            }
            let ghost before = chain@.map_values(|l: usize| l as int);
            chain.push(current);
            assert(chain@.map_values(|l: usize| l as int) =~= before.push(current as int));
            fuel -= 1;
            match config.fallback_target(current) {
                None => {
                    assert(before + seq![current as int] =~= before.push(current as int));
                    assert(total == chain@.map_values(|l: usize| l as int));
                    break;
                },
                Some(next) => {
                    if fuel > 0 {
                        assert(before + (seq![current as int] + spec_chain_from(
                            *config,
                            next as int,
                            fuel as nat,
                        )) =~= before.push(current as int) + spec_chain_from(
                            *config,
                            next as int,
                            fuel as nat,
                        ));
                    } else {
                        assert(spec_chain_from(*config, next as int, 0) =~= Seq::<int>::empty());
                        assert(before + (seq![current as int] + Seq::<int>::empty())
                            =~= before.push(current as int));
                    }
                    current = next;
                },
            }
        }
        let walk = LayerWalk { chain, position: 0, interceptors: Vec::new() };
        assert(walk.interceptors() =~= Seq::<int>::empty());
        walk
    }

    /// Passes interceptor layers until the next network layer, which it
    /// returns; `None` when the chain is exhausted.
    pub fn next_network_layer(&mut self, config: &FileConfig) -> (r: Option<usize>)
        requires
            old(self).wf(*config),
        ensures
            final(self).wf(*config),
            final(self).chain() == old(self).chain(),
            match r {
                Some(layer) => {
                    &&& old(self).position() < final(self).position()
                    &&& final(self).chain()[final(self).position() - 1] == layer
                    &&& config.layers@[layer as int].kind != LayerType::Interceptor
                    &&& spec_only_interceptors(
                        *config,
                        old(self).chain(),
                        old(self).position(),
                        final(self).position() - 1,
                    )
                },
                None => {
                    &&& final(self).position() == final(self).chain().len()
                    &&& spec_only_interceptors(
                        *config,
                        old(self).chain(),
                        old(self).position(),
                        final(self).chain().len() as int,
                    )
                },
            },
    {
        let ghost start = self.position();
        while self.position < self.chain.len()
            invariant
                self.wf(*config),
                self.chain() == old(self).chain(),
                start == old(self).position(),
                start <= self.position(),
                spec_only_interceptors(*config, self.chain(), start, self.position()),
            decreases self.chain@.len() - self.position,
        {
            let layer = self.chain[self.position];
            assert(self.chain()[self.position as int] == layer as int);
            let ghost before = self.interceptors();
            self.position += 1;
            match config.layers[layer].kind {
                LayerType::Interceptor => {
                    self.interceptors.push(layer);
                    assert(self.interceptors() =~= before.push(layer as int));
                },
                _ => {
                    return Some(layer);
                },
            }
        }
        None
    }

    /// The walk's decision after the layer last queried (`answered` is
    /// false before the first query): an answer that passed the response
    /// check is returned, rewritten by the interceptors passed on the way,
    /// last first; a failure falls back to the next network layer of the
    /// chain, and the request fails once the chain is exhausted.
    pub fn on_outcome(&mut self, config: &FileConfig, answered: bool) -> (r: WalkStep)
        requires
            old(self).wf(*config),
        ensures
            final(self).wf(*config),
            final(self).chain() == old(self).chain(),
            answered ==> {
                &&& r matches WalkStep::Answer(v) && v@.map_values(|l: usize| l as int)
                    == old(self).interceptors().reverse()
                &&& final(self).position() == old(self).position()
                &&& final(self).interceptors() == old(self).interceptors()
            },
            !answered ==> match r {
                WalkStep::Next(layer) => {
                    &&& old(self).position() < final(self).position()
                    &&& final(self).chain()[final(self).position() - 1] == layer
                    &&& config.layers@[layer as int].kind != LayerType::Interceptor
                    &&& spec_only_interceptors(
                        *config,
                        old(self).chain(),
                        old(self).position(),
                        final(self).position() - 1,
                    )
                },
                WalkStep::Exhausted => {
                    &&& final(self).position() == final(self).chain().len()
                    &&& spec_only_interceptors(
                        *config,
                        old(self).chain(),
                        old(self).position(),
                        final(self).chain().len() as int,
                    )
                },
                WalkStep::Answer(_) => false,
            },
    {
        if answered {
            WalkStep::Answer(self.interceptors_for_response())
        } else {
            match self.next_network_layer(config) {
                Some(layer) => WalkStep::Next(layer),
                None => WalkStep::Exhausted,
            }
        }
    }

    /// The interceptors passed so far, last first: the order in which they
    /// rewrite an answer.
    pub fn interceptors_for_response(&self) -> (r: Vec<usize>)
        ensures
            r@.map_values(|l: usize| l as int) == self.interceptors().reverse(),
    {
        let mut r: Vec<usize> = Vec::new();
        let mut i = self.interceptors.len();
        while i > 0
            invariant
                i <= self.interceptors@.len(),
                r@.map_values(|l: usize| l as int) == self.interceptors().subrange(
                    i as int,
                    self.interceptors@.len() as int,
                ).reverse(),
            decreases i,
        {
            i -= 1;
            let ghost before = r@;
            let x = self.interceptors[i];
            r.push(x);
            proof {
                let s = self.interceptors();
                let len = self.interceptors@.len() as int;
                assert(r@.map_values(|l: usize| l as int) =~= before.map_values(|l: usize| l as int).push(
                    x as int,
                ));
                assert(s[i as int] == x as int);
                assert(s.subrange(i as int, len).reverse() =~= s.subrange(i + 1, len).reverse().push(
                    s[i as int],
                ));
            }
        }
        assert(self.interceptors().subrange(0, self.interceptors@.len() as int) =~= self.interceptors());
        r
    }
}

/// Layer selection by rule sets asks the store for the rule set of each tag,
/// which must come from the configuration's current source of that tag.
pub struct StoreMatcher<'a> {
    store: &'a RuleSetStore,
    config: &'a FileConfig,
}

impl<'a> StoreMatcher<'a> {
    #[verifier::type_invariant]
    spec fn store_is_wf(self) -> bool {
        self.store.wf()
    }

    /// The store consulted.
    pub closed spec fn store(self) -> RuleSetStore {
        *self.store
    }

    /// The configuration whose sources are expected.
    pub closed spec fn config(self) -> FileConfig {
        *self.config
    }

    pub fn new(store: &'a RuleSetStore, config: &'a FileConfig) -> (r: StoreMatcher<'a>)
        requires
            store.wf(),
        ensures
            r.store() == *store,
            r.config() == *config,
    {
        StoreMatcher { store, config }
    }
}

impl<'a> RuleSetMatcher for StoreMatcher<'a> {
    open spec fn spec_matches(&self, tag: Seq<char>, domain: Seq<char>) -> bool {
        self.store().spec_matches(
            tag,
            match spec_first_index(self.config().rule_set_tags(), tag, 0) {
                Some(i) => Some(self.config().rule_sets@[i]),
                None => None,
            },
            domain,
        )
    }

    fn matches(&self, tag: &str, domain: &str) -> (r: bool) {
        proof {
            use_type_invariant(self);
        }
        let expected = self.config.rule_set(tag);
        let r = self.store.matches(tag, expected, domain);
        proof {
            match spec_first_index(self.config().rule_set_tags(), tag@, 0) {
                Some(i) => {
                    assert(expected is Some);
                },
                None => {},
            }
        }
        r
    }
}

/// A point in time on a monotonic clock, in nanoseconds.
pub type Nanos = u128;

/// The whole request's deadline: `timeout_ms` from `now`.
pub fn request_deadline(now: Nanos, timeout_ms: u64) -> (r: Nanos)
    requires
        now <= u64::MAX,
    ensures
        r == now + timeout_ms * 1_000_000,
{
    now + (timeout_ms as u128) * 1_000_000
}

/// The deadline of one layer: its timeout from now, within the request's
/// deadline; `None` once that has passed.
pub fn layer_deadline(timeout_ms: u64, deadline: Nanos, now: Nanos) -> (r: Option<Nanos>)
    requires
        now <= u64::MAX,
    ensures
        deadline <= now ==> r is None,
        deadline > now ==> r == Some(
            if now + timeout_ms * 1_000_000 < deadline {
                (now + timeout_ms * 1_000_000) as u128
            } else {
                deadline
            },
        ),
{
    if deadline <= now {
        return None;
    }
    let layer_end = now + (timeout_ms as u128) * 1_000_000;
    Some(
        if layer_end < deadline {
            layer_end
        } else {
            deadline
        },
    )
}

/// A share of the time left for one of `targets_remaining` resolvers still
/// to try (at least one).
pub fn allocated_endpoint_deadline(deadline: Nanos, targets_remaining: usize, now: Nanos) -> (r:
    Nanos)
    requires
        now <= u64::MAX,
    ensures
        deadline <= now ==> r == now,
        deadline > now ==> r == now + (deadline - now) / (if targets_remaining == 0 {
            1
        } else if targets_remaining > u32::MAX {
            u32::MAX as int
        } else {
            targets_remaining as int
        }),
{
    let remaining: u128 = if deadline > now {
        deadline - now
    } else {
        0
    };
    let divisor: u128 = if targets_remaining == 0 {
        1
    } else if targets_remaining as u128 > u32::MAX as u128 {
        u32::MAX as u128
    } else {
        targets_remaining as u128
    };
    let share = remaining / divisor;
    assert(share <= remaining) by (nonlinear_arith)
        requires
            divisor >= 1,
            share == remaining / divisor,
    ;
    now + share
}

/// The time left until a deadline; `None` once it has passed.
pub fn duration_until(deadline: Nanos, now: Nanos) -> (r: Option<Nanos>)
    ensures
        deadline <= now ==> r is None,
        deadline > now ==> r == Some((deadline - now) as u128),
{
    if deadline > now {
        Some(deadline - now)
    } else {
        None
    }
}

/// `known` after adding the discovered resolvers it lacks, in order.
pub open spec fn spec_extend_known(known: Seq<SocketAddress>, discovered: Seq<SocketAddress>) -> Seq<
    SocketAddress,
>
    decreases discovered.len(),
{
    if discovered.len() == 0 {
        known
    } else {
        let before = spec_extend_known(known, discovered.drop_last());
        if before.contains(discovered.last()) {
            before
        } else {
            before.push(discovered.last())
        }
    }
}

/// Queues the discovered resolvers not tried or queued before.
pub fn extend_local_candidates(
    candidates: &mut Vec<SocketAddress>,
    known: &mut Vec<SocketAddress>,
    discovered: &[SocketAddress],
)
    ensures
        final(known)@ == spec_extend_known(old(known)@, discovered@),
        final(candidates)@ == old(candidates)@ + final(known)@.subrange(
            old(known)@.len() as int,
            final(known)@.len() as int,
        ),
{
    let ghost known0 = known@;
    let ghost candidates0 = candidates@;
    let mut i: usize = 0;
    while i < discovered.len()
        invariant
            i <= discovered@.len(),
            known@ == spec_extend_known(known0, discovered@.take(i as int)),
            known0.len() <= known@.len(),
            known@.subrange(0, known0.len() as int) == known0,
            candidates@ == candidates0 + known@.subrange(known0.len() as int, known@.len() as int),
        decreases discovered@.len() - i,
    {
        let address = discovered[i];
        assert(discovered@.take(i + 1).drop_last() =~= discovered@.take(i as int));
        let mut seen = false;
        let mut k: usize = 0;
        while k < known.len()
            invariant
                k <= known@.len(),
                seen <==> exists|m: int| 0 <= m < k && known@[m] == address,
            decreases known@.len() - k,
        {
            if known[k] == address {
                seen = true;
            }
            k += 1;
        }
        let ghost before_known = known@;
        let ghost before_candidates = candidates@;
        if !seen {
            known.push(address);
            candidates.push(address);
            assert(known@.subrange(0, known0.len() as int) =~= known0);
            assert(candidates@ =~= candidates0 + known@.subrange(
                known0.len() as int,
                known@.len() as int,
            )) by {
                assert(before_candidates == candidates0 + before_known.subrange(
                    known0.len() as int,
                    before_known.len() as int,
                ));
                assert(known@.subrange(known0.len() as int, known@.len() as int) =~= before_known.subrange(
                    known0.len() as int,
                    before_known.len() as int,
                ).push(address));
            }
        }
        i += 1;
    }
    assert(discovered@.take(discovered@.len() as int) =~= discovered@);
}


#[verifier::external_type_specification]
#[verifier::external_body]
pub struct ExDnsMessage(hickory_proto::op::Message);

/// Whether `hickory_proto::op::Message::from_bytes` decodes the bytes.
pub uninterp spec fn spec_dns_decodes(bytes: Seq<u8>) -> bool;

/// The ID of the message the bytes decode to (`Message::id`).
pub uninterp spec fn spec_dns_id(bytes: Seq<u8>) -> u16;

/// The decoded message is a response, not a query (`Message::message_type`).
pub uninterp spec fn spec_dns_is_response(bytes: Seq<u8>) -> bool;

/// The opcode of the decoded message (`Message::op_code`, as its number).
pub uninterp spec fn spec_dns_op_code(bytes: Seq<u8>) -> u8;

/// The two decoded messages carry equal questions (`Message::queries`
/// compared with hickory's `Query` equality).
pub uninterp spec fn spec_dns_same_questions(a: Seq<u8>, b: Seq<u8>) -> bool;

/// The decoded message has its truncation flag set (`Message::truncated`).
pub uninterp spec fn spec_dns_truncated(bytes: Seq<u8>) -> bool;

/// A decoded DNS message with the bytes it was decoded from; the private
/// fields keep the two paired.
pub struct DnsMessage {
    bytes: Vec<u8>,
    message: hickory_proto::op::Message,
}

impl DnsMessage {
    /// The bytes the message was decoded from.
    pub closed spec fn wire(&self) -> Seq<u8> {
        self.bytes@
    }

    /// The bytes the message was decoded from.
    pub fn bytes(&self) -> (r: &[u8])
        ensures
            r@ == self.wire(),
    {
        self.bytes.as_slice()
    }
}

/// Decodes a DNS message with `hickory_proto`'s `Message::from_bytes`.
#[verifier::external_body]
fn decode_message(bytes: Vec<u8>) -> (r: Option<DnsMessage>)
    ensures
        r is Some <==> spec_dns_decodes(bytes@),
        r matches Some(m) ==> m.wire() == bytes@,
{
    match hickory_proto::op::Message::from_bytes(&bytes) {
        Ok(message) => Some(DnsMessage { bytes, message }),
        Err(_) => None,
    }
}

/// `Message::id`.
#[verifier::external_body]
fn message_id(m: &DnsMessage) -> (r: u16)
    ensures
        r == spec_dns_id(m.wire()),
{
    m.message.id()
}

/// `Message::message_type` is `Response`.
#[verifier::external_body]
fn message_is_response(m: &DnsMessage) -> (r: bool)
    ensures
        r == spec_dns_is_response(m.wire()),
{
    m.message.message_type() == hickory_proto::op::MessageType::Response
}

/// `Message::op_code`, as its number.
#[verifier::external_body]
fn message_op_code(m: &DnsMessage) -> (r: u8)
    ensures
        r == spec_dns_op_code(m.wire()),
{
    u8::from(m.message.op_code())
}

/// `Message::queries` of both messages are equal.
#[verifier::external_body]
fn same_questions(a: &DnsMessage, b: &DnsMessage) -> (r: bool)
    ensures
        r == spec_dns_same_questions(a.wire(), b.wire()),
{
    a.message.queries() == b.message.queries()
}

/// `Message::truncated`.
#[verifier::external_body]
fn message_truncated(m: &DnsMessage) -> (r: bool)
    ensures
        r == spec_dns_truncated(m.wire()),
{
    m.message.truncated()
}

impl DnsMessage {
    /// The truncation flag: a UDP answer with it set is asked again over TCP.
    pub fn truncated(&self) -> (r: bool)
        ensures
            r == spec_dns_truncated(self.wire()),
    {
        message_truncated(self)
    }
}

/// A packet the listener serves: it decodes and is a query. Responses and
/// malformed packets are dropped.
pub fn accept_request(packet: Vec<u8>) -> (r: Option<DnsMessage>)
    ensures
        r is Some <==> spec_dns_decodes(packet@) && !spec_dns_is_response(packet@),
        r matches Some(m) ==> m.wire() == packet@,
{
    match decode_message(packet) {
        Some(message) => if message_is_response(&message) {
            None
        } else {
            Some(message)
        },
        None => None,
    }
}

/// Why an upstream answer was refused.
#[derive(Debug, Clone, Copy, PartialEq, Eq, Structural)]
pub enum UpstreamError {
    Malformed,
    IdMismatch,
    NotAResponse,
    OpCodeMismatch,
    QuestionMismatch,
}

/// The first check an upstream answer fails, if any: it must decode, carry
/// the request's ID, be a response, carry the request's opcode and repeat
/// its questions.
pub open spec fn spec_upstream_error(request: Seq<u8>, packet: Seq<u8>) -> Option<UpstreamError> {
    if !spec_dns_decodes(packet) {
        Some(UpstreamError::Malformed)
    } else if spec_dns_id(packet) != spec_dns_id(request) {
        Some(UpstreamError::IdMismatch)
    } else if !spec_dns_is_response(packet) {
        Some(UpstreamError::NotAResponse)
    } else if spec_dns_op_code(packet) != spec_dns_op_code(request) {
        Some(UpstreamError::OpCodeMismatch)
    } else if !spec_dns_same_questions(packet, request) {
        Some(UpstreamError::QuestionMismatch)
    } else {
        None
    }
}

/// Accepts an upstream answer only where it answers this request.
pub fn validate_upstream_response(request: &DnsMessage, packet: Vec<u8>) -> (r: Result<
    DnsMessage,
    UpstreamError,
>)
    ensures
        r matches Ok(m) ==> spec_upstream_error(request.wire(), packet@) is None && m.wire()
            == packet@,
        r matches Err(e) ==> spec_upstream_error(request.wire(), packet@) == Some(e),
{
    let ghost wire = packet@;
    let response = match decode_message(packet) {
        Some(response) => response,
        None => return Err(UpstreamError::Malformed),
    };
    if message_id(&response) != message_id(request) {
        return Err(UpstreamError::IdMismatch);
    }
    if !message_is_response(&response) {
        return Err(UpstreamError::NotAResponse);
    }
    if message_op_code(&response) != message_op_code(request) {
        return Err(UpstreamError::OpCodeMismatch);
    }
    if !same_questions(&response, request) {
        return Err(UpstreamError::QuestionMismatch);
    }
    Ok(response)
}

} // verus!

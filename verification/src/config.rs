use vstd::prelude::*;

use crate::net::{
    host_network, parse_ip_address, parse_network, spec_host_network, spec_ranges_wf, Network, socket_addresses_overlap, spec_parse_ip_address,
    spec_parse_network, spec_socket_addresses_overlap, IpAddress, SocketAddress,
};
use crate::text::{
    chars_equal, chars_of, contains, has_piece, starts_with, spec_starts_with, lower, spec_contains, spec_has_piece, spec_lower, spec_trim,
    spec_trim_end_char, str_equal, string_from_chars, trim, trim_end_char, trim_str,
};

verus! {

broadcast use vstd::string::group_string_axioms;

/// The name of the user-owned configuration file.
pub const DEFAULT_CONFIG_FILE_NAME: &'static str = "edgesteer.json";

/// Default total deadline of one DNS request.
pub const DEFAULT_REQUEST_TIMEOUT_MS: u64 = 8_000;

/// Default per-layer network timeout.
pub const DEFAULT_LAYER_TIMEOUT_MS: u64 = 3_000;

/// Default refresh interval of a dynamic local resolver layer.
pub const DEFAULT_LOCAL_REFRESH_SECS: u64 = 30;

/// Default TTL of rewritten answers.
pub const DEFAULT_REWRITE_TTL_SECS: u32 = 60;

/// Default refresh interval of the Cloudflare range list (24 hours).
pub const DEFAULT_RANGE_REFRESH_SECS: u64 = 86_400;

/// Default per-download deadline of a remote rule set.
pub const DEFAULT_RULE_SET_TIMEOUT_MS: u64 = 10_000;

pub fn default_request_timeout_ms() -> (r: u64)
    ensures
        r == DEFAULT_REQUEST_TIMEOUT_MS,
{
    DEFAULT_REQUEST_TIMEOUT_MS
}

pub fn default_rewrite_ttl_secs() -> (r: u32)
    ensures
        r == DEFAULT_REWRITE_TTL_SECS,
{
    DEFAULT_REWRITE_TTL_SECS
}

pub fn default_layer_timeout_ms() -> (r: u64)
    ensures
        r == DEFAULT_LAYER_TIMEOUT_MS,
{
    DEFAULT_LAYER_TIMEOUT_MS
}

pub fn default_local_refresh_secs() -> (r: u64)
    ensures
        r == DEFAULT_LOCAL_REFRESH_SECS,
{
    DEFAULT_LOCAL_REFRESH_SECS
}

/// The characters of an optional string.
pub open spec fn opt_view(o: Option<String>) -> Option<Seq<char>> {
    match o {
        Some(s) => Some(s@),
        None => None,
    }
}

/// The characters of an optional string slice.
pub open spec fn opt_str_view(o: Option<&str>) -> Option<Seq<char>> {
    match o {
        Some(s) => Some(s@),
        None => None,
    }
}

/// A string is empty after trimming whitespace.
pub open spec fn spec_blank(s: Seq<char>) -> bool {
    spec_trim(s).len() == 0
}

pub fn is_blank(s: &str) -> (r: bool)
    ensures
        r == spec_blank(s@),
{
    trim_str(s).len() == 0
}

#[derive(Debug, Clone, Copy, PartialEq, Eq, Structural)]
pub struct ListenerConfig {
    pub address: SocketAddress,
    pub allow_remote: bool,
}

impl ListenerConfig {
    /// 127.0.0.1:53, loopback only.
    pub fn default_listener() -> (r: ListenerConfig)
        ensures
            r.address == (SocketAddress { ip: IpAddress::V4(0x7f00_0001), port: 53 }),
            !r.allow_remote,
    {
        ListenerConfig {
            address: SocketAddress { ip: IpAddress::V4(0x7f00_0001), port: 53 },
            allow_remote: false,
        }
    }
}

#[derive(Debug, Clone, Copy, PartialEq, Eq, Structural)]
pub struct CloudflareConfig {
    pub range_refresh_secs: u64,
}

impl CloudflareConfig {
    pub fn default_config() -> (r: CloudflareConfig)
        ensures
            r.range_refresh_secs == DEFAULT_RANGE_REFRESH_SECS,
    {
        CloudflareConfig { range_refresh_secs: DEFAULT_RANGE_REFRESH_SECS }
    }
}

#[derive(Debug, Clone, Copy, PartialEq, Eq, Structural)]
pub enum RuleSetType {
    Local,
    Remote,
}

#[derive(Debug, Clone, Copy, PartialEq, Eq, Structural)]
pub enum PluginType {
    CloudflarePreferred,
}

#[derive(Debug, Clone, Copy, PartialEq, Eq, Structural)]
pub enum LayerType {
    Udp,
    Tcp,
    Doh,
    Dot,
    Local,
    Interceptor,
}

#[derive(Debug, Clone, Copy, PartialEq, Eq, Structural)]
pub enum KeywordMatchMode {
    Label,
    Contains,
}

impl KeywordMatchMode {
    /// Label matching is the default.
    pub fn default_mode() -> (r: KeywordMatchMode)
        ensures
            r == KeywordMatchMode::Label,
    {
        KeywordMatchMode::Label
    }
}

/// A sing-box SRS rule set source.
#[derive(Debug, Clone)]
pub struct RuleSetConfig {
    pub tag: String,
    pub kind: RuleSetType,
    /// Local `.srs` source path.
    pub path: Option<String>,
    /// HTTPS source URL of a remote `.srs` rule set.
    pub url: Option<String>,
    /// Refresh period; by default 24 hours for remote sources, 60 seconds for local ones.
    pub update_interval_secs: Option<u64>,
    /// Per-download deadline of a remote source.
    pub timeout_ms: Option<u64>,
}

/// Statically configured preferred addresses (IPv4 and IPv6 as their values).
#[derive(Debug, Clone, Copy, PartialEq, Eq, Structural)]
pub struct PreferredConfig {
    pub ipv4: Option<u32>,
    pub ipv6: Option<u128>,
}

#[derive(Debug, Clone)]
pub struct OptimizerConfig {
    pub enabled: bool,
    pub interval_secs: u64,
    pub test_host: String,
    pub test_path: String,
    pub test_port: u16,
    pub timeout_ms: u64,
    pub concurrency: usize,
    pub samples_per_cidr: usize,
    pub probes_per_candidate: usize,
    pub compatibility_hosts: Vec<String>,
    /// Candidate IPs/CIDRs that must never be selected.
    pub excluded_candidates: Vec<String>,
    pub max_candidates: usize,
    pub candidates: Vec<String>,
}

#[derive(Debug, Clone)]
pub struct PluginConfig {
    pub tag: String,
    pub kind: PluginType,
    pub rewrite_ttl_secs: u32,
    pub preferred: PreferredConfig,
    pub optimizer: OptimizerConfig,
}

/// Keywords and rule-set tags that select a layer for a domain.
#[derive(Debug, Clone)]
pub struct KeywordMatch {
    pub mode: KeywordMatchMode,
    pub keywords: Vec<String>,
    /// sing-box SRS rule-set tags; a matching rule set and a matching keyword
    /// are alternatives.
    pub rule_sets: Vec<String>,
}

#[derive(Debug, Clone)]
pub struct LayerConfig {
    pub tag: String,
    pub kind: LayerType,
    pub fallback: Option<String>,
    pub matcher: KeywordMatch,
    /// UDP/TCP/DoT endpoint, or the fixed bootstrap address of a DoH URL.
    pub address: Option<SocketAddress>,
    pub timeout_ms: Option<u64>,
    /// Refresh interval of a dynamically discovered local resolver layer.
    pub refresh_secs: Option<u64>,
    /// The DoH URL; its hostname gives TLS SNI and Host.
    pub url: Option<String>,
    /// The DoT server name for certificate verification.
    pub server_name: Option<String>,
    /// The plugin of an interceptor layer.
    pub plugin: Option<String>,
}

#[derive(Debug, Clone)]
pub struct FileConfig {
    pub listener: ListenerConfig,
    pub cloudflare: CloudflareConfig,
    pub request_timeout_ms: u64,
    pub entry: String,
    pub plugins: Vec<PluginConfig>,
    pub rule_sets: Vec<RuleSetConfig>,
    pub layers: Vec<LayerConfig>,
}


/// Answers whether a loaded rule set, by tag, matches a normalized domain.
/// Layer selection asks it for the rule-set tags that a layer names.
pub trait RuleSetMatcher {
    spec fn spec_matches(&self, tag: Seq<char>, domain: Seq<char>) -> bool;

    fn matches(&self, tag: &str, domain: &str) -> (r: bool)
        ensures
            r == self.spec_matches(tag@, domain@),
    ;
}

/// No rule set matches anything.
pub struct NoRuleSets;

impl RuleSetMatcher for NoRuleSets {
    open spec fn spec_matches(&self, tag: Seq<char>, domain: Seq<char>) -> bool {
        false
    }

    fn matches(&self, tag: &str, domain: &str) -> (r: bool) {
        false
    }
}

/// The domain as matching sees it: trailing dots removed, ASCII lower case.
pub open spec fn spec_normalize_domain(domain: Seq<char>) -> Seq<char> {
    spec_lower(spec_trim_end_char(domain, '.'))
}

pub fn normalize_domain(domain: &str) -> (r: Vec<char>)
    ensures
        r@ == spec_normalize_domain(domain@),
{
    let chars = chars_of(domain);
    let stripped = trim_end_char(chars.as_slice(), '.');
    lower(stripped.as_slice())
}

impl KeywordMatch {
    /// One keyword matches the normalized domain: in label mode a dot-separated
    /// label equals the trimmed keyword ignoring ASCII case, in contains mode
    /// the lower-cased trimmed keyword occurs in the domain.
    pub open spec fn spec_keyword_hit(self, domain: Seq<char>, k: int) -> bool {
        let keyword = spec_lower(spec_trim(self.keywords@[k]@));
        match self.mode {
            KeywordMatchMode::Label => spec_has_piece(domain, '.', keyword),
            KeywordMatchMode::Contains => spec_contains(domain, keyword),
        }
    }

    /// The matcher selects the domain: a keyword matches the normalized domain,
    /// or a named rule set matches it.
    pub open spec fn spec_matches_with<M: RuleSetMatcher>(
        self,
        domain: Seq<char>,
        rule_sets: M,
    ) -> bool {
        let normalized = spec_normalize_domain(domain);
        ||| exists|k: int| 0 <= k < self.keywords@.len() && self.spec_keyword_hit(normalized, k)
        ||| exists|r: int|
            0 <= r < self.rule_sets@.len() && rule_sets.spec_matches(
                self.rule_sets@[r]@,
                normalized,
            )
    }

    fn keyword_hit(&self, domain: &Vec<char>, k: usize) -> (r: bool)
        requires
            k < self.keywords@.len(),
        ensures
            r == self.spec_keyword_hit(domain@, k as int),
    {
        let trimmed = trim_str(self.keywords[k].as_str());
        let keyword = lower(trimmed.as_slice());
        match self.mode {
            KeywordMatchMode::Label => has_piece(domain.as_slice(), '.', keyword.as_slice()),
            KeywordMatchMode::Contains => contains(domain.as_slice(), keyword.as_slice()),
        }
    }

    /// Keyword matching alone, with no rule set loaded.
    pub fn matches(&self, domain: &str) -> (r: bool)
        ensures
            r == self.spec_matches_with(domain@, NoRuleSets),
    {
        self.matches_with_rule_sets(domain, &NoRuleSets)
    }

    pub fn matches_with_rule_sets<M: RuleSetMatcher>(&self, domain: &str, rule_sets: &M) -> (r:
        bool)
        ensures
            r == self.spec_matches_with(domain@, *rule_sets),
    {
        let normalized = normalize_domain(domain);
        let mut k: usize = 0;
        while k < self.keywords.len()
            invariant
                k <= self.keywords@.len(),
                normalized@ == spec_normalize_domain(domain@),
                forall|m: int| 0 <= m < k ==> !self.spec_keyword_hit(normalized@, m),
            decreases self.keywords@.len() - k,
        {
            if self.keyword_hit(&normalized, k) {
                return true;
            }
            k += 1;
        }
        let text = string_from_chars(&normalized);
        let mut r: usize = 0;
        while r < self.rule_sets.len()
            invariant
                r <= self.rule_sets@.len(),
                text@ == spec_normalize_domain(domain@),
                forall|m: int| 0 <= m < self.keywords@.len() ==> !self.spec_keyword_hit(text@, m),
                forall|m: int|
                    0 <= m < r ==> !rule_sets.spec_matches(self.rule_sets@[m]@, text@),
            decreases self.rule_sets@.len() - r,
        {
            if rule_sets.matches(self.rule_sets[r].as_str(), text.as_str()) {
                return true;
            }
            r += 1;
        }
        false
    }
}

/// The index of the first element of `tags` equal to `tag`, from `from` on.
pub open spec fn spec_first_index(tags: Seq<Seq<char>>, tag: Seq<char>, from: int) -> Option<int>
    decreases tags.len() - from,
{
    if from < 0 || from >= tags.len() {
        None
    } else if tags[from] == tag {
        Some(from)
    } else {
        spec_first_index(tags, tag, from + 1)
    }
}

pub proof fn lemma_first_index(tags: Seq<Seq<char>>, tag: Seq<char>, from: int)
    requires
        0 <= from,
    ensures
        spec_first_index(tags, tag, from) matches Some(i) ==> from <= i < tags.len() && tags[i]
            == tag && forall|j: int| from <= j < i ==> tags[j] != tag,
        spec_first_index(tags, tag, from) is None ==> forall|j: int|
            from <= j < tags.len() ==> tags[j] != tag,
    decreases tags.len() - from,
{
    if from < tags.len() && tags[from] != tag {
        lemma_first_index(tags, tag, from + 1);
    }
}

impl FileConfig {
    pub open spec fn layer_tags(self) -> Seq<Seq<char>> {
        self.layers@.map_values(|l: LayerConfig| l.tag@)
    }

    pub open spec fn plugin_tags(self) -> Seq<Seq<char>> {
        self.plugins@.map_values(|p: PluginConfig| p.tag@)
    }

    pub open spec fn rule_set_tags(self) -> Seq<Seq<char>> {
        self.rule_sets@.map_values(|r: RuleSetConfig| r.tag@)
    }

    /// The first layer whose tag is `tag`.
    pub fn layer(&self, tag: &str) -> (r: Option<&LayerConfig>)
        ensures
            r matches Some(l) ==> (exists|i: int|
                spec_first_index(self.layer_tags(), tag@, 0) == Some(i) && *l == self.layers@[i]),
            r is None <==> spec_first_index(self.layer_tags(), tag@, 0) is None,
    {
        proof {
            lemma_first_index(self.layer_tags(), tag@, 0);
        }
        match self.layer_index(tag) {
            Some(i) => Some(&self.layers[i]),
            None => None,
        }
    }

    /// The index of the first layer whose tag is `tag`.
    pub fn layer_index(&self, tag: &str) -> (r: Option<usize>)
        ensures
            r matches Some(i) ==> spec_first_index(self.layer_tags(), tag@, 0) == Some(i as int),
            r is None ==> spec_first_index(self.layer_tags(), tag@, 0) is None,
    {
        let mut i: usize = 0;
        while i < self.layers.len()
            invariant
                i <= self.layers@.len(),
                spec_first_index(self.layer_tags(), tag@, 0) == spec_first_index(
                    self.layer_tags(),
                    tag@,
                    i as int,
                ),
            decreases self.layers@.len() - i,
        {
            if str_equal(self.layers[i].tag.as_str(), tag) {
                return Some(i);
            }
            i += 1;
        }
        None
    }

    /// The first plugin whose tag is `tag`.
    pub fn plugin(&self, tag: &str) -> (r: Option<&PluginConfig>)
        ensures
            r matches Some(p) ==> (exists|i: int|
                spec_first_index(self.plugin_tags(), tag@, 0) == Some(i) && *p == self.plugins@[i]),
            r is None <==> spec_first_index(self.plugin_tags(), tag@, 0) is None,
    {
        proof {
            lemma_first_index(self.plugin_tags(), tag@, 0);
        }
        match self.plugin_index(tag) {
            Some(i) => Some(&self.plugins[i]),
            None => None,
        }
    }

    /// The index of the first plugin whose tag is `tag`.
    pub fn plugin_index(&self, tag: &str) -> (r: Option<usize>)
        ensures
            r matches Some(i) ==> spec_first_index(self.plugin_tags(), tag@, 0) == Some(i as int),
            r is None ==> spec_first_index(self.plugin_tags(), tag@, 0) is None,
    {
        let mut i: usize = 0;
        while i < self.plugins.len()
            invariant
                i <= self.plugins@.len(),
                spec_first_index(self.plugin_tags(), tag@, 0) == spec_first_index(
                    self.plugin_tags(),
                    tag@,
                    i as int,
                ),
            decreases self.plugins@.len() - i,
        {
            if str_equal(self.plugins[i].tag.as_str(), tag) {
                return Some(i);
            }
            i += 1;
        }
        None
    }

    /// The first rule set whose tag is `tag`.
    pub fn rule_set(&self, tag: &str) -> (r: Option<&RuleSetConfig>)
        ensures
            r matches Some(s) ==> (exists|i: int|
                spec_first_index(self.rule_set_tags(), tag@, 0) == Some(i) && *s
                    == self.rule_sets@[i]),
            r is None <==> spec_first_index(self.rule_set_tags(), tag@, 0) is None,
    {
        let mut i: usize = 0;
        while i < self.rule_sets.len()
            invariant
                i <= self.rule_sets@.len(),
                spec_first_index(self.rule_set_tags(), tag@, 0) == spec_first_index(
                    self.rule_set_tags(),
                    tag@,
                    i as int,
                ),
            decreases self.rule_sets@.len() - i,
        {
            if str_equal(self.rule_sets[i].tag.as_str(), tag) {
                return Some(&self.rule_sets[i]);
            }
            i += 1;
        }
        None
    }

    /// The first layer, from `from` on, whose matcher selects the domain.
    pub open spec fn spec_first_matching_layer<M: RuleSetMatcher>(
        self,
        domain: Seq<char>,
        rule_sets: M,
        from: int,
    ) -> Option<int>
        decreases self.layers@.len() - from,
    {
        if from < 0 || from >= self.layers@.len() {
            None
        } else if self.layers@[from].matcher.spec_matches_with(domain, rule_sets) {
            Some(from)
        } else {
            self.spec_first_matching_layer(domain, rule_sets, from + 1)
        }
    }

    /// Routing picks the first declared layer whose matcher selects the
    /// domain: no earlier layer matches it and that layer does; where no
    /// layer matches, the entry layer.
    pub proof fn law_first_declared_matching_layer_is_selected<M: RuleSetMatcher>(
        self,
        domain: Seq<char>,
        rule_sets: M,
    )
        ensures
            forall|i: int|
                0 <= i < self.layers@.len() && (#[trigger] self.layers@[i]).matcher.spec_matches_with(
                    domain,
                    rule_sets,
                ) && (forall|j: int|
                    0 <= j < i ==> !(#[trigger] self.layers@[j]).matcher.spec_matches_with(
                        domain,
                        rule_sets,
                    )) ==> self.spec_select_layer(Some(domain), rule_sets) == self.layers@[i].tag@,
            (forall|i: int|
                0 <= i < self.layers@.len() ==> !(#[trigger] self.layers@[i]).matcher.spec_matches_with(
                    domain,
                    rule_sets,
                )) ==> self.spec_select_layer(Some(domain), rule_sets) == self.entry@,
    {
        assert forall|i: int|
            0 <= i < self.layers@.len() && (#[trigger] self.layers@[i]).matcher.spec_matches_with(
                domain,
                rule_sets,
            ) && (forall|j: int|
                0 <= j < i ==> !(#[trigger] self.layers@[j]).matcher.spec_matches_with(
                    domain,
                    rule_sets,
                )) implies self.spec_select_layer(Some(domain), rule_sets) == self.layers@[i].tag@ by {
            self.lemma_first_match_from(domain, rule_sets, 0, i);
        }
        if forall|i: int|
            0 <= i < self.layers@.len() ==> !(#[trigger] self.layers@[i]).matcher.spec_matches_with(
                domain,
                rule_sets,
            ) {
            self.lemma_no_match_from(domain, rule_sets, 0);
        }
    }

    proof fn lemma_first_match_from<M: RuleSetMatcher>(
        self,
        domain: Seq<char>,
        rule_sets: M,
        from: int,
        i: int,
    )
        requires
            0 <= from <= i < self.layers@.len(),
            self.layers@[i].matcher.spec_matches_with(domain, rule_sets),
            forall|j: int|
                from <= j < i ==> !(#[trigger] self.layers@[j]).matcher.spec_matches_with(
                    domain,
                    rule_sets,
                ),
        ensures
            self.spec_first_matching_layer(domain, rule_sets, from) == Some(i),
        decreases i - from,
    {
        if from < i {
            assert(!self.layers@[from].matcher.spec_matches_with(domain, rule_sets));
            self.lemma_first_match_from(domain, rule_sets, from + 1, i);
        }
    }

    proof fn lemma_no_match_from<M: RuleSetMatcher>(self, domain: Seq<char>, rule_sets: M, from: int)
        requires
            0 <= from,
            forall|j: int|
                0 <= j < self.layers@.len() ==> !(#[trigger] self.layers@[j]).matcher.spec_matches_with(
                    domain,
                    rule_sets,
                ),
        ensures
            self.spec_first_matching_layer(domain, rule_sets, from) is None,
        decreases self.layers@.len() - from,
    {
        if from < self.layers@.len() {
            assert(!self.layers@[from].matcher.spec_matches_with(domain, rule_sets));
            self.lemma_no_match_from(domain, rule_sets, from + 1);
        }
    }

    /// The layer a request starts at: for a single-question request the first
    /// declared layer whose matcher selects its domain, otherwise (or when none
    /// matches) the entry layer.
    pub open spec fn spec_select_layer<M: RuleSetMatcher>(
        self,
        domain: Option<Seq<char>>,
        rule_sets: M,
    ) -> Seq<char> {
        match domain {
            None => self.entry@,
            Some(d) => match self.spec_first_matching_layer(d, rule_sets, 0) {
                Some(i) => self.layers@[i].tag@,
                None => self.entry@,
            },
        }
    }

    /// Layer selection by keywords alone.
    pub fn select_layer(&self, domain: Option<&str>) -> (r: &str)
        ensures
            r@ == self.spec_select_layer(opt_str_view(domain), NoRuleSets),
    {
        self.select_layer_with_rule_sets(domain, &NoRuleSets)
    }

    /// Layer selection by keywords and loaded rule sets.
    pub fn select_layer_with_rule_sets<M: RuleSetMatcher>(
        &self,
        domain: Option<&str>,
        rule_sets: &M,
    ) -> (r: &str)
        ensures
            r@ == self.spec_select_layer(opt_str_view(domain), *rule_sets),
            domain is None ==> r@ == self.entry@,
            domain matches Some(d) ==> forall|i: int|
                0 <= i < self.layers@.len() && (#[trigger] self.layers@[i]).matcher.spec_matches_with(
                    d@,
                    *rule_sets,
                ) && (forall|j: int|
                    0 <= j < i ==> !(#[trigger] self.layers@[j]).matcher.spec_matches_with(
                        d@,
                        *rule_sets,
                    )) ==> r@ == self.layers@[i].tag@,
            domain matches Some(d) ==> ((forall|i: int|
                0 <= i < self.layers@.len() ==> !(#[trigger] self.layers@[i]).matcher.spec_matches_with(
                    d@,
                    *rule_sets,
                )) ==> r@ == self.entry@),
    {
        proof {
            if let Some(d) = domain {
                self.law_first_declared_matching_layer_is_selected(d@, *rule_sets);
            }
        }
        match domain {
            None => self.entry.as_str(),
            Some(d) => {
                assert(opt_str_view(domain) == Some(d@));
                let mut i: usize = 0;
                while i < self.layers.len()
                    invariant
                        i <= self.layers@.len(),
                        opt_str_view(domain) == Some(d@),
                        self.spec_first_matching_layer(d@, *rule_sets, 0)
                            == self.spec_first_matching_layer(d@, *rule_sets, i as int),
                    decreases self.layers@.len() - i,
                {
                    if self.layers[i].matcher.matches_with_rule_sets(d, rule_sets) {
                        assert(self.spec_first_matching_layer(d@, *rule_sets, i as int) == Some(
                            i as int,
                        ));
                        proof {
                            self.law_first_declared_matching_layer_is_selected(d@, *rule_sets);
                        }
                        return self.layers[i].tag.as_str();
                    }
                    i += 1;
                }
                self.entry.as_str()
            },
        }
    }

    /// The indices of the Cloudflare-preferred plugins, in declaration order.
    pub fn cloudflare_preferred_plugins(&self) -> (r: Vec<usize>)
        ensures
            r@.len() == self.plugins@.len(),
            forall|i: int| 0 <= i < r@.len() ==> r@[i] == i,
    {
        let mut r: Vec<usize> = Vec::new();
        let mut i: usize = 0;
        while i < self.plugins.len()
            invariant
                i <= self.plugins@.len(),
                r@.len() == i,
                forall|k: int| 0 <= k < i ==> r@[k] == k,
            decreases self.plugins@.len() - i,
        {
            match self.plugins[i].kind {
                PluginType::CloudflarePreferred => r.push(i),
            }
            i += 1;
        }
        r
    }
}

/// Two optional strings are equal.
pub fn opt_string_equal(a: &Option<String>, b: &Option<String>) -> (r: bool)
    ensures
        r == (opt_view(*a) == opt_view(*b)),
{
    match (a, b) {
        (Some(x), Some(y)) => str_equal(x.as_str(), y.as_str()),
        (None, None) => true,
        _ => false,
    }
}

impl RuleSetConfig {
    /// The same source: every field equal.
    pub open spec fn spec_same(self, other: RuleSetConfig) -> bool {
        &&& self.tag@ == other.tag@
        &&& self.kind == other.kind
        &&& opt_view(self.path) == opt_view(other.path)
        &&& opt_view(self.url) == opt_view(other.url)
        &&& self.update_interval_secs == other.update_interval_secs
        &&& self.timeout_ms == other.timeout_ms
    }

    /// A copy of the source.
    pub fn duplicate(&self) -> (r: RuleSetConfig)
        ensures
            r == *self,
    {
        RuleSetConfig {
            tag: self.tag.clone(),
            kind: self.kind,
            path: match &self.path {
                Some(p) => Some(p.clone()),
                None => None,
            },
            url: match &self.url {
                Some(u) => Some(u.clone()),
                None => None,
            },
            update_interval_secs: self.update_interval_secs,
            timeout_ms: self.timeout_ms,
        }
    }

    pub fn same_source(&self, other: &RuleSetConfig) -> (r: bool)
        ensures
            r == self.spec_same(*other),
    {
        str_equal(self.tag.as_str(), other.tag.as_str()) && self.kind == other.kind
            && opt_string_equal(&self.path, &other.path) && opt_string_equal(&self.url, &other.url)
            && self.update_interval_secs == other.update_interval_secs && self.timeout_ms
            == other.timeout_ms
    }
}

impl RuleSetConfig {
    /// The refresh period: the configured one, else 60 seconds for a local
    /// source and 24 hours for a remote one.
    pub open spec fn spec_update_interval_secs(self) -> u64 {
        match self.update_interval_secs {
            Some(v) => v,
            None => match self.kind {
                RuleSetType::Local => 60,
                RuleSetType::Remote => 86_400,
            },
        }
    }

    pub fn update_interval_secs(&self) -> (r: u64)
        ensures
            r == self.spec_update_interval_secs(),
    {
        match self.update_interval_secs {
            Some(v) => v,
            None => match self.kind {
                RuleSetType::Local => 60,
                RuleSetType::Remote => 86_400,
            },
        }
    }

    /// The download deadline: the configured one, else 10 seconds.
    pub open spec fn spec_timeout_ms(self) -> u64 {
        match self.timeout_ms {
            Some(v) => v,
            None => DEFAULT_RULE_SET_TIMEOUT_MS,
        }
    }

    pub fn timeout_ms(&self) -> (r: u64)
        ensures
            r == self.spec_timeout_ms(),
    {
        match self.timeout_ms {
            Some(v) => v,
            None => DEFAULT_RULE_SET_TIMEOUT_MS,
        }
    }

    /// The path of a local source (which validation requires).
    pub fn local_path(&self) -> (r: &str)
        requires
            self.path is Some,
        ensures
            r@ == self.path->0@,
    {
        match &self.path {
            Some(p) => p.as_str(),
            None => "",
        }
    }
}

impl LayerConfig {
    /// The fixed address of a network layer (which validation requires).
    pub fn address(&self) -> (r: SocketAddress)
        requires
            self.address is Some,
        ensures
            r == self.address->0,
    {
        match self.address {
            Some(a) => a,
            None => SocketAddress { ip: IpAddress::V4(0), port: 0 },
        }
    }

    /// The configured timeout, else 3 seconds.
    pub open spec fn spec_timeout_ms(self) -> u64 {
        match self.timeout_ms {
            Some(v) => v,
            None => DEFAULT_LAYER_TIMEOUT_MS,
        }
    }

    pub fn timeout_ms(&self) -> (r: u64)
        ensures
            r == self.spec_timeout_ms(),
    {
        match self.timeout_ms {
            Some(v) => v,
            None => DEFAULT_LAYER_TIMEOUT_MS,
        }
    }

    /// The configured refresh interval, else 30 seconds.
    pub open spec fn spec_refresh_secs(self) -> u64 {
        match self.refresh_secs {
            Some(v) => v,
            None => DEFAULT_LOCAL_REFRESH_SECS,
        }
    }

    pub fn refresh_secs(&self) -> (r: u64)
        ensures
            r == self.spec_refresh_secs(),
    {
        match self.refresh_secs {
            Some(v) => v,
            None => DEFAULT_LOCAL_REFRESH_SECS,
        }
    }
}

impl Default for OptimizerConfig {
    /// Disabled; probes `www.cloudflare.com/cdn-cgi/trace` on port 443 every
    /// six hours, with no candidates.
    fn default() -> (r: OptimizerConfig)
        ensures
            !r.enabled,
            r.interval_secs == 6 * 60 * 60,
            r.test_host@ == "www.cloudflare.com"@,
            r.test_path@ == "/cdn-cgi/trace"@,
            r.test_port == 443,
            r.timeout_ms == 3_000,
            r.concurrency == 32,
            r.samples_per_cidr == 1,
            r.probes_per_candidate == 3,
            r.compatibility_hosts@.len() == 0,
            r.excluded_candidates@.len() == 0,
            r.max_candidates == 128,
            r.candidates@.len() == 0,
    {
        OptimizerConfig {
            enabled: false,
            interval_secs: 6 * 60 * 60,
            test_host: String::from_str("www.cloudflare.com"),
            test_path: String::from_str("/cdn-cgi/trace"),
            test_port: 443,
            timeout_ms: 3_000,
            concurrency: 32,
            samples_per_cidr: 1,
            probes_per_candidate: 3,
            compatibility_hosts: Vec::new(),
            excluded_candidates: Vec::new(),
            max_candidates: 128,
            candidates: Vec::new(),
        }
    }
}

impl OptimizerConfig {
    /// A compatibility host makes rewriting opt-in: an address must be
    /// proven compatible before it is handed out.
    pub open spec fn spec_requires_compatibility_gate(self) -> bool {
        self.enabled && self.compatibility_hosts@.len() > 0
    }

    pub fn requires_compatibility_gate(&self) -> (r: bool)
        ensures
            r == self.spec_requires_compatibility_gate(),
    {
        self.enabled && !self.compatibility_hosts.is_empty()
    }
}


/// The parts of a parsed URL that validation reads.
#[derive(Debug, Clone)]
pub struct UrlParts {
    pub scheme: String,
    pub host: Option<String>,
    pub username: String,
    pub password: Option<String>,
    pub fragment: Option<String>,
    pub port_or_known_default: Option<u16>,
}

/// What `url::Url::parse` (through `reqwest::Url`) gives for a string, as its parts.
pub uninterp spec fn spec_parse_url(raw: Seq<char>) -> Option<UrlParts>;

/// Parses a URL with `reqwest::Url::parse` (the `url` crate) and reads its
/// scheme, host, credentials, fragment and port. The contract names the
/// result and claims nothing else of the URL grammar.
#[verifier::external_body]
pub fn parse_url(raw: &str) -> (r: Option<UrlParts>)
    ensures
        r == spec_parse_url(raw@),
{
    match reqwest::Url::parse(raw) {
        Ok(url) => Some(
            UrlParts {
                scheme: url.scheme().to_owned(),
                host: url.host_str().map(|h| h.to_owned()),
                username: url.username().to_owned(),
                password: url.password().map(|p| p.to_owned()),
                fragment: url.fragment().map(|f| f.to_owned()),
                port_or_known_default: url.port_or_known_default(),
            },
        ),
        Err(_) => None,
    }
}

/// Whether `rustls::pki_types::ServerName::try_from(String)` accepts a name.
pub uninterp spec fn spec_server_name_valid(name: Seq<char>) -> bool;

/// Checks a TLS server name with `rustls::pki_types::ServerName::try_from`
/// (a DNS name or an IP address). The contract names the answer and claims
/// nothing else of the accepted grammar.
#[verifier::external_body]
pub fn server_name_valid(name: &str) -> (r: bool)
    ensures
        r == spec_server_name_valid(name@),
{
    rustls::pki_types::ServerName::try_from(name.to_owned()).is_ok()
}

/// Why a DoH or rule-set URL is rejected.
#[derive(Debug, Clone, Copy, PartialEq, Eq, Structural)]
pub enum UrlError {
    MissingUrl,
    InvalidUrl,
    NotHttps,
    MissingHost,
    Credentials,
    Fragment,
}

pub open spec fn spec_https() -> Seq<char> {
    seq!['h', 't', 't', 'p', 's']
}

/// The first problem of an HTTPS source URL: missing, unparsable, not https,
/// without a host, with credentials, or with a fragment.
pub open spec fn spec_endpoint_error(url: Option<Seq<char>>) -> Option<UrlError> {
    match url {
        None => Some(UrlError::MissingUrl),
        Some(raw) => match spec_parse_url(raw) {
            None => Some(UrlError::InvalidUrl),
            Some(parts) => if parts.scheme@ != spec_https() {
                Some(UrlError::NotHttps)
            } else if parts.host is None {
                Some(UrlError::MissingHost)
            } else if parts.username@.len() != 0 || parts.password is Some {
                Some(UrlError::Credentials)
            } else if parts.fragment is Some {
                Some(UrlError::Fragment)
            } else {
                None
            },
        },
    }
}

/// Parses and checks an HTTPS source URL.
pub fn https_endpoint(url: &Option<String>) -> (r: Result<UrlParts, UrlError>)
    ensures
        match r {
            Ok(parts) => spec_endpoint_error(opt_view(*url)) is None && spec_parse_url(
                url->0@,
            ) == Some(parts),
            Err(e) => spec_endpoint_error(opt_view(*url)) == Some(e),
        },
{
    let raw = match url {
        Some(raw) => raw,
        None => return Err(UrlError::MissingUrl),
    };
    let parts = match parse_url(raw.as_str()) {
        Some(parts) => parts,
        None => return Err(UrlError::InvalidUrl),
    };
    let scheme = chars_of(parts.scheme.as_str());
    let https = vec!['h', 't', 't', 'p', 's'];
    if !chars_equal(scheme.as_slice(), https.as_slice()) {
        return Err(UrlError::NotHttps);
    }
    if parts.host.is_none() {
        return Err(UrlError::MissingHost);
    }
    if parts.username.unicode_len() != 0 || parts.password.is_some() {
        return Err(UrlError::Credentials);
    }
    if parts.fragment.is_some() {
        return Err(UrlError::Fragment);
    }
    Ok(parts)
}

#[derive(Debug, Clone, Copy, PartialEq, Eq, Structural)]
pub enum OptimizerError {
    NoCandidates,
    NoCompatibilityHosts,
    ZeroIntervalOrTimeout,
    ZeroLimit,
    InvalidTestTarget,
    InvalidCompatibilityHost { index: usize },
    NonCanonicalCompatibilityHost { index: usize },
    InvalidCompatibilityHostName { index: usize },
    DuplicateCompatibilityHost { index: usize },
    InvalidCandidate { index: usize },
    InvalidExcludedCandidate { index: usize },
}

/// A compatibility host without surrounding whitespace and trailing dots.
pub open spec fn spec_normalize_host(host: Seq<char>) -> Seq<char> {
    spec_trim_end_char(spec_trim(host), '.')
}

/// A candidate is an IP address or a CIDR network.
pub open spec fn spec_candidate_valid(candidate: Seq<char>) -> bool {
    spec_parse_ip_address(candidate) is Some || spec_parse_network(candidate) is Some
}

/// A candidate as a network: an address stands for the network of that
/// address alone.
pub open spec fn spec_candidate_network(candidate: Seq<char>) -> Option<Network> {
    match spec_parse_ip_address(candidate) {
        Some(a) => Some(spec_host_network(a)),
        None => spec_parse_network(candidate),
    }
}

pub fn candidate_valid(candidate: &str) -> (r: bool)
    ensures
        r == spec_candidate_valid(candidate@),
{
    parse_ip_address(candidate).is_some() || parse_network(candidate).is_some()
}

impl OptimizerConfig {
    /// The first problem of compatibility host `i` or a later one.
    pub open spec fn spec_host_error(self, i: int) -> Option<OptimizerError>
        decreases self.compatibility_hosts@.len() - i,
    {
        if i < 0 || i >= self.compatibility_hosts@.len() {
            None
        } else {
            let host = self.compatibility_hosts@[i]@;
            let normalized = spec_normalize_host(host);
            if normalized.len() == 0 || spec_parse_ip_address(normalized) is Some {
                Some(OptimizerError::InvalidCompatibilityHost { index: i as usize })
            } else if host != normalized {
                Some(OptimizerError::NonCanonicalCompatibilityHost { index: i as usize })
            } else if !spec_server_name_valid(normalized) {
                Some(OptimizerError::InvalidCompatibilityHostName { index: i as usize })
            } else if exists|j: int|
                0 <= j < i && spec_lower(spec_normalize_host(self.compatibility_hosts@[j]@))
                    == spec_lower(normalized) {
                Some(OptimizerError::DuplicateCompatibilityHost { index: i as usize })
            } else {
                self.spec_host_error(i + 1)
            }
        }
    }

    /// The first candidate, from `i` on, that is neither an address nor a network.
    pub open spec fn spec_candidate_error(self, i: int) -> Option<OptimizerError>
        decreases self.candidates@.len() - i,
    {
        if i < 0 || i >= self.candidates@.len() {
            None
        } else if !spec_candidate_valid(self.candidates@[i]@) {
            Some(OptimizerError::InvalidCandidate { index: i as usize })
        } else {
            self.spec_candidate_error(i + 1)
        }
    }

    /// The first excluded candidate, from `i` on, that is neither an address nor a network.
    pub open spec fn spec_excluded_error(self, i: int) -> Option<OptimizerError>
        decreases self.excluded_candidates@.len() - i,
    {
        if i < 0 || i >= self.excluded_candidates@.len() {
            None
        } else if !spec_candidate_valid(self.excluded_candidates@[i]@) {
            Some(OptimizerError::InvalidExcludedCandidate { index: i as usize })
        } else {
            self.spec_excluded_error(i + 1)
        }
    }

    /// The excluded candidates as networks, where each is an address or a network.
    pub open spec fn spec_excluded_networks(self) -> Seq<Network> {
        Seq::new(
            self.excluded_candidates@.len(),
            |i: int| spec_candidate_network(self.excluded_candidates@[i]@).unwrap(),
        )
    }

    /// The excluded candidates as networks; the first one that is neither an
    /// address nor a network is an error.
    pub fn excluded_networks(&self) -> (r: Result<Vec<Network>, OptimizerError>)
        ensures
            r matches Ok(v) ==> v@ == self.spec_excluded_networks() && spec_ranges_wf(v@),
            r is Ok <==> self.spec_excluded_error(0) is None,
            r matches Err(e) ==> self.spec_excluded_error(0) == Some(e),
    {
        let mut networks: Vec<Network> = Vec::new();
        let mut i: usize = 0;
        while i < self.excluded_candidates.len()
            invariant
                i <= self.excluded_candidates@.len(),
                networks@.len() == i,
                self.spec_excluded_error(0) == self.spec_excluded_error(i as int),
                forall|k: int|
                    0 <= k < i ==> spec_candidate_network(self.excluded_candidates@[k]@) is Some
                        && networks@[k] == spec_candidate_network(
                        self.excluded_candidates@[k]@,
                    ).unwrap() && networks@[k].wf(),
            decreases self.excluded_candidates@.len() - i,
        {
            let candidate = self.excluded_candidates[i].as_str();
            assert(candidate@ == self.excluded_candidates@[i as int]@);
            let ghost before = networks@;
            match parse_ip_address(candidate) {
                Some(address) => networks.push(host_network(address)),
                None => match parse_network(candidate) {
                    Some(network) => networks.push(network),
                    None => {
                        return Err(OptimizerError::InvalidExcludedCandidate { index: i });
                    },
                },
            }
            assert forall|k: int| 0 <= k < i + 1 implies spec_candidate_network(
                self.excluded_candidates@[k]@,
            ) is Some by {
                if k < i {
                    assert(before[k] == networks@[k]);
                }
            }
            assert forall|k: int| 0 <= k < i + 1 implies networks@[k] == spec_candidate_network(
                self.excluded_candidates@[k]@,
            ).unwrap() by {
                if k < i {
                    assert(before[k] == networks@[k]);
                }
            }
            i += 1;
        }
        assert(networks@ =~= self.spec_excluded_networks());
        Ok(networks)
    }

    /// The first problem of an enabled optimizer; a disabled one is never checked.
    pub open spec fn spec_error(self) -> Option<OptimizerError> {
        if !self.enabled {
            None
        } else if self.candidates@.len() == 0 {
            Some(OptimizerError::NoCandidates)
        } else if self.compatibility_hosts@.len() == 0 {
            Some(OptimizerError::NoCompatibilityHosts)
        } else if self.interval_secs == 0 || self.timeout_ms == 0 {
            Some(OptimizerError::ZeroIntervalOrTimeout)
        } else if self.concurrency == 0 || self.samples_per_cidr == 0 || self.probes_per_candidate
            == 0 || self.max_candidates == 0 {
            Some(OptimizerError::ZeroLimit)
        } else if spec_blank(self.test_host@) || !spec_starts_with(self.test_path@, seq!['/'])
            || self.test_port == 0 {
            Some(OptimizerError::InvalidTestTarget)
        } else {
            self.spec_list_error()
        }
    }

    /// The first problem of the host, candidate and excluded lists, in that order.
    pub open spec fn spec_list_error(self) -> Option<OptimizerError> {
        if self.spec_host_error(0) is Some {
            self.spec_host_error(0)
        } else if self.spec_candidate_error(0) is Some {
            self.spec_candidate_error(0)
        } else {
            self.spec_excluded_error(0)
        }
    }

    pub fn validate(&self) -> (r: Result<(), OptimizerError>)
        ensures
            r matches Err(e) ==> self.spec_error() == Some(e),
            r is Ok ==> self.spec_error() is None,
    {
        if !self.enabled {
            return Ok(());
        }
        if self.candidates.is_empty() {
            return Err(OptimizerError::NoCandidates);
        }
        if self.compatibility_hosts.is_empty() {
            return Err(OptimizerError::NoCompatibilityHosts);
        }
        if self.interval_secs == 0 || self.timeout_ms == 0 {
            return Err(OptimizerError::ZeroIntervalOrTimeout);
        }
        if self.concurrency == 0 || self.samples_per_cidr == 0 || self.probes_per_candidate == 0
            || self.max_candidates == 0 {
            return Err(OptimizerError::ZeroLimit);
        }
        let path = chars_of(self.test_path.as_str());
        let slash = vec!['/'];
        assert(slash@ == seq!['/']);
        let blank = is_blank(self.test_host.as_str());
        let rooted = starts_with(path.as_slice(), slash.as_slice());
        if blank || !rooted || self.test_port == 0 {
            return Err(OptimizerError::InvalidTestTarget);
        }
        assert(self.spec_error() == self.spec_list_error());
        let mut seen: Vec<Vec<char>> = Vec::new();
        let mut i: usize = 0;
        while i < self.compatibility_hosts.len()
            invariant
                i <= self.compatibility_hosts@.len(),
                seen@.len() == i,
                forall|j: int|
                    0 <= j < i ==> seen@[j]@ == spec_lower(
                        spec_normalize_host(self.compatibility_hosts@[j]@),
                    ),
                self.spec_host_error(0) == self.spec_host_error(i as int),
                self.spec_error() == self.spec_list_error(),
            decreases self.compatibility_hosts@.len() - i,
        {
            let host = chars_of(self.compatibility_hosts[i].as_str());
            let trimmed = trim(host.as_slice());
            let normalized = trim_end_char(trimmed.as_slice(), '.');
            let normalized_text = string_from_chars(&normalized);
            if normalized.len() == 0 || parse_ip_address(normalized_text.as_str()).is_some() {
                return Err(OptimizerError::InvalidCompatibilityHost { index: i });
            }
            if !chars_equal(host.as_slice(), normalized.as_slice()) {
                return Err(OptimizerError::NonCanonicalCompatibilityHost { index: i });
            }
            if !server_name_valid(normalized_text.as_str()) {
                return Err(OptimizerError::InvalidCompatibilityHostName { index: i });
            }
            let lowered = lower(normalized.as_slice());
            let mut j: usize = 0;
            #[verifier::loop_isolation(false)]
            while j < seen.len()
                invariant
                    j <= seen@.len(),
                    seen@.len() == i,
                    i < self.compatibility_hosts@.len(),
                    lowered@ == spec_lower(spec_normalize_host(self.compatibility_hosts@[i as int]@)),
                    self.spec_host_error(0) == self.spec_host_error(i as int),
                    self.spec_error() == self.spec_list_error(),
                    forall|k: int|
                        0 <= k < i ==> seen@[k]@ == spec_lower(
                            spec_normalize_host(self.compatibility_hosts@[k]@),
                        ),
                    forall|k: int| 0 <= k < j ==> seen@[k]@ != lowered@,
                decreases seen@.len() - j,
            {
                if chars_equal(seen[j].as_slice(), lowered.as_slice()) {
                    assert(spec_lower(spec_normalize_host(self.compatibility_hosts@[j as int]@))
                        == spec_lower(spec_normalize_host(self.compatibility_hosts@[i as int]@)));
                    return Err(OptimizerError::DuplicateCompatibilityHost { index: i });
                }
                j += 1;
            }
            assert(!exists|k: int|
                0 <= k < i && spec_lower(spec_normalize_host(self.compatibility_hosts@[k]@))
                    == spec_lower(spec_normalize_host(self.compatibility_hosts@[i as int]@))) by {
                assert forall|k: int| 0 <= k < i implies spec_lower(
                    spec_normalize_host(self.compatibility_hosts@[k]@),
                ) != spec_lower(spec_normalize_host(self.compatibility_hosts@[i as int]@)) by {
                    assert(seen@[k]@ != lowered@);
                }
            }
            seen.push(lowered);
            i += 1;
        }
        let mut i: usize = 0;
        while i < self.candidates.len()
            invariant
                i <= self.candidates@.len(),
                self.spec_candidate_error(0) == self.spec_candidate_error(i as int),
                self.spec_error() == self.spec_list_error(),
                self.spec_host_error(0) is None,
            decreases self.candidates@.len() - i,
        {
            if !candidate_valid(self.candidates[i].as_str()) {
                return Err(OptimizerError::InvalidCandidate { index: i });
            }
            i += 1;
        }
        let mut i: usize = 0;
        while i < self.excluded_candidates.len()
            invariant
                i <= self.excluded_candidates@.len(),
                self.spec_excluded_error(0) == self.spec_excluded_error(i as int),
                self.spec_error() == self.spec_list_error(),
                self.spec_host_error(0) is None,
                self.spec_candidate_error(0) is None,
            decreases self.excluded_candidates@.len() - i,
        {
            if !candidate_valid(self.excluded_candidates[i].as_str()) {
                return Err(OptimizerError::InvalidExcludedCandidate { index: i });
            }
            i += 1;
        }
        Ok(())
    }
}


#[derive(Debug, Clone, Copy, PartialEq, Eq, Structural)]
pub enum PluginError {
    ZeroRewriteTtl,
    Optimizer(OptimizerError),
}

/// The characters of each string of a list.
pub open spec fn spec_strings_view(v: Seq<String>) -> Seq<Seq<char>> {
    v.map_values(|x: String| x@)
}

/// Two lists of strings are equal.
pub fn strings_equal(a: &Vec<String>, b: &Vec<String>) -> (r: bool)
    ensures
        r == (spec_strings_view(a@) == spec_strings_view(b@)),
{
    if a.len() != b.len() {
        assert(spec_strings_view(a@).len() != spec_strings_view(b@).len());
        return false;
    }
    let mut i: usize = 0;
    while i < a.len()
        invariant
            i <= a@.len() == b@.len(),
            forall|k: int| 0 <= k < i ==> #[trigger] a@[k]@ == b@[k]@,
        decreases a@.len() - i,
    {
        if !str_equal(a[i].as_str(), b[i].as_str()) {
            assert(spec_strings_view(a@)[i as int] != spec_strings_view(b@)[i as int]);
            return false;
        }
        i += 1;
    }
    assert(spec_strings_view(a@) =~= spec_strings_view(b@));
    true
}

impl KeywordMatch {
    /// The same matcher: every field equal.
    pub open spec fn spec_same(self, other: KeywordMatch) -> bool {
        &&& self.mode == other.mode
        &&& spec_strings_view(self.keywords@) == spec_strings_view(other.keywords@)
        &&& spec_strings_view(self.rule_sets@) == spec_strings_view(other.rule_sets@)
    }

    pub fn same(&self, other: &KeywordMatch) -> (r: bool)
        ensures
            r == self.spec_same(*other),
    {
        self.mode == other.mode && strings_equal(&self.keywords, &other.keywords) && strings_equal(
            &self.rule_sets,
            &other.rule_sets,
        )
    }
}

impl LayerConfig {
    /// The same layer: every field equal.
    pub open spec fn spec_same(self, other: LayerConfig) -> bool {
        &&& self.tag@ == other.tag@
        &&& self.kind == other.kind
        &&& opt_view(self.fallback) == opt_view(other.fallback)
        &&& self.matcher.spec_same(other.matcher)
        &&& self.address == other.address
        &&& self.timeout_ms == other.timeout_ms
        &&& self.refresh_secs == other.refresh_secs
        &&& opt_view(self.url) == opt_view(other.url)
        &&& opt_view(self.server_name) == opt_view(other.server_name)
        &&& opt_view(self.plugin) == opt_view(other.plugin)
    }

    pub fn same(&self, other: &LayerConfig) -> (r: bool)
        ensures
            r == self.spec_same(*other),
    {
        str_equal(self.tag.as_str(), other.tag.as_str()) && self.kind == other.kind
            && opt_string_equal(&self.fallback, &other.fallback) && self.matcher.same(&other.matcher)
            && self.address == other.address && self.timeout_ms == other.timeout_ms
            && self.refresh_secs == other.refresh_secs && opt_string_equal(&self.url, &other.url)
            && opt_string_equal(&self.server_name, &other.server_name) && opt_string_equal(
            &self.plugin,
            &other.plugin,
        )
    }
}

/// Two layer lists are the same, layer by layer.
pub open spec fn spec_same_layers(a: Seq<LayerConfig>, b: Seq<LayerConfig>) -> bool {
    a.len() == b.len() && forall|i: int| 0 <= i < a.len() ==> (#[trigger] a[i]).spec_same(b[i])
}

pub fn same_layers(a: &Vec<LayerConfig>, b: &Vec<LayerConfig>) -> (r: bool)
    ensures
        r == spec_same_layers(a@, b@),
{
    if a.len() != b.len() {
        return false;
    }
    let mut i: usize = 0;
    while i < a.len()
        invariant
            i <= a@.len() == b@.len(),
            forall|k: int| 0 <= k < i ==> (#[trigger] a@[k]).spec_same(b@[k]),
        decreases a@.len() - i,
    {
        if !a[i].same(&b[i]) {
            return false;
        }
        i += 1;
    }
    true
}

impl OptimizerConfig {
    /// The same settings: every field equal.
    pub open spec fn spec_same(self, other: OptimizerConfig) -> bool {
        &&& self.enabled == other.enabled
        &&& self.interval_secs == other.interval_secs
        &&& self.test_host@ == other.test_host@
        &&& self.test_path@ == other.test_path@
        &&& self.test_port == other.test_port
        &&& self.timeout_ms == other.timeout_ms
        &&& self.concurrency == other.concurrency
        &&& self.samples_per_cidr == other.samples_per_cidr
        &&& self.probes_per_candidate == other.probes_per_candidate
        &&& spec_strings_view(self.compatibility_hosts@) == spec_strings_view(
            other.compatibility_hosts@,
        )
        &&& spec_strings_view(self.excluded_candidates@) == spec_strings_view(
            other.excluded_candidates@,
        )
        &&& self.max_candidates == other.max_candidates
        &&& spec_strings_view(self.candidates@) == spec_strings_view(other.candidates@)
    }

    pub fn same(&self, other: &OptimizerConfig) -> (r: bool)
        ensures
            r == self.spec_same(*other),
    {
        self.enabled == other.enabled && self.interval_secs == other.interval_secs && str_equal(
            self.test_host.as_str(),
            other.test_host.as_str(),
        ) && str_equal(self.test_path.as_str(), other.test_path.as_str()) && self.test_port
            == other.test_port && self.timeout_ms == other.timeout_ms && self.concurrency
            == other.concurrency && self.samples_per_cidr == other.samples_per_cidr
            && self.probes_per_candidate == other.probes_per_candidate && strings_equal(
            &self.compatibility_hosts,
            &other.compatibility_hosts,
        ) && strings_equal(&self.excluded_candidates, &other.excluded_candidates)
            && self.max_candidates == other.max_candidates && strings_equal(
            &self.candidates,
            &other.candidates,
        )
    }
}

impl PluginConfig {
    /// The same plugin settings: every field equal.
    pub open spec fn spec_same(self, other: PluginConfig) -> bool {
        &&& self.tag@ == other.tag@
        &&& self.kind == other.kind
        &&& self.rewrite_ttl_secs == other.rewrite_ttl_secs
        &&& self.preferred == other.preferred
        &&& self.optimizer.spec_same(other.optimizer)
    }

    pub fn same(&self, other: &PluginConfig) -> (r: bool)
        ensures
            r == self.spec_same(*other),
    {
        str_equal(self.tag.as_str(), other.tag.as_str()) && self.kind == other.kind
            && self.rewrite_ttl_secs == other.rewrite_ttl_secs && self.preferred == other.preferred
            && self.optimizer.same(&other.optimizer)
    }
}

impl PluginConfig {
    /// A zero rewrite TTL, else the optimizer's first problem.
    pub open spec fn spec_error(self) -> Option<PluginError> {
        if self.rewrite_ttl_secs == 0 {
            Some(PluginError::ZeroRewriteTtl)
        } else {
            match self.optimizer.spec_error() {
                Some(e) => Some(PluginError::Optimizer(e)),
                None => None,
            }
        }
    }

    pub fn validate(&self) -> (r: Result<(), PluginError>)
        ensures
            r matches Err(e) ==> self.spec_error() == Some(e),
            r is Ok ==> self.spec_error() is None,
    {
        if self.rewrite_ttl_secs == 0 {
            return Err(PluginError::ZeroRewriteTtl);
        }
        match self.optimizer.validate() {
            Ok(()) => Ok(()),
            Err(e) => Err(PluginError::Optimizer(e)),
        }
    }
}

#[derive(Debug, Clone, Copy, PartialEq, Eq, Structural)]
pub enum RuleSetError {
    ZeroUpdateInterval,
    LocalUnexpectedField,
    MissingPath,
    RemoteUnexpectedField,
    Url(UrlError),
    ZeroTimeout,
}

impl RuleSetConfig {
    /// The first problem of a rule-set source.
    pub open spec fn spec_error(self) -> Option<RuleSetError> {
        if self.update_interval_secs == Some(0u64) {
            Some(RuleSetError::ZeroUpdateInterval)
        } else {
            match self.kind {
                RuleSetType::Local => if self.url is Some || self.timeout_ms is Some {
                    Some(RuleSetError::LocalUnexpectedField)
                } else if self.path is None || self.path->0@.len() == 0 {
                    Some(RuleSetError::MissingPath)
                } else {
                    None
                },
                RuleSetType::Remote => if self.path is Some {
                    Some(RuleSetError::RemoteUnexpectedField)
                } else if spec_endpoint_error(opt_view(self.url)) is Some {
                    Some(RuleSetError::Url(spec_endpoint_error(opt_view(self.url))->0))
                } else if self.spec_timeout_ms() == 0 {
                    Some(RuleSetError::ZeroTimeout)
                } else {
                    None
                },
            }
        }
    }

    pub fn validate(&self) -> (r: Result<(), RuleSetError>)
        ensures
            r matches Err(e) ==> self.spec_error() == Some(e),
            r is Ok ==> self.spec_error() is None,
    {
        if self.update_interval_secs == Some(0u64) {
            return Err(RuleSetError::ZeroUpdateInterval);
        }
        match self.kind {
            RuleSetType::Local => {
                if self.url.is_some() || self.timeout_ms.is_some() {
                    return Err(RuleSetError::LocalUnexpectedField);
                }
                match &self.path {
                    None => return Err(RuleSetError::MissingPath),
                    Some(p) => {
                        if p.unicode_len() == 0 {
                            return Err(RuleSetError::MissingPath);
                        }
                    },
                }
            },
            RuleSetType::Remote => {
                if self.path.is_some() {
                    return Err(RuleSetError::RemoteUnexpectedField);
                }
                if let Err(e) = self.endpoint() {
                    return Err(RuleSetError::Url(e));
                }
                if self.timeout_ms() == 0 {
                    return Err(RuleSetError::ZeroTimeout);
                }
            },
        }
        Ok(())
    }

    /// The checked HTTPS URL of a remote source.
    pub fn endpoint(&self) -> (r: Result<UrlParts, UrlError>)
        ensures
            match r {
                Ok(parts) => spec_endpoint_error(opt_view(self.url)) is None && spec_parse_url(
                    self.url->0@,
                ) == Some(parts),
                Err(e) => spec_endpoint_error(opt_view(self.url)) == Some(e),
            },
    {
        https_endpoint(&self.url)
    }
}

#[derive(Debug, Clone, Copy, PartialEq, Eq, Structural)]
pub enum MatchError {
    EmptyKeyword,
    LabelKeywordDot,
    EmptyRuleSetReference,
    UnknownRuleSet { index: usize },
    DuplicateRuleSetReference { index: usize },
}

/// The tags of a list of rule sets.
pub open spec fn spec_rule_set_tags(rule_sets: Seq<RuleSetConfig>) -> Seq<Seq<char>> {
    rule_sets.map_values(|r: RuleSetConfig| r.tag@)
}

/// The tags of a list of plugins.
pub open spec fn spec_plugin_tags(plugins: Seq<PluginConfig>) -> Seq<Seq<char>> {
    plugins.map_values(|p: PluginConfig| p.tag@)
}

/// Some rule set of the list has the tag.
pub fn rule_set_tag_present(rule_sets: &Vec<RuleSetConfig>, tag: &str) -> (r: bool)
    ensures
        r == spec_rule_set_tags(rule_sets@).contains(tag@),
{
    let mut i: usize = 0;
    while i < rule_sets.len()
        invariant
            i <= rule_sets@.len(),
            forall|k: int| 0 <= k < i ==> rule_sets@[k].tag@ != tag@,
        decreases rule_sets@.len() - i,
    {
        if str_equal(rule_sets[i].tag.as_str(), tag) {
            assert(spec_rule_set_tags(rule_sets@)[i as int] == tag@);
            return true;
        }
        i += 1;
    }
    assert(!spec_rule_set_tags(rule_sets@).contains(tag@)) by {
        assert forall|k: int| 0 <= k < rule_sets@.len() implies spec_rule_set_tags(
            rule_sets@,
        )[k] != tag@ by {}
    }
    false
}

/// Some plugin of the list has the tag.
pub fn plugin_tag_present(plugins: &Vec<PluginConfig>, tag: &str) -> (r: bool)
    ensures
        r == spec_plugin_tags(plugins@).contains(tag@),
{
    let mut i: usize = 0;
    while i < plugins.len()
        invariant
            i <= plugins@.len(),
            forall|k: int| 0 <= k < i ==> plugins@[k].tag@ != tag@,
        decreases plugins@.len() - i,
    {
        if str_equal(plugins[i].tag.as_str(), tag) {
            assert(spec_plugin_tags(plugins@)[i as int] == tag@);
            return true;
        }
        i += 1;
    }
    assert(!spec_plugin_tags(plugins@).contains(tag@)) by {
        assert forall|k: int| 0 <= k < plugins@.len() implies spec_plugin_tags(plugins@)[k]
            != tag@ by {}
    }
    false
}

impl KeywordMatch {
    /// The first rule-set reference, from `i` on, that names no rule set or
    /// repeats an earlier one.
    pub open spec fn spec_reference_error(self, rule_set_tags: Seq<Seq<char>>, i: int) -> Option<
        MatchError,
    >
        decreases self.rule_sets@.len() - i,
    {
        if i < 0 || i >= self.rule_sets@.len() {
            None
        } else if !rule_set_tags.contains(self.rule_sets@[i]@) {
            Some(MatchError::UnknownRuleSet { index: i as usize })
        } else if exists|j: int| 0 <= j < i && self.rule_sets@[j]@ == self.rule_sets@[i]@ {
            Some(MatchError::DuplicateRuleSetReference { index: i as usize })
        } else {
            self.spec_reference_error(rule_set_tags, i + 1)
        }
    }

    /// The first problem of a matcher: a blank keyword, a dot in a label
    /// keyword, a blank rule-set reference, an unknown or repeated reference.
    pub open spec fn spec_error(self, rule_set_tags: Seq<Seq<char>>) -> Option<MatchError> {
        if exists|k: int| 0 <= k < self.keywords@.len() && spec_blank(self.keywords@[k]@) {
            Some(MatchError::EmptyKeyword)
        } else if self.mode == KeywordMatchMode::Label && exists|k: int|
            0 <= k < self.keywords@.len() && self.keywords@[k]@.contains('.') {
            Some(MatchError::LabelKeywordDot)
        } else if exists|k: int| 0 <= k < self.rule_sets@.len() && spec_blank(self.rule_sets@[k]@) {
            Some(MatchError::EmptyRuleSetReference)
        } else {
            self.spec_reference_error(rule_set_tags, 0)
        }
    }

    #[verifier::loop_isolation(false)]
    pub fn validate(&self, rule_sets: &Vec<RuleSetConfig>) -> (r: Result<(), MatchError>)
        ensures
            r matches Err(e) ==> self.spec_error(spec_rule_set_tags(rule_sets@)) == Some(e),
            r is Ok ==> self.spec_error(spec_rule_set_tags(rule_sets@)) is None,
    {
        let mut k: usize = 0;
        while k < self.keywords.len()
            invariant
                k <= self.keywords@.len(),
                forall|m: int| 0 <= m < k ==> !spec_blank(self.keywords@[m]@),
            decreases self.keywords@.len() - k,
        {
            if is_blank(self.keywords[k].as_str()) {
                return Err(MatchError::EmptyKeyword);
            }
            k += 1;
        }
        if self.mode == KeywordMatchMode::Label {
            let mut k: usize = 0;
            while k < self.keywords.len()
                invariant
                    k <= self.keywords@.len(),
                    forall|m: int| 0 <= m < k ==> !self.keywords@[m]@.contains('.'),
                decreases self.keywords@.len() - k,
            {
                let chars = chars_of(self.keywords[k].as_str());
                if crate::text::has_char(chars.as_slice(), '.') {
                    assert(self.keywords@[k as int]@.contains('.'));
                    return Err(MatchError::LabelKeywordDot);
                }
                k += 1;
            }
        }
        let mut k: usize = 0;
        while k < self.rule_sets.len()
            invariant
                k <= self.rule_sets@.len(),
                forall|m: int| 0 <= m < k ==> !spec_blank(self.rule_sets@[m]@),
            decreases self.rule_sets@.len() - k,
        {
            if is_blank(self.rule_sets[k].as_str()) {
                assert(spec_blank(self.rule_sets@[k as int]@));
                return Err(MatchError::EmptyRuleSetReference);
            }
            k += 1;
        }
        let ghost tags = spec_rule_set_tags(rule_sets@);
        assert(self.spec_error(tags) == self.spec_reference_error(tags, 0));
        let mut i: usize = 0;
        while i < self.rule_sets.len()
            invariant
                i <= self.rule_sets@.len(),
                tags == spec_rule_set_tags(rule_sets@),
                self.spec_error(tags) == self.spec_reference_error(tags, 0),
                self.spec_reference_error(tags, 0) == self.spec_reference_error(tags, i as int),
            decreases self.rule_sets@.len() - i,
        {
            if !rule_set_tag_present(rule_sets, self.rule_sets[i].as_str()) {
                return Err(MatchError::UnknownRuleSet { index: i });
            }
            let mut j: usize = 0;
            while j < i
                invariant
                    j <= i < self.rule_sets@.len(),
                    forall|m: int| 0 <= m < j ==> self.rule_sets@[m]@ != self.rule_sets@[i as int]@,
                decreases i - j,
            {
                if str_equal(self.rule_sets[j].as_str(), self.rule_sets[i].as_str()) {
                    assert(self.spec_reference_error(tags, i as int) == Some(
                        MatchError::DuplicateRuleSetReference { index: i },
                    ));
                    return Err(MatchError::DuplicateRuleSetReference { index: i });
                }
                j += 1;
            }
            i += 1;
        }
        Ok(())
    }
}

#[derive(Debug, Clone, Copy, PartialEq, Eq, Structural)]
pub enum LayerError {
    Match(MatchError),
    MissingAddress,
    OverlapsListener,
    ZeroPort,
    ZeroTimeout,
    UnexpectedField,
    MissingServerName,
    InvalidServerName,
    Url(UrlError),
    NoUrlPort,
    PortMismatch,
    MissingFallback,
    MissingPlugin,
    UnknownPlugin,
    ZeroRefresh,
}

impl LayerConfig {
    /// The first problem of a fixed network endpoint: none, one that overlaps
    /// the listener (a forwarding loop), port zero, or a zero timeout.
    pub open spec fn spec_network_error(self, listener: SocketAddress) -> Option<LayerError> {
        match self.address {
            None => Some(LayerError::MissingAddress),
            Some(address) => if spec_socket_addresses_overlap(listener, address) {
                Some(LayerError::OverlapsListener)
            } else if address.port == 0 {
                Some(LayerError::ZeroPort)
            } else if self.spec_timeout_ms() == 0 {
                Some(LayerError::ZeroTimeout)
            } else {
                None
            },
        }
    }

    /// The first problem of a layer of its kind, after its matcher's.
    pub open spec fn spec_kind_error(
        self,
        listener: SocketAddress,
        plugin_tags: Seq<Seq<char>>,
    ) -> Option<LayerError> {
        match self.kind {
            LayerType::Udp | LayerType::Tcp => if self.spec_network_error(listener) is Some {
                self.spec_network_error(listener)
            } else if self.refresh_secs is Some || self.url is Some || self.server_name is Some
                || self.plugin is Some {
                Some(LayerError::UnexpectedField)
            } else {
                None
            },
            LayerType::Dot => if self.spec_network_error(listener) is Some {
                self.spec_network_error(listener)
            } else if self.refresh_secs is Some || self.url is Some || self.plugin is Some {
                Some(LayerError::UnexpectedField)
            } else if self.server_name is None {
                Some(LayerError::MissingServerName)
            } else if !spec_server_name_valid(self.server_name->0@) {
                Some(LayerError::InvalidServerName)
            } else {
                None
            },
            LayerType::Doh => if self.spec_network_error(listener) is Some {
                self.spec_network_error(listener)
            } else if self.refresh_secs is Some || self.server_name is Some || self.plugin is Some {
                Some(LayerError::UnexpectedField)
            } else if spec_endpoint_error(opt_view(self.url)) is Some {
                Some(LayerError::Url(spec_endpoint_error(opt_view(self.url))->0))
            } else if spec_parse_url(self.url->0@)->0.port_or_known_default is None {
                Some(LayerError::NoUrlPort)
            } else if spec_parse_url(self.url->0@)->0.port_or_known_default->0
                != self.address->0.port {
                Some(LayerError::PortMismatch)
            } else {
                None
            },
            LayerType::Interceptor => if self.fallback is None || self.fallback->0@.len() == 0 {
                Some(LayerError::MissingFallback)
            } else if self.plugin is None {
                Some(LayerError::MissingPlugin)
            } else if !plugin_tags.contains(self.plugin->0@) {
                Some(LayerError::UnknownPlugin)
            } else if self.address is Some || self.timeout_ms is Some || self.refresh_secs is Some
                || self.url is Some || self.server_name is Some {
                Some(LayerError::UnexpectedField)
            } else {
                None
            },
            LayerType::Local => if self.address is Some || self.url is Some
                || self.server_name is Some || self.plugin is Some {
                Some(LayerError::UnexpectedField)
            } else if self.spec_timeout_ms() == 0 {
                Some(LayerError::ZeroTimeout)
            } else if self.spec_refresh_secs() == 0 {
                Some(LayerError::ZeroRefresh)
            } else {
                None
            },
        }
    }

    /// The first problem of a layer: its matcher's, then its kind's.
    pub open spec fn spec_error(
        self,
        listener: SocketAddress,
        plugin_tags: Seq<Seq<char>>,
        rule_set_tags: Seq<Seq<char>>,
    ) -> Option<LayerError> {
        match self.matcher.spec_error(rule_set_tags) {
            Some(e) => Some(LayerError::Match(e)),
            None => self.spec_kind_error(listener, plugin_tags),
        }
    }

    fn validate_network(&self, listener: SocketAddress) -> (r: Result<(), LayerError>)
        ensures
            r matches Err(e) ==> self.spec_network_error(listener) == Some(e),
            r is Ok ==> self.spec_network_error(listener) is None,
    {
        let address = match self.address {
            Some(a) => a,
            None => return Err(LayerError::MissingAddress),
        };
        if socket_addresses_overlap(listener, address) {
            return Err(LayerError::OverlapsListener);
        }
        if address.port == 0 {
            return Err(LayerError::ZeroPort);
        }
        if self.timeout_ms() == 0 {
            return Err(LayerError::ZeroTimeout);
        }
        Ok(())
    }

    /// The checked HTTPS URL of a DoH layer.
    pub fn doh_endpoint(&self) -> (r: Result<UrlParts, UrlError>)
        ensures
            match r {
                Ok(parts) => spec_endpoint_error(opt_view(self.url)) is None && spec_parse_url(
                    self.url->0@,
                ) == Some(parts),
                Err(e) => spec_endpoint_error(opt_view(self.url)) == Some(e),
            },
    {
        https_endpoint(&self.url)
    }

    pub fn validate(
        &self,
        listener: SocketAddress,
        plugins: &Vec<PluginConfig>,
        rule_sets: &Vec<RuleSetConfig>,
    ) -> (r: Result<(), LayerError>)
        ensures
            r matches Err(e) ==> self.spec_error(
                listener,
                spec_plugin_tags(plugins@),
                spec_rule_set_tags(rule_sets@),
            ) == Some(e),
            r is Ok ==> self.spec_error(
                listener,
                spec_plugin_tags(plugins@),
                spec_rule_set_tags(rule_sets@),
            ) is None,
    {
        if let Err(e) = self.matcher.validate(rule_sets) {
            return Err(LayerError::Match(e));
        }
        match self.kind {
            LayerType::Udp | LayerType::Tcp => {
                self.validate_network(listener)?;
                if self.refresh_secs.is_some() || self.url.is_some() || self.server_name.is_some()
                    || self.plugin.is_some() {
                    return Err(LayerError::UnexpectedField);
                }
            },
            LayerType::Dot => {
                self.validate_network(listener)?;
                if self.refresh_secs.is_some() || self.url.is_some() || self.plugin.is_some() {
                    return Err(LayerError::UnexpectedField);
                }
                match &self.server_name {
                    None => return Err(LayerError::MissingServerName),
                    Some(name) => {
                        if !server_name_valid(name.as_str()) {
                            return Err(LayerError::InvalidServerName);
                        }
                    },
                }
            },
            LayerType::Doh => {
                self.validate_network(listener)?;
                if self.refresh_secs.is_some() || self.server_name.is_some()
                    || self.plugin.is_some() {
                    return Err(LayerError::UnexpectedField);
                }
                let parts = match self.doh_endpoint() {
                    Ok(parts) => parts,
                    Err(e) => return Err(LayerError::Url(e)),
                };
                let port = match parts.port_or_known_default {
                    Some(port) => port,
                    None => return Err(LayerError::NoUrlPort),
                };
                if port != self.address().port {
                    return Err(LayerError::PortMismatch);
                }
            },
            LayerType::Interceptor => {
                match &self.fallback {
                    None => return Err(LayerError::MissingFallback),
                    Some(f) => {
                        if f.unicode_len() == 0 {
                            return Err(LayerError::MissingFallback);
                        }
                    },
                }
                let plugin = match &self.plugin {
                    Some(p) => p,
                    None => return Err(LayerError::MissingPlugin),
                };
                if !plugin_tag_present(plugins, plugin.as_str()) {
                    return Err(LayerError::UnknownPlugin);
                }
                if self.address.is_some() || self.timeout_ms.is_some()
                    || self.refresh_secs.is_some() || self.url.is_some()
                    || self.server_name.is_some() {
                    return Err(LayerError::UnexpectedField);
                }
            },
            LayerType::Local => {
                if self.address.is_some() || self.url.is_some() || self.server_name.is_some()
                    || self.plugin.is_some() {
                    return Err(LayerError::UnexpectedField);
                }
                if self.timeout_ms() == 0 {
                    return Err(LayerError::ZeroTimeout);
                }
                if self.refresh_secs() == 0 {
                    return Err(LayerError::ZeroRefresh);
                }
            },
        }
        Ok(())
    }
}


/// Why a configuration is rejected; indices name the offending list entry.
#[derive(Debug, Clone, Copy, PartialEq, Eq, Structural)]
pub enum ConfigError {
    NoLayers,
    EmptyEntry,
    ListenerNotLoopback,
    ZeroRangeRefresh,
    ZeroRequestTimeout,
    EmptyPluginTag { index: usize },
    DuplicatePluginTag { index: usize },
    Plugin { index: usize, error: PluginError },
    EmptyRuleSetTag { index: usize },
    DuplicateRuleSetTag { index: usize },
    RuleSet { index: usize, error: RuleSetError },
    EmptyLayerTag { index: usize },
    DuplicateLayerTag { index: usize },
    Layer { index: usize, error: LayerError },
    UnknownEntry,
    UnknownFallback { index: usize },
    /// The fallback chain that starts at this layer never ends.
    FallbackCycle { index: usize },
}

impl FileConfig {
    /// The first problem of plugin `i` or a later one: a blank tag, a tag
    /// already used, or the plugin's own problem.
    pub open spec fn spec_plugin_error(self, i: int) -> Option<ConfigError>
        decreases self.plugins@.len() - i,
    {
        if i < 0 || i >= self.plugins@.len() {
            None
        } else if spec_blank(self.plugins@[i].tag@) {
            Some(ConfigError::EmptyPluginTag { index: i as usize })
        } else if exists|j: int| 0 <= j < i && self.plugins@[j].tag@ == self.plugins@[i].tag@ {
            Some(ConfigError::DuplicatePluginTag { index: i as usize })
        } else if self.plugins@[i].spec_error() is Some {
            Some(ConfigError::Plugin { index: i as usize, error: self.plugins@[i].spec_error()->0 })
        } else {
            self.spec_plugin_error(i + 1)
        }
    }

    /// The first problem of rule set `i` or a later one.
    pub open spec fn spec_rule_set_error(self, i: int) -> Option<ConfigError>
        decreases self.rule_sets@.len() - i,
    {
        if i < 0 || i >= self.rule_sets@.len() {
            None
        } else if spec_blank(self.rule_sets@[i].tag@) {
            Some(ConfigError::EmptyRuleSetTag { index: i as usize })
        } else if exists|j: int|
            0 <= j < i && self.rule_sets@[j].tag@ == self.rule_sets@[i].tag@ {
            Some(ConfigError::DuplicateRuleSetTag { index: i as usize })
        } else if self.rule_sets@[i].spec_error() is Some {
            Some(
                ConfigError::RuleSet {
                    index: i as usize,
                    error: self.rule_sets@[i].spec_error()->0,
                },
            )
        } else {
            self.spec_rule_set_error(i + 1)
        }
    }

    /// The first problem of layer `i` or a later one.
    pub open spec fn spec_layer_error(self, i: int) -> Option<ConfigError>
        decreases self.layers@.len() - i,
    {
        if i < 0 || i >= self.layers@.len() {
            None
        } else if spec_blank(self.layers@[i].tag@) {
            Some(ConfigError::EmptyLayerTag { index: i as usize })
        } else if exists|j: int| 0 <= j < i && self.layers@[j].tag@ == self.layers@[i].tag@ {
            Some(ConfigError::DuplicateLayerTag { index: i as usize })
        } else if self.layers@[i].spec_error(
            self.listener.address,
            self.plugin_tags(),
            self.rule_set_tags(),
        ) is Some {
            Some(
                ConfigError::Layer {
                    index: i as usize,
                    error: self.layers@[i].spec_error(
                        self.listener.address,
                        self.plugin_tags(),
                        self.rule_set_tags(),
                    )->0,
                },
            )
        } else {
            self.spec_layer_error(i + 1)
        }
    }

    /// The first layer, from `i` on, whose fallback names no layer.
    pub open spec fn spec_fallback_error(self, i: int) -> Option<ConfigError>
        decreases self.layers@.len() - i,
    {
        if i < 0 || i >= self.layers@.len() {
            None
        } else if self.layers@[i].fallback is Some && !self.layer_tags().contains(
            self.layers@[i].fallback->0@,
        ) {
            Some(ConfigError::UnknownFallback { index: i as usize })
        } else {
            self.spec_fallback_error(i + 1)
        }
    }

    /// The layer that layer `i` falls back to.
    pub open spec fn spec_fallback_target(self, i: int) -> Option<int> {
        if 0 <= i < self.layers@.len() {
            match self.layers@[i].fallback {
                None => None,
                Some(f) => spec_first_index(self.layer_tags(), f@, 0),
            }
        } else {
            None
        }
    }

    /// The layer reached from layer `i` after `steps` fallbacks, if the chain
    /// is that long.
    pub open spec fn spec_walk(self, i: int, steps: nat) -> Option<int>
        decreases steps,
    {
        if steps == 0 {
            Some(i)
        } else {
            match self.spec_walk(i, (steps - 1) as nat) {
                None => None,
                Some(j) => self.spec_fallback_target(j),
            }
        }
    }

    /// The fallback chain from layer `i` ends within as many steps as there are layers.
    pub open spec fn spec_chain_ends(self, i: int) -> bool {
        self.spec_walk(i, self.layers@.len()) is None
    }

    /// The first layer, from `i` on, whose fallback chain never ends.
    pub open spec fn spec_cycle_error(self, i: int) -> Option<ConfigError>
        decreases self.layers@.len() - i,
    {
        if i < 0 || i >= self.layers@.len() {
            None
        } else if !self.spec_chain_ends(i) {
            Some(ConfigError::FallbackCycle { index: i as usize })
        } else {
            self.spec_cycle_error(i + 1)
        }
    }

    /// The problems found after the top-level fields, in the order they are checked.
    pub open spec fn spec_lists_error(self) -> Option<ConfigError> {
        if self.spec_plugin_error(0) is Some {
            self.spec_plugin_error(0)
        } else if self.spec_rule_set_error(0) is Some {
            self.spec_rule_set_error(0)
        } else if self.spec_layer_error(0) is Some {
            self.spec_layer_error(0)
        } else if !self.layer_tags().contains(self.entry@) {
            Some(ConfigError::UnknownEntry)
        } else if self.spec_fallback_error(0) is Some {
            self.spec_fallback_error(0)
        } else {
            self.spec_cycle_error(0)
        }
    }

    /// The first problem of a configuration, in the order they are checked.
    pub open spec fn spec_error(self) -> Option<ConfigError> {
        if self.layers@.len() == 0 {
            Some(ConfigError::NoLayers)
        } else if spec_blank(self.entry@) {
            Some(ConfigError::EmptyEntry)
        } else if !self.listener.allow_remote && !self.listener.address.ip.spec_is_loopback() {
            Some(ConfigError::ListenerNotLoopback)
        } else if self.cloudflare.range_refresh_secs == 0 {
            Some(ConfigError::ZeroRangeRefresh)
        } else if self.request_timeout_ms == 0 {
            Some(ConfigError::ZeroRequestTimeout)
        } else {
            self.spec_lists_error()
        }
    }

    /// A configuration that the service accepts.
    pub open spec fn spec_valid(self) -> bool {
        self.spec_error() is None
    }

    /// The layer that layer `i` falls back to.
    pub fn fallback_target(&self, i: usize) -> (r: Option<usize>)
        requires
            i < self.layers@.len(),
        ensures
            r matches Some(j) ==> self.spec_fallback_target(i as int) == Some(j as int) && j
                < self.layers@.len(),
            r is None ==> self.spec_fallback_target(i as int) is None,
    {
        match &self.layers[i].fallback {
            None => None,
            Some(f) => {
                proof {
                    lemma_first_index(self.layer_tags(), f@, 0);
                }
                self.layer_index(f.as_str())
            },
        }
    }

    #[verifier::loop_isolation(false)]
    pub fn validate(&self) -> (r: Result<(), ConfigError>)
        ensures
            r matches Err(e) ==> self.spec_error() == Some(e),
            r is Ok <==> self.spec_valid(),
    {
        if self.layers.is_empty() {
            return Err(ConfigError::NoLayers);
        }
        if is_blank(self.entry.as_str()) {
            return Err(ConfigError::EmptyEntry);
        }
        if !self.listener.allow_remote && !self.listener.address.ip.is_loopback() {
            return Err(ConfigError::ListenerNotLoopback);
        }
        if self.cloudflare.range_refresh_secs == 0 {
            return Err(ConfigError::ZeroRangeRefresh);
        }
        if self.request_timeout_ms == 0 {
            return Err(ConfigError::ZeroRequestTimeout);
        }
        let mut i: usize = 0;
        while i < self.plugins.len()
            invariant
                i <= self.plugins@.len(),
                self.spec_plugin_error(0) == self.spec_plugin_error(i as int),
            decreases self.plugins@.len() - i,
        {
            if is_blank(self.plugins[i].tag.as_str()) {
                return Err(ConfigError::EmptyPluginTag { index: i });
            }
            let mut j: usize = 0;
            while j < i
                invariant
                    j <= i,
                    forall|m: int| 0 <= m < j ==> self.plugins@[m].tag@ != self.plugins@[i as int].tag@,
                decreases i - j,
            {
                if str_equal(self.plugins[j].tag.as_str(), self.plugins[i].tag.as_str()) {
                    return Err(ConfigError::DuplicatePluginTag { index: i });
                }
                j += 1;
            }
            if let Err(error) = self.plugins[i].validate() {
                return Err(ConfigError::Plugin { index: i, error });
            }
            i += 1;
        }
        let mut i: usize = 0;
        while i < self.rule_sets.len()
            invariant
                i <= self.rule_sets@.len(),
                self.spec_rule_set_error(0) == self.spec_rule_set_error(i as int),
            decreases self.rule_sets@.len() - i,
        {
            if is_blank(self.rule_sets[i].tag.as_str()) {
                return Err(ConfigError::EmptyRuleSetTag { index: i });
            }
            let mut j: usize = 0;
            while j < i
                invariant
                    j <= i,
                    forall|m: int|
                        0 <= m < j ==> self.rule_sets@[m].tag@ != self.rule_sets@[i as int].tag@,
                decreases i - j,
            {
                if str_equal(self.rule_sets[j].tag.as_str(), self.rule_sets[i].tag.as_str()) {
                    return Err(ConfigError::DuplicateRuleSetTag { index: i });
                }
                j += 1;
            }
            if let Err(error) = self.rule_sets[i].validate() {
                return Err(ConfigError::RuleSet { index: i, error });
            }
            i += 1;
        }
        let mut i: usize = 0;
        while i < self.layers.len()
            invariant
                i <= self.layers@.len(),
                self.spec_layer_error(0) == self.spec_layer_error(i as int),
            decreases self.layers@.len() - i,
        {
            if is_blank(self.layers[i].tag.as_str()) {
                return Err(ConfigError::EmptyLayerTag { index: i });
            }
            let mut j: usize = 0;
            while j < i
                invariant
                    j <= i,
                    forall|m: int| 0 <= m < j ==> self.layers@[m].tag@ != self.layers@[i as int].tag@,
                decreases i - j,
            {
                if str_equal(self.layers[j].tag.as_str(), self.layers[i].tag.as_str()) {
                    return Err(ConfigError::DuplicateLayerTag { index: i });
                }
                j += 1;
            }
            if let Err(error) = self.layers[i].validate(
                self.listener.address,
                &self.plugins,
                &self.rule_sets,
            ) {
                return Err(ConfigError::Layer { index: i, error });
            }
            i += 1;
        }
        proof {
            lemma_first_index(self.layer_tags(), self.entry@, 0);
        }
        if self.layer_index(self.entry.as_str()).is_none() {
            return Err(ConfigError::UnknownEntry);
        }
        let mut i: usize = 0;
        while i < self.layers.len()
            invariant
                i <= self.layers@.len(),
                self.spec_fallback_error(0) == self.spec_fallback_error(i as int),
            decreases self.layers@.len() - i,
        {
            if let Some(f) = &self.layers[i].fallback {
                proof {
                    lemma_first_index(self.layer_tags(), f@, 0);
                }
                if self.layer_index(f.as_str()).is_none() {
                    return Err(ConfigError::UnknownFallback { index: i });
                }
            }
            i += 1;
        }
        let n = self.layers.len();
        let mut start: usize = 0;
        while start < n
            invariant
                n == self.layers@.len(),
                start <= n,
                self.spec_cycle_error(0) == self.spec_cycle_error(start as int),
            decreases n - start,
        {
            let mut current: Option<usize> = Some(start);
            let mut steps: usize = 0;
            while steps < n
                invariant
                    n == self.layers@.len(),
                    start < n,
                    steps <= n,
                    match current {
                        Some(j) => self.spec_walk(start as int, steps as nat) == Some(j as int) && j
                            < n,
                        None => self.spec_walk(start as int, steps as nat) is None,
                    },
                decreases n - steps,
            {
                current = match current {
                    None => None,
                    Some(j) => self.fallback_target(j),
                };
                steps += 1;
            }
            if current.is_some() {
                return Err(ConfigError::FallbackCycle { index: start });
            }
            start += 1;
        }
        Ok(())
    }
}

} // verus!

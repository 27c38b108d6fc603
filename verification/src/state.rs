use vstd::prelude::*;

use crate::config::{lemma_first_index, spec_first_index, FileConfig, PluginConfig, PreferredConfig};
use crate::net::SocketAddress;
use crate::text::str_equal;

verus! {

/// The preferred addresses of a Cloudflare-preferred plugin (IPv4 and IPv6
/// as their values).
#[derive(Debug, Clone, Copy, PartialEq, Eq, Structural)]
pub struct PreferredIps {
    pub ipv4: Option<u32>,
    pub ipv6: Option<u128>,
}

impl PreferredIps {
    /// No preferred address.
    pub fn empty() -> (r: PreferredIps)
        ensures
            r.ipv4 is None && r.ipv6 is None,
    {
        PreferredIps { ipv4: None, ipv6: None }
    }

    /// The statically configured addresses.
    pub fn from_config(config: &PreferredConfig) -> (r: PreferredIps)
        ensures
            r.ipv4 == config.ipv4 && r.ipv6 == config.ipv6,
    {
        PreferredIps { ipv4: config.ipv4, ipv6: config.ipv6 }
    }

    pub fn is_empty(&self) -> (r: bool)
        ensures
            r == (self.ipv4 is None && self.ipv6 is None),
    {
        self.ipv4.is_none() && self.ipv6.is_none()
    }
}


/// The addresses a plugin starts with: none for a strict plugin (whose
/// optimizer must first prove an address compatible), else its static ones.
pub open spec fn spec_preferred_from_plugin(plugin: PluginConfig) -> PreferredIps {
    if plugin.optimizer.spec_requires_compatibility_gate() {
        PreferredIps { ipv4: None, ipv6: None }
    } else {
        PreferredIps { ipv4: plugin.preferred.ipv4, ipv6: plugin.preferred.ipv6 }
    }
}

pub fn preferred_from_plugin(plugin: &PluginConfig) -> (r: PreferredIps)
    ensures
        r == spec_preferred_from_plugin(*plugin),
{
    if plugin.optimizer.requires_compatibility_gate() {
        PreferredIps::empty()
    } else {
        PreferredIps::from_config(&plugin.preferred)
    }
}

/// The preferred addresses kept for one plugin tag.
pub struct PreferredEntry {
    pub tag: String,
    pub preferred: PreferredIps,
}

/// The first entry, from `from` on, for the tag.
pub open spec fn spec_find_preferred(entries: Seq<PreferredEntry>, tag: Seq<char>, from: int) -> Option<
    int,
>
    decreases entries.len() - from,
{
    if from < 0 || from >= entries.len() {
        None
    } else if entries[from].tag@ == tag {
        Some(from)
    } else {
        spec_find_preferred(entries, tag, from + 1)
    }
}

/// The preferred addresses per plugin tag.
pub open spec fn spec_preferred_map(entries: Seq<PreferredEntry>) -> Map<Seq<char>, PreferredIps> {
    Map::new(
        |t: Seq<char>| spec_find_preferred(entries, t, 0) is Some,
        |t: Seq<char>| entries[spec_find_preferred(entries, t, 0)->0].preferred,
    )
}

proof fn lemma_find_preferred(entries: Seq<PreferredEntry>, tag: Seq<char>, from: int)
    requires
        0 <= from,
    ensures
        spec_find_preferred(entries, tag, from) matches Some(i) ==> from <= i < entries.len()
            && entries[i].tag@ == tag && forall|k: int| from <= k < i ==> entries[k].tag@ != tag,
        spec_find_preferred(entries, tag, from) is None ==> forall|k: int|
            from <= k < entries.len() ==> entries[k].tag@ != tag,
    decreases entries.len() - from,
{
    if from < entries.len() && entries[from].tag@ != tag {
        lemma_find_preferred(entries, tag, from + 1);
    }
}

proof fn lemma_find_preferred_unique(entries: Seq<PreferredEntry>, tag: Seq<char>, i: int)
    requires
        0 <= i < entries.len(),
        entries[i].tag@ == tag,
        forall|k: int| 0 <= k < i ==> entries[k].tag@ != tag,
    ensures
        spec_find_preferred(entries, tag, 0) == Some(i),
{
    lemma_find_preferred(entries, tag, 0);
    match spec_find_preferred(entries, tag, 0) {
        Some(j) => {
            if j < i {
            } else if j > i {
            }
        },
        None => {},
    }
}

proof fn lemma_put_map(entries: Seq<PreferredEntry>, e: PreferredEntry)
    ensures
        spec_preferred_map(spec_put_preferred(entries, e)) =~= spec_preferred_map(entries).insert(
            e.tag@,
            e.preferred,
        ),
{
    let out = spec_put_preferred(entries, e);
    lemma_find_preferred(entries, e.tag@, 0);
    assert forall|t: Seq<char>| #![auto] spec_find_preferred(out, t, 0) is Some == (
    spec_find_preferred(entries, t, 0) is Some || t == e.tag@) by {
        lemma_find_preferred(entries, t, 0);
        lemma_find_preferred(out, t, 0);
        match spec_find_preferred(entries, t, 0) {
            Some(i) => {
                assert(out[i].tag@ == t);
                if spec_find_preferred(out, t, 0) is None {
                    assert(out[i].tag@ != t);
                }
            },
            None => {
                if t == e.tag@ {
                    let n = entries.len() as int;
                    assert(out[n].tag@ == t);
                }
            },
        }
    }
    assert forall|t: Seq<char>|
        #![auto]
        spec_find_preferred(out, t, 0) is Some implies out[spec_find_preferred(out, t, 0)->0].preferred
            == (if t == e.tag@ {
            e.preferred
        } else {
            entries[spec_find_preferred(entries, t, 0)->0].preferred
        }) by {
        lemma_find_preferred(entries, t, 0);
        lemma_find_preferred(out, t, 0);
        match spec_find_preferred(entries, t, 0) {
            Some(i) => {
                lemma_find_preferred_unique(out, t, i);
            },
            None => {
                let n = entries.len() as int;
                lemma_find_preferred_unique(out, t, n);
            },
        }
    }
}

/// The entries after keeping `e.preferred` for `e.tag`, in place of what was
/// kept for that tag before.
pub open spec fn spec_put_preferred(entries: Seq<PreferredEntry>, e: PreferredEntry) -> Seq<
    PreferredEntry,
> {
    match spec_find_preferred(entries, e.tag@, 0) {
        Some(i) => entries.update(i, PreferredEntry { tag: entries[i].tag, preferred: e.preferred }),
        None => entries.push(e),
    }
}

/// Keeps `preferred` for `tag`, in place of what was kept for it before.
fn put_preferred(entries: &mut Vec<PreferredEntry>, tag: String, preferred: PreferredIps)
    ensures
        final(entries)@ == spec_put_preferred(
            old(entries)@,
            PreferredEntry { tag, preferred },
        ),
{
    let ghost e = PreferredEntry { tag, preferred };
    let mut i: usize = 0;
    while i < entries.len()
        invariant
            i <= entries@.len(),
            entries@ == old(entries)@,
            e == (PreferredEntry { tag, preferred }),
            spec_find_preferred(entries@, tag@, 0) == spec_find_preferred(entries@, tag@, i as int),
        decreases entries@.len() - i,
    {
        if str_equal(entries[i].tag.as_str(), tag.as_str()) {
            let kept = entries[i].tag.clone();
            entries.set(i, PreferredEntry { tag: kept, preferred });
            return;
        }
        i += 1;
    }
    entries.push(PreferredEntry { tag, preferred });
}

/// The addresses kept for `tag`.
fn lookup_preferred(entries: &Vec<PreferredEntry>, tag: &str) -> (r: Option<PreferredIps>)
    ensures
        r == (if spec_preferred_map(entries@).contains_key(tag@) {
            Some(spec_preferred_map(entries@)[tag@])
        } else {
            None
        }),
{
    let mut i: usize = 0;
    while i < entries.len()
        invariant
            i <= entries@.len(),
            spec_find_preferred(entries@, tag@, 0) == spec_find_preferred(entries@, tag@, i as int),
        decreases entries@.len() - i,
    {
        if str_equal(entries[i].tag.as_str(), tag) {
            return Some(entries[i].preferred);
        }
        i += 1;
    }
    None
}

/// The preferred addresses of the plugins, in declaration order, later
/// declarations of a tag winning.
pub open spec fn spec_static_preferred(plugins: Seq<PluginConfig>) -> Map<Seq<char>, PreferredIps>
    decreases plugins.len(),
{
    if plugins.len() == 0 {
        Map::empty()
    } else {
        spec_static_preferred(plugins.drop_last()).insert(
            plugins.last().tag@,
            spec_preferred_from_plugin(plugins.last()),
        )
    }
}

/// A plugin is kept across a reload: the previous configuration's plugin of
/// that tag has the very same settings.
pub open spec fn spec_plugin_unchanged(previous: FileConfig, plugin: PluginConfig) -> bool {
    spec_first_index(previous.plugin_tags(), plugin.tag@, 0) matches Some(i)
        && previous.plugins@[i].spec_same(plugin)
}

/// The addresses a plugin has after a reload: an unchanged plugin keeps what
/// it had (or starts afresh if it had nothing); a new or changed one starts
/// afresh.
pub open spec fn spec_reloaded_preferred(
    plugin: PluginConfig,
    previous_config: FileConfig,
    previous: Map<Seq<char>, PreferredIps>,
) -> PreferredIps {
    if spec_plugin_unchanged(previous_config, plugin) && previous.contains_key(plugin.tag@) {
        previous[plugin.tag@]
    } else {
        spec_preferred_from_plugin(plugin)
    }
}

/// The preferred addresses after a reload, plugin by plugin.
pub open spec fn spec_reloaded_map(
    plugins: Seq<PluginConfig>,
    previous_config: FileConfig,
    previous: Map<Seq<char>, PreferredIps>,
) -> Map<Seq<char>, PreferredIps>
    decreases plugins.len(),
{
    if plugins.len() == 0 {
        Map::empty()
    } else {
        spec_reloaded_map(plugins.drop_last(), previous_config, previous).insert(
            plugins.last().tag@,
            spec_reloaded_preferred(plugins.last(), previous_config, previous),
        )
    }
}

/// The merge of a successful probe's selection into the current addresses:
/// a strict plugin takes the selection whole; another keeps each family the
/// probe did not produce.
pub open spec fn spec_merge_selection(
    current: PreferredIps,
    selected: PreferredIps,
    strict: bool,
) -> PreferredIps {
    if strict {
        selected
    } else {
        PreferredIps {
            ipv4: if selected.ipv4 is Some {
                selected.ipv4
            } else {
                current.ipv4
            },
            ipv6: if selected.ipv6 is Some {
                selected.ipv6
            } else {
                current.ipv6
            },
        }
    }
}

/// The plugin of a tag in a configuration, if any (its first declaration).
pub open spec fn spec_config_plugin(config: FileConfig, tag: Seq<char>) -> Option<PluginConfig> {
    match spec_first_index(config.plugin_tags(), tag, 0) {
        Some(i) => Some(config.plugins@[i]),
        None => None,
    }
}

/// The plugin is still configured, unchanged and enabled: only then does a
/// probe round's outcome count.
pub open spec fn spec_round_counts(config: FileConfig, expected: PluginConfig) -> bool {
    spec_config_plugin(config, expected.tag@) matches Some(p) && p.spec_same(expected)
        && p.optimizer.enabled
}

/// The addresses kept for a tag, none where there are none.
pub open spec fn spec_current(map: Map<Seq<char>, PreferredIps>, tag: Seq<char>) -> PreferredIps {
    if map.contains_key(tag) {
        map[tag]
    } else {
        PreferredIps { ipv4: None, ipv6: None }
    }
}

/// The preferred addresses after a successful probe round (`update_preferred`).
pub open spec fn spec_after_update(
    config: FileConfig,
    map: Map<Seq<char>, PreferredIps>,
    expected: PluginConfig,
    selected: PreferredIps,
) -> Map<Seq<char>, PreferredIps> {
    if spec_round_counts(config, expected) {
        map.insert(
            expected.tag@,
            spec_merge_selection(
                spec_current(map, expected.tag@),
                selected,
                spec_config_plugin(config, expected.tag@)->0.optimizer.spec_requires_compatibility_gate(),
            ),
        )
    } else {
        map
    }
}

/// The preferred addresses after a failed probe round (`clear_preferred`):
/// a strict plugin loses what it had; nothing else changes.
pub open spec fn spec_after_clear(
    config: FileConfig,
    map: Map<Seq<char>, PreferredIps>,
    expected: PluginConfig,
) -> Map<Seq<char>, PreferredIps> {
    if spec_round_counts(config, expected) && spec_config_plugin(
        config,
        expected.tag@,
    )->0.optimizer.spec_requires_compatibility_gate() && map.contains_key(expected.tag@) {
        map.insert(expected.tag@, PreferredIps { ipv4: None, ipv6: None })
    } else {
        map
    }
}

/// A strict optimizer's failed round leaves its plugin with no preferred
/// address, whatever the round before it selected.
pub proof fn law_strict_failed_round_clears_selection(
    config: FileConfig,
    map: Map<Seq<char>, PreferredIps>,
    plugin: PluginConfig,
    selected: PreferredIps,
)
    requires
        spec_round_counts(config, plugin),
        spec_config_plugin(config, plugin.tag@)->0.optimizer.spec_requires_compatibility_gate(),
    ensures
        ({
            let after = spec_after_clear(
                config,
                spec_after_update(config, map, plugin, selected),
                plugin,
            );
            after.contains_key(plugin.tag@) && after[plugin.tag@] == (PreferredIps {
                ipv4: None,
                ipv6: None,
            })
        }),
{
}

/// A round of a non-strict optimizer replaces only the address families it
/// produced; the others keep what they had.
pub proof fn law_lenient_round_keeps_missing_families(
    config: FileConfig,
    map: Map<Seq<char>, PreferredIps>,
    plugin: PluginConfig,
    selected: PreferredIps,
)
    requires
        spec_round_counts(config, plugin),
        !spec_config_plugin(config, plugin.tag@)->0.optimizer.spec_requires_compatibility_gate(),
    ensures
        ({
            let after = spec_after_update(config, map, plugin, selected)[plugin.tag@];
            let before = spec_current(map, plugin.tag@);
            &&& selected.ipv4 is None ==> after.ipv4 == before.ipv4
            &&& selected.ipv6 is None ==> after.ipv6 == before.ipv6
            &&& selected.ipv4 is Some ==> after.ipv4 == selected.ipv4
            &&& selected.ipv6 is Some ==> after.ipv6 == selected.ipv6
        }),
{
}

/// A round that no longer counts (the plugin was removed, changed or
/// disabled meanwhile) changes nothing, successful or not.
pub proof fn law_stale_round_changes_nothing(
    config: FileConfig,
    map: Map<Seq<char>, PreferredIps>,
    plugin: PluginConfig,
    selected: PreferredIps,
)
    requires
        !spec_round_counts(config, plugin),
    ensures
        spec_after_update(config, map, plugin, selected) == map,
        spec_after_clear(config, map, plugin) == map,
{
}

proof fn lemma_reloaded_at(
    plugins: Seq<PluginConfig>,
    previous_config: FileConfig,
    previous: Map<Seq<char>, PreferredIps>,
    i: int,
)
    requires
        0 <= i < plugins.len(),
        forall|j: int| i < j < plugins.len() ==> (#[trigger] plugins[j]).tag@ != plugins[i].tag@,
    ensures
        spec_reloaded_map(plugins, previous_config, previous).contains_key(plugins[i].tag@),
        spec_reloaded_map(plugins, previous_config, previous)[plugins[i].tag@]
            == spec_reloaded_preferred(plugins[i], previous_config, previous),
    decreases plugins.len(),
{
    if i < plugins.len() - 1 {
        let prefix = plugins.drop_last();
        assert(prefix[i] == plugins[i]);
        assert forall|j: int| i < j < prefix.len() implies (#[trigger] prefix[j]).tag@
            != prefix[i].tag@ by {
            assert(prefix[j] == plugins[j]);
        }
        lemma_reloaded_at(prefix, previous_config, previous, i);
        assert(plugins[plugins.len() - 1].tag@ != plugins[i].tag@);
    }
}

/// A reload starts a new or changed plugin afresh: its addresses are the
/// ones it starts with (none for a strict plugin), whatever the plugin of
/// that tag had before, so a changed compatibility policy never inherits
/// addresses proved under the old one. (The plugin is the last of its tag.)
pub proof fn law_reload_starts_changed_plugin_afresh(
    plugins: Seq<PluginConfig>,
    previous_config: FileConfig,
    previous: Map<Seq<char>, PreferredIps>,
    i: int,
)
    requires
        0 <= i < plugins.len(),
        forall|j: int| i < j < plugins.len() ==> (#[trigger] plugins[j]).tag@ != plugins[i].tag@,
        !spec_plugin_unchanged(previous_config, plugins[i]),
    ensures
        spec_reloaded_map(plugins, previous_config, previous)[plugins[i].tag@]
            == spec_preferred_from_plugin(plugins[i]),
{
    lemma_reloaded_at(plugins, previous_config, previous, i);
}

/// A reload keeps what an unchanged plugin had. (The plugin is the last of
/// its tag.)
pub proof fn law_reload_keeps_unchanged_plugin(
    plugins: Seq<PluginConfig>,
    previous_config: FileConfig,
    previous: Map<Seq<char>, PreferredIps>,
    i: int,
)
    requires
        0 <= i < plugins.len(),
        forall|j: int| i < j < plugins.len() ==> (#[trigger] plugins[j]).tag@ != plugins[i].tag@,
        spec_plugin_unchanged(previous_config, plugins[i]),
        previous.contains_key(plugins[i].tag@),
    ensures
        spec_reloaded_map(plugins, previous_config, previous)[plugins[i].tag@]
            == previous[plugins[i].tag@],
{
    lemma_reloaded_at(plugins, previous_config, previous, i);
}

/// The configuration a request reads, with the preferred addresses its
/// optimizers chose: one snapshot, so plugin settings and addresses never
/// mix between configuration generations.
pub struct RuntimeConfig {
    pub config: FileConfig,
    /// The preferred addresses per plugin tag (the first entry of a tag counts).
    pub preferred_ips: Vec<PreferredEntry>,
}

impl RuntimeConfig {
    /// The preferred addresses per plugin tag.
    pub open spec fn preferred_map(&self) -> Map<Seq<char>, PreferredIps> {
        spec_preferred_map(self.preferred_ips@)
    }

    /// The plugin of a tag in this configuration, if any.
    pub open spec fn spec_plugin(&self, tag: Seq<char>) -> Option<PluginConfig> {
        match spec_first_index(self.config.plugin_tags(), tag, 0) {
            Some(i) => Some(self.config.plugins@[i]),
            None => None,
        }
    }

    /// A fresh snapshot: each plugin starts with its static addresses (none
    /// for a strict one).
    pub fn new(config: FileConfig) -> (r: RuntimeConfig)
        ensures
            r.config == config,
            r.preferred_map() == spec_static_preferred(config.plugins@),
    {
        let mut entries: Vec<PreferredEntry> = Vec::new();
        let mut i: usize = 0;
        assert(spec_preferred_map(entries@) =~= Map::<Seq<char>, PreferredIps>::empty());
        while i < config.plugins.len()
            invariant
                i <= config.plugins@.len(),
                spec_preferred_map(entries@) == spec_static_preferred(config.plugins@.take(i as int)),
            decreases config.plugins@.len() - i,
        {
            let plugin = &config.plugins[i];
            let preferred = preferred_from_plugin(plugin);
            let tag = plugin.tag.clone();
            proof {
                lemma_put_map(entries@, PreferredEntry { tag, preferred });
                assert(config.plugins@.take(i + 1).drop_last() =~= config.plugins@.take(i as int));
            }
            put_preferred(&mut entries, tag, preferred);
            i += 1;
        }
        assert(config.plugins@.take(config.plugins@.len() as int) =~= config.plugins@);
        RuntimeConfig { config, preferred_ips: entries }
    }

    /// The snapshot after a reload: plugins whose settings did not change
    /// keep the addresses their optimizers chose.
    pub fn with_reloaded_config(config: FileConfig, previous: &RuntimeConfig) -> (r: RuntimeConfig)
        ensures
            r.config == config,
            r.preferred_map() == spec_reloaded_map(
                config.plugins@,
                previous.config,
                previous.preferred_map(),
            ),
    {
        let mut entries: Vec<PreferredEntry> = Vec::new();
        let mut i: usize = 0;
        assert(spec_preferred_map(entries@) =~= Map::<Seq<char>, PreferredIps>::empty());
        while i < config.plugins.len()
            invariant
                i <= config.plugins@.len(),
                spec_preferred_map(entries@) == spec_reloaded_map(
                    config.plugins@.take(i as int),
                    previous.config,
                    previous.preferred_map(),
                ),
            decreases config.plugins@.len() - i,
        {
            let plugin = &config.plugins[i];
            let unchanged = match previous.config.plugin(plugin.tag.as_str()) {
                Some(previous_plugin) => previous_plugin.same(plugin),
                None => false,
            };
            let preferred = if unchanged {
                match previous.preferred(plugin.tag.as_str()) {
                    Some(p) => p,
                    None => preferred_from_plugin(plugin),
                }
            } else {
                preferred_from_plugin(plugin)
            };
            let tag = plugin.tag.clone();
            proof {
                lemma_put_map(entries@, PreferredEntry { tag, preferred });
                assert(config.plugins@.take(i + 1).drop_last() =~= config.plugins@.take(i as int));
                assert(config.plugins@.take(i + 1).last() == *plugin);
            }
            put_preferred(&mut entries, tag, preferred);
            i += 1;
        }
        assert(config.plugins@.take(config.plugins@.len() as int) =~= config.plugins@);
        RuntimeConfig { config, preferred_ips: entries }
    }

    /// The addresses kept for a plugin tag.
    pub fn preferred(&self, plugin_tag: &str) -> (r: Option<PreferredIps>)
        ensures
            r == (if self.preferred_map().contains_key(plugin_tag@) {
                Some(self.preferred_map()[plugin_tag@])
            } else {
                None
            }),
    {
        lookup_preferred(&self.preferred_ips, plugin_tag)
    }

    /// Takes a successful probe's selection for the plugin: only while the
    /// configuration still holds that very plugin, enabled. A strict plugin
    /// takes the selection whole; another updates only the families the probe
    /// produced. `None`, and nothing changes, where the plugin was removed,
    /// changed or disabled meanwhile.
    pub fn update_preferred(&mut self, expected_plugin: &PluginConfig, selected: PreferredIps) -> (r:
        Option<PreferredIps>)
        ensures
            final(self).config == old(self).config,
            final(self).preferred_map() == spec_after_update(
                old(self).config,
                old(self).preferred_map(),
                *expected_plugin,
                selected,
            ),
            match old(self).spec_plugin(expected_plugin.tag@) {
                Some(p) if p.spec_same(*expected_plugin) && p.optimizer.enabled => {
                    let current = if old(self).preferred_map().contains_key(expected_plugin.tag@) {
                        old(self).preferred_map()[expected_plugin.tag@]
                    } else {
                        PreferredIps { ipv4: None, ipv6: None }
                    };
                    let next = spec_merge_selection(
                        current,
                        selected,
                        p.optimizer.spec_requires_compatibility_gate(),
                    );
                    &&& r == Some(next)
                    &&& final(self).preferred_map() == old(self).preferred_map().insert(
                        expected_plugin.tag@,
                        next,
                    )
                },
                _ => r is None && final(self).preferred_map() == old(self).preferred_map(),
            },
    {
        let index = match self.config.plugin_index(expected_plugin.tag.as_str()) {
            Some(i) => i,
            None => return None,
        };
        proof {
            lemma_first_index(self.config.plugin_tags(), expected_plugin.tag@, 0);
        }
        let plugin = &self.config.plugins[index];
        if !plugin.same(expected_plugin) || !plugin.optimizer.enabled {
            return None;
        }
        let strict = plugin.optimizer.requires_compatibility_gate();
        let current = match lookup_preferred(&self.preferred_ips, expected_plugin.tag.as_str()) {
            Some(p) => p,
            None => PreferredIps::empty(),
        };
        let next = if strict {
            selected
        } else {
            PreferredIps {
                ipv4: if selected.ipv4.is_some() {
                    selected.ipv4
                } else {
                    current.ipv4
                },
                ipv6: if selected.ipv6.is_some() {
                    selected.ipv6
                } else {
                    current.ipv6
                },
            }
        };
        let tag = expected_plugin.tag.clone();
        proof {
            lemma_put_map(self.preferred_ips@, PreferredEntry { tag, preferred: next });
        }
        put_preferred(&mut self.preferred_ips, tag, next);
        Some(next)
    }

    /// Strict mode never keeps an old address after a whole failed round:
    /// clears the addresses of a strict, enabled plugin that the configuration
    /// still holds unchanged, and gives what it now has (`None`, and nothing
    /// changes, otherwise).
    pub fn clear_preferred(&mut self, expected_plugin: &PluginConfig) -> (r: Option<PreferredIps>)
        ensures
            final(self).config == old(self).config,
            final(self).preferred_map() == spec_after_clear(
                old(self).config,
                old(self).preferred_map(),
                *expected_plugin,
            ),
            match old(self).spec_plugin(expected_plugin.tag@) {
                Some(p) if p.spec_same(*expected_plugin) && p.optimizer.enabled
                    && p.optimizer.spec_requires_compatibility_gate() => {
                    &&& r == Some(PreferredIps { ipv4: None, ipv6: None })
                    &&& (if old(self).preferred_map().contains_key(expected_plugin.tag@) {
                        final(self).preferred_map() == old(self).preferred_map().insert(
                            expected_plugin.tag@,
                            PreferredIps { ipv4: None, ipv6: None },
                        )
                    } else {
                        final(self).preferred_map() == old(self).preferred_map()
                    })
                },
                _ => r is None && final(self).preferred_map() == old(self).preferred_map(),
            },
    {
        let index = match self.config.plugin_index(expected_plugin.tag.as_str()) {
            Some(i) => i,
            None => return None,
        };
        proof {
            lemma_first_index(self.config.plugin_tags(), expected_plugin.tag@, 0);
        }
        let plugin = &self.config.plugins[index];
        if !plugin.same(expected_plugin) || !plugin.optimizer.enabled
            || !plugin.optimizer.requires_compatibility_gate() {
            return None;
        }
        match lookup_preferred(&self.preferred_ips, expected_plugin.tag.as_str()) {
            None => Some(PreferredIps::empty()),
            Some(current) => {
                if current.is_empty() {
                    proof {
                        assert(old(self).preferred_map().insert(
                            expected_plugin.tag@,
                            PreferredIps { ipv4: None, ipv6: None },
                        ) =~= old(self).preferred_map());
                    }
                    return Some(current);
                }
                let tag = expected_plugin.tag.clone();
                let empty = PreferredIps::empty();
                proof {
                    lemma_put_map(self.preferred_ips@, PreferredEntry { tag, preferred: empty });
                }
                put_preferred(&mut self.preferred_ips, tag, empty);
                Some(empty)
            },
        }
    }
}

/// The resolvers of the system configuration that local layers forward to.
pub struct LocalResolvers {
    addresses: Vec<SocketAddress>,
}

impl LocalResolvers {
    pub closed spec fn view(&self) -> Seq<SocketAddress> {
        self.addresses@
    }

    pub fn new(addresses: Vec<SocketAddress>) -> (r: LocalResolvers)
        ensures
            r.view() == addresses@,
    {
        LocalResolvers { addresses }
    }

    pub fn addresses(&self) -> (r: &[SocketAddress])
        ensures
            r@ == self.view(),
    {
        self.addresses.as_slice()
    }
}

} // verus!

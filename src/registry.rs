//! The table of plugins, keyed by normalised name, and their lifecycle.

use vstd::prelude::*;

use crate::config::{unique_names, CommandSpec, PaperPluginYml, SpigotPluginYml};
use crate::text::{key_lt, normalize_name, normalized, same_str, strs};

verus! {

/// Where a plugin stands in its lifecycle.
#[derive(Debug, Clone, Copy, PartialEq, Eq, Structural)]
pub enum PluginState {
    /// Its descriptor is known; nothing runs yet.
    Registered,
    /// Its instance exists in the runtime.
    Loaded,
    Enabled,
    Disabled,
    /// A dependency was missing, or instantiating or enabling failed.
    Errored,
}

/// The descriptors that a primary-dialect plugin ships.
#[derive(Debug)]
pub struct PaperPluginData {
    pub paper_config: PaperPluginYml,
    pub spigot_config: Option<SpigotPluginYml>,
}

/// The descriptor of a legacy-dialect plugin.
#[derive(Debug)]
pub struct SpigotPluginData {
    pub spigot_config: SpigotPluginYml,
}

/// The dialect a plugin was described in.
#[derive(Debug)]
pub enum PluginType {
    Paper(PaperPluginData),
    Spigot(SpigotPluginData),
}

/// One registered plugin. The dependency lists hold normalised names.
pub struct Plugin {
    pub name: String,
    pub version: String,
    pub main_class: String,
    /// The plugin's archive.
    pub path: String,
    pub plugin_type: PluginType,
    pub state: PluginState,
    pub data_folder: String,
    /// The runtime's handle of the plugin's instance, once it exists.
    pub instance: Option<u64>,
    pub commands: Vec<(String, CommandSpec)>,
    /// Event type and the runtime's handle of its listener.
    pub listeners: Vec<(String, u64)>,
    pub provides: Vec<String>,
    pub depends: Vec<String>,
    pub soft_depends: Vec<String>,
    pub load_before: Vec<String>,
    pub load_after: Vec<String>,
    pub classpath_deps: Vec<String>,
    /// Library coordinates, case kept.
    pub libraries: Vec<String>,
}

/// The registry: `keys[i]` is the normalised name of `plugins[i]`.
pub struct PluginManager {
    pub keys: Vec<String>,
    pub plugins: Vec<Plugin>,
}

/// Whether a plugin offers `name` as an alias.
pub open spec fn provides_name(p: Plugin, name: Seq<char>) -> bool {
    name.len() > 0 && strs(p.provides@).contains(name)
}

/// Whether `k` is the plugin that an alias resolves to: among the plugins
/// that provide it, the one with the least key.
pub open spec fn is_owner(g: Map<Seq<char>, Plugin>, k: Seq<char>, name: Seq<char>) -> bool {
    &&& g.contains_key(k)
    &&& provides_name(g[k], name)
    &&& forall|k2: Seq<char>|
        g.contains_key(k2) && provides_name(#[trigger] g[k2], name) ==> !key_lt(k2, k)
}

/// The key that a dependency name stands for: the plugin of that key, else
/// the owner of that alias.
pub open spec fn resolve(g: Map<Seq<char>, Plugin>, name: Seq<char>) -> Option<Seq<char>> {
    if g.contains_key(name) {
        Some(name)
    } else if exists|k: Seq<char>| is_owner(g, k, name) {
        Some(choose|k: Seq<char>| is_owner(g, k, name))
    } else {
        None
    }
}

impl PluginManager {
    /// Keys match the names and are distinct, and no plugin declares a
    /// command twice.
    pub open spec fn wf(&self) -> bool {
        &&& self.keys.len() == self.plugins.len()
        &&& forall|i: int| 0 <= i < self.plugins.len() ==> unique_names((#[trigger] self.plugins@[i]).commands@)
        &&& forall|i: int|
            0 <= i < self.keys.len() ==> (#[trigger] self.keys@[i])@ == normalized(
                self.plugins@[i].name@,
            )
        &&& forall|i: int, j: int|
            0 <= i < self.keys.len() && 0 <= j < self.keys.len() && i != j ==> (
            #[trigger] self.keys@[i])@ != (#[trigger] self.keys@[j])@
    }

    pub open spec fn has_key(&self, k: Seq<char>) -> bool {
        exists|i: int| 0 <= i < self.keys.len() && (#[trigger] self.keys@[i])@ == k
    }

    pub open spec fn index_of(&self, k: Seq<char>) -> int {
        choose|i: int| 0 <= i < self.keys.len() && (#[trigger] self.keys@[i])@ == k
    }

    /// The registry as a map from key to plugin.
    pub open spec fn graph(&self) -> Map<Seq<char>, Plugin> {
        Map::new(|k: Seq<char>| self.has_key(k), |k: Seq<char>| self.plugins@[self.index_of(k)])
    }

    pub proof fn lemma_graph_at(&self, i: int)
        requires
            self.wf(),
            0 <= i < self.keys.len(),
        ensures
            self.graph().contains_key(self.keys@[i]@),
            self.graph()[self.keys@[i]@] == self.plugins@[i],
            self.index_of(self.keys@[i]@) == i,
    {
        assert(self.has_key(self.keys@[i]@));
        let j = self.index_of(self.keys@[i]@);
        assert(self.keys@[j]@ == self.keys@[i]@);
    }

    /// An empty registry.
    pub fn new() -> (r: Self)
        ensures
            r.wf(),
            r.keys.len() == 0,
    {
        PluginManager { keys: Vec::new(), plugins: Vec::new() }
    }

    /// How many plugins are registered.
    pub fn len(&self) -> (r: usize)
        requires
            self.wf(),
        ensures
            r == self.keys.len(),
    {
        self.keys.len()
    }

    /// The index of the plugin registered under exactly `key`.
    pub fn find(&self, key: &str) -> (r: Option<usize>)
        requires
            self.wf(),
        ensures
            match r {
                Some(i) => i < self.keys.len() && self.keys@[i as int]@ == key@,
                None => !self.has_key(key@),
            },
    {
        let mut i: usize = 0;
        while i < self.keys.len()
            invariant
                self.wf(),
                i <= self.keys.len(),
                forall|j: int| 0 <= j < i ==> (#[trigger] self.keys@[j])@ != key@,
            decreases self.keys.len() - i,
        {
            if same_str(self.keys[i].as_str(), key) {
                return Some(i);
            }
            i = i + 1;
        }
        None
    }

    /// The plugin registered under `key`.
    pub fn get(&self, key: &str) -> (r: Option<&Plugin>)
        requires
            self.wf(),
        ensures
            match r {
                Some(p) => self.graph().contains_key(key@) && *p == self.graph()[key@],
                None => !self.graph().contains_key(key@),
            },
    {
        match self.find(key) {
            Some(i) => {
                proof {
                    self.lemma_graph_at(i as int);
                }
                Some(&self.plugins[i])
            },
            None => None,
        }
    }

    /// The state of the plugin registered under `key`.
    pub fn state_of(&self, key: &str) -> (r: Option<PluginState>)
        requires
            self.wf(),
        ensures
            match r {
                Some(s) => self.graph().contains_key(key@) && s == self.graph()[key@].state,
                None => !self.graph().contains_key(key@),
            },
    {
        match self.get(key) {
            Some(p) => Some(p.state),
            None => None,
        }
    }

    /// Registers a plugin under its normalised name. A name that is taken
    /// already is refused and leaves the registry as it was; the result
    /// says whether the plugin was added.
    pub fn add_plugin(&mut self, plugin: Plugin) -> (r: bool)
        requires
            old(self).wf(),
            unique_names(plugin.commands@),
        ensures
            final(self).wf(),
            r == !old(self).has_key(normalized(plugin.name@)),
            r ==> final(self).plugins@ == old(self).plugins@.push(plugin),
            r ==> strs(final(self).keys@) == strs(old(self).keys@).push(normalized(plugin.name@)),
            !r ==> *final(self) == *old(self),
    {
        let key = normalize_name(plugin.name.as_str());
        match self.find(key.as_str()) {
            Some(_) => false,
            None => {
                let ghost k0 = strs(self.keys@);
                self.keys.push(key);
                self.plugins.push(plugin);
                proof {
                    assert(strs(self.keys@) =~= k0.push(normalized(plugin.name@)));
                }
                true
            },
        }
    }

    /// Sets the state of the plugin under `key`; the result says whether
    /// there was one.
    pub fn transition(&mut self, key: &str, state: PluginState) -> (r: bool)
        requires
            old(self).wf(),
        ensures
            final(self).wf(),
            final(self).keys@ == old(self).keys@,
            r == old(self).has_key(key@),
            forall|i: int|
                0 <= i < old(self).plugins.len() ==> #[trigger] final(self).plugins@[i] == if old(
                    self,
                ).keys@[i]@ == key@ {
                    Plugin { state: state, ..old(self).plugins@[i] }
                } else {
                    old(self).plugins@[i]
                },
            final(self).plugins.len() == old(self).plugins.len(),
    {
        match self.find(key) {
            Some(i) => {
                self.plugins[i].state = state;
                proof {
                    assert forall|j: int| 0 <= j < self.keys.len() implies (#[trigger] self.keys@[j])@ == normalized(
                        self.plugins@[j].name@,
                    ) by {
                        assert(old(self).keys@[j]@ == normalized(old(self).plugins@[j].name@));
                    }
                }
                true
            },
            None => false,
        }
    }

    /// Empties the registry, whatever the plugins' states.
    pub fn unload_all_plugins(&mut self)
        requires
            old(self).wf(),
        ensures
            final(self).wf(),
            final(self).keys.len() == 0,
            final(self).plugins.len() == 0,
    {
        self.keys.clear();
        self.plugins.clear();
    }

    pub proof fn lemma_graph_key(&self, k: Seq<char>)
        requires
            self.wf(),
            self.graph().contains_key(k),
        ensures
            0 <= self.index_of(k) < self.keys.len(),
            self.keys@[self.index_of(k)]@ == k,
            self.graph()[k] == self.plugins@[self.index_of(k)],
    {
    }
}

} // verus!

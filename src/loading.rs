//! Turning parsed descriptors of either dialect into registry entries.

use vstd::prelude::*;

use crate::config::{opt_commands, opt_section, selects, CommandSpec, DepKind, LoadOrder, PaperDependency, PaperPluginYml, SpigotPluginYml};
use crate::paths::{join_path, parent_path, parent_of, path_joined};
use crate::registry::{PaperPluginData, Plugin, PluginManager, PluginState, PluginType, SpigotPluginData};
use crate::text::{copy_string, copy_strings, dedupe, dedupe_names, dedupe_strings, normalize_each, normalize_name, normalized, normalized_list, strs,
    trimmed_list};

verus! {

/// Why a descriptor could not be registered.
#[derive(Debug, Clone, Copy, PartialEq, Eq, Structural)]
pub enum LoadError {
    /// The archive's path has no parent folder to hold the data folder.
    NoParentFolder,
}

/// The data folder of a plugin: `data` beside its archive.
pub open spec fn data_folder_of(path: Seq<char>) -> Option<Seq<char>> {
    match parent_of(path) {
        Some(p) => Some(path_joined(p, "data"@)),
        None => None,
    }
}

fn data_folder_for(path: &str) -> (r: Option<String>)
    ensures
        match r {
            Some(s) => data_folder_of(path@) == Some(s@),
            None => data_folder_of(path@) is None,
        },
{
    match parent_path(path) {
        Some(p) => Some(join_path(p.as_str(), "data")),
        None => None,
    }
}

/// The normalised names of the entries that feed `kind`, in order.
pub open spec fn dep_names(entries: Seq<(String, PaperDependency)>, kind: DepKind) -> Seq<Seq<char>>
    decreases entries.len(),
{
    if entries.len() == 0 {
        seq![]
    } else {
        let rest = dep_names(entries.drop_last(), kind);
        if selects(kind, entries.last().1) {
            rest.push(normalized(entries.last().0@))
        } else {
            rest
        }
    }
}

pub open spec fn opt_list(o: Option<Vec<String>>) -> Seq<Seq<char>> {
    match o {
        Some(v) => strs(v@),
        None => seq![],
    }
}

/// The library coordinates that a legacy descriptor asks for.
pub open spec fn spigot_libraries(c: SpigotPluginYml) -> Seq<Seq<char>> {
    if c.paper_skip_libraries == Some(true) {
        seq![]
    } else {
        dedupe(trimmed_list(opt_list(c.libraries)))
    }
}

/// The entry that a legacy descriptor becomes. Its commands move from the
/// descriptor into the entry.
pub open spec fn is_spigot_plugin(p: Plugin, path: Seq<char>, folder: Seq<char>, c: SpigotPluginYml) -> bool {
    &&& p.name == c.name
    &&& p.version == c.version
    &&& p.main_class == c.main
    &&& p.path@ == path
    &&& p.data_folder@ == folder
    &&& p.plugin_type == PluginType::Spigot(SpigotPluginData { spigot_config: SpigotPluginYml { commands: None, ..c } })
    &&& p.state == PluginState::Registered
    &&& p.instance is None
    &&& p.commands@ == opt_commands(c.commands)
    &&& p.listeners@.len() == 0
    &&& strs(p.provides@) == normalized_list(opt_list(c.provides))
    &&& strs(p.depends@) == dedupe(normalized_list(opt_list(c.depend)))
    &&& strs(p.soft_depends@) == dedupe(normalized_list(opt_list(c.softdepend)))
    &&& strs(p.load_before@) == dedupe(normalized_list(opt_list(c.loadbefore)))
    &&& p.load_after@.len() == 0
    &&& p.classpath_deps@.len() == 0
    &&& strs(p.libraries@) == spigot_libraries(c)
}

/// The names that the primary descriptor's two sections feed into `kind`:
/// the bootstrap section first.
pub open spec fn paper_names(c: PaperPluginYml, kind: DepKind) -> Seq<Seq<char>> {
    match c.dependencies {
        Some(d) => dep_names(opt_section(d.bootstrap), kind) + dep_names(opt_section(d.server), kind),
        None => seq![],
    }
}

/// The entry that a primary descriptor, with the legacy one it may ship
/// beside, becomes. The legacy descriptor's commands move into the entry.
pub open spec fn is_paper_plugin(
    p: Plugin,
    path: Seq<char>,
    folder: Seq<char>,
    c: PaperPluginYml,
    s: Option<SpigotPluginYml>,
) -> bool {
    &&& p.name == c.name
    &&& p.version == c.version
    &&& p.main_class == c.main
    &&& p.path@ == path
    &&& p.data_folder@ == folder
    &&& p.plugin_type == PluginType::Paper(
        PaperPluginData {
            paper_config: c,
            spigot_config: match s {
                Some(x) => Some(SpigotPluginYml { commands: None, ..x }),
                None => None,
            },
        },
    )
    &&& p.state == PluginState::Registered
    &&& p.instance is None
    &&& p.commands@ == (match s {
        Some(x) => opt_commands(x.commands),
        None => seq![],
    })
    &&& p.listeners@.len() == 0
    &&& strs(p.provides@) == normalized_list(opt_list(c.provides)) + (match s {
        Some(x) => normalized_list(opt_list(x.provides)),
        None => seq![],
    })
    &&& strs(p.depends@) == dedupe(paper_names(c, DepKind::Required) + (match s {
        Some(x) => normalized_list(opt_list(x.depend)),
        None => seq![],
    }))
    &&& strs(p.soft_depends@) == dedupe(paper_names(c, DepKind::Soft) + (match s {
        Some(x) => normalized_list(opt_list(x.softdepend)),
        None => seq![],
    }))
    &&& strs(p.load_before@) == dedupe(paper_names(c, DepKind::After) + (match s {
        Some(x) => normalized_list(opt_list(x.loadbefore)),
        None => seq![],
    }))
    &&& strs(p.load_after@) == dedupe(paper_names(c, DepKind::Before))
    &&& strs(p.classpath_deps@) == dedupe(paper_names(c, DepKind::Classpath))
    &&& strs(p.libraries@) == (match s {
        Some(x) => spigot_libraries(x),
        None => seq![],
    })
}

/// Normalises the names of an optional list, dropping the empty ones.
fn normalized_opt(names: &Option<Vec<String>>) -> (r: Vec<String>)
    ensures
        strs(r@) == normalized_list(opt_list(*names)),
{
    normalize_each(names)
}

fn libraries_of(c: &SpigotPluginYml) -> (r: Vec<String>)
    ensures
        strs(r@) == spigot_libraries(*c),
{
    let skip = match c.paper_skip_libraries {
        Some(b) => b,
        None => false,
    };
    if skip {
        let r: Vec<String> = Vec::new();
        assert(strs(r@) =~= seq![]);
        r
    } else {
        let v = match &c.libraries {
            Some(v) => copy_strings(v),
            None => Vec::new(),
        };
        assert(strs(v@) =~= opt_list(c.libraries));
        dedupe_strings(v)
    }
}

/// The names of one section, sorted into the lists they feed.
struct DepLists {
    required: Vec<String>,
    soft: Vec<String>,
    before: Vec<String>,
    after: Vec<String>,
    classpath: Vec<String>,
}

fn collect_section(entries: &Vec<(String, PaperDependency)>, lists: &mut DepLists)
    ensures
        strs(final(lists).required@) == strs(old(lists).required@) + dep_names(entries@, DepKind::Required),
        strs(final(lists).soft@) == strs(old(lists).soft@) + dep_names(entries@, DepKind::Soft),
        strs(final(lists).before@) == strs(old(lists).before@) + dep_names(entries@, DepKind::Before),
        strs(final(lists).after@) == strs(old(lists).after@) + dep_names(entries@, DepKind::After),
        strs(final(lists).classpath@) == strs(old(lists).classpath@) + dep_names(entries@, DepKind::Classpath),
{
    let ghost l0 = *lists;
    let mut i: usize = 0;
    while i < entries.len()
        invariant
            i <= entries.len(),
            strs(lists.required@) == strs(l0.required@) + dep_names(entries@.take(i as int), DepKind::Required),
            strs(lists.soft@) == strs(l0.soft@) + dep_names(entries@.take(i as int), DepKind::Soft),
            strs(lists.before@) == strs(l0.before@) + dep_names(entries@.take(i as int), DepKind::Before),
            strs(lists.after@) == strs(l0.after@) + dep_names(entries@.take(i as int), DepKind::After),
            strs(lists.classpath@) == strs(l0.classpath@) + dep_names(entries@.take(i as int), DepKind::Classpath),
        decreases entries.len() - i,
    {
        let ghost t = entries@.take(i + 1);
        assert(t.drop_last() =~= entries@.take(i as int));
        assert(t.last() == entries@[i as int]);
        let dep = entries[i].1;
        let ghost r0 = strs(lists.required@);
        let ghost s0 = strs(lists.soft@);
        let ghost b0 = strs(lists.before@);
        let ghost a0 = strs(lists.after@);
        let ghost c0 = strs(lists.classpath@);
        if dep.required {
            lists.required.push(normalize_name(entries[i].0.as_str()));
            assert(strs(lists.required@) =~= r0.push(normalized(entries@[i as int].0@)));
        } else {
            lists.soft.push(normalize_name(entries[i].0.as_str()));
            assert(strs(lists.soft@) =~= s0.push(normalized(entries@[i as int].0@)));
        }
        match dep.load {
            LoadOrder::Before => {
                lists.before.push(normalize_name(entries[i].0.as_str()));
                assert(strs(lists.before@) =~= b0.push(normalized(entries@[i as int].0@)));
            },
            LoadOrder::After => {
                lists.after.push(normalize_name(entries[i].0.as_str()));
                assert(strs(lists.after@) =~= a0.push(normalized(entries@[i as int].0@)));
            },
            LoadOrder::Omit => {},
        }
        if dep.join_classpath {
            lists.classpath.push(normalize_name(entries[i].0.as_str()));
            assert(strs(lists.classpath@) =~= c0.push(normalized(entries@[i as int].0@)));
        }
        i = i + 1;
    }
    assert(entries@.take(entries.len() as int) =~= entries@);
}

/// How registering a plugin under `key` changed the registry: a new last
/// entry went in behind the others, unless the key was taken, and then
/// nothing changed.
pub open spec fn appended(old: PluginManager, new: PluginManager, key: Seq<char>, added: bool) -> bool {
    &&& added == !old.has_key(key)
    &&& added ==> {
        &&& new.plugins.len() == old.plugins.len() + 1
        &&& new.plugins@.drop_last() == old.plugins@
        &&& strs(new.keys@) == strs(old.keys@).push(key)
    }
    &&& !added ==> new == old
}

/// What registering a legacy descriptor for the archive at `path` did.
pub open spec fn spigot_loaded(
    old: PluginManager,
    new: PluginManager,
    path: Seq<char>,
    c: SpigotPluginYml,
    r: Result<bool, LoadError>,
) -> bool {
    match r {
        Err(e) => e == LoadError::NoParentFolder && data_folder_of(path) is None && new == old,
        Ok(added) => {
            &&& data_folder_of(path) is Some
            &&& appended(old, new, normalized(c.name@), added)
            &&& added ==> is_spigot_plugin(new.plugins@.last(), path, data_folder_of(path)->0, c)
        },
    }
}

/// What registering a primary descriptor, with the legacy one beside it,
/// for the archive at `path` did.
pub open spec fn paper_loaded(
    old: PluginManager,
    new: PluginManager,
    path: Seq<char>,
    c: PaperPluginYml,
    s: Option<SpigotPluginYml>,
    r: Result<bool, LoadError>,
) -> bool {
    match r {
        Err(e) => e == LoadError::NoParentFolder && data_folder_of(path) is None && new == old,
        Ok(added) => {
            &&& data_folder_of(path) is Some
            &&& appended(old, new, normalized(c.name@), added)
            &&& added ==> is_paper_plugin(new.plugins@.last(), path, data_folder_of(path)->0, c, s)
        },
    }
}

/// The lists that a legacy descriptor feeds, its commands moved out.
struct SpigotParts {
    depends: Vec<String>,
    soft_depends: Vec<String>,
    load_before: Vec<String>,
    provides: Vec<String>,
    libraries: Vec<String>,
    commands: Vec<(String, CommandSpec)>,
    config: SpigotPluginYml,
}

fn spigot_parts(c: SpigotPluginYml) -> (r: SpigotParts)
    ensures
        strs(r.depends@) == normalized_list(opt_list(c.depend)),
        strs(r.soft_depends@) == normalized_list(opt_list(c.softdepend)),
        strs(r.load_before@) == normalized_list(opt_list(c.loadbefore)),
        strs(r.provides@) == normalized_list(opt_list(c.provides)),
        strs(r.libraries@) == spigot_libraries(c),
        r.commands@ == opt_commands(c.commands),
        r.config == (SpigotPluginYml { commands: None, ..c }),
{
    let depends = normalized_opt(&c.depend);
    let soft_depends = normalized_opt(&c.softdepend);
    let load_before = normalized_opt(&c.loadbefore);
    let provides = normalized_opt(&c.provides);
    let libraries = libraries_of(&c);
    let SpigotPluginYml {
        name,
        version,
        main,
        depend,
        softdepend,
        loadbefore,
        provides: declared_provides,
        libraries: declared_libraries,
        paper_skip_libraries,
        commands: declared_commands,
    } = c;
    let commands = match declared_commands {
        Some(v) => v,
        None => Vec::new(),
    };
    assert(commands@ =~= opt_commands(c.commands));
    SpigotParts {
        depends,
        soft_depends,
        load_before,
        provides,
        libraries,
        commands,
        config: SpigotPluginYml {
            name,
            version,
            main,
            depend,
            softdepend,
            loadbefore,
            provides: declared_provides,
            libraries: declared_libraries,
            paper_skip_libraries,
            commands: None,
        },
    }
}

impl PluginManager {
    /// Registers a plugin described in the legacy dialect. The result is
    /// `Ok(false)` when its normalised name is taken, and the registry is
    /// then left as it was.
    pub fn load_spigot_plugin(&mut self, jar_path: &str, config: SpigotPluginYml) -> (r: Result<bool, LoadError>)
        requires
            old(self).wf(),
            config.wf(),
        ensures
            final(self).wf(),
            spigot_loaded(*old(self), *final(self), jar_path@, config, r),
    {
        let folder = match data_folder_for(jar_path) {
            Some(f) => f,
            None => return Err(LoadError::NoParentFolder),
        };
        let name = copy_string(&config.name);
        let version = copy_string(&config.version);
        let main_class = copy_string(&config.main);
        let parts = spigot_parts(config);
        let plugin = Plugin {
            name,
            version,
            main_class,
            path: jar_path.to_owned(),
            plugin_type: PluginType::Spigot(SpigotPluginData { spigot_config: parts.config }),
            state: PluginState::Registered,
            data_folder: folder,
            instance: None,
            commands: parts.commands,
            listeners: Vec::new(),
            provides: parts.provides,
            depends: dedupe_names(parts.depends),
            soft_depends: dedupe_names(parts.soft_depends),
            load_before: dedupe_names(parts.load_before),
            load_after: Vec::new(),
            classpath_deps: Vec::new(),
            libraries: parts.libraries,
        };
        let ghost p = plugin;
        let added = self.add_plugin(plugin);
        assert(is_spigot_plugin(p, jar_path@, data_folder_of(jar_path@)->0, config));
        proof {
            if added {
                assert(self.plugins@.drop_last() =~= old(self).plugins@);
                assert(self.plugins@.last() == p);
            }
        }
        assert(spigot_loaded(*old(self), *self, jar_path@, config, Ok(added)));
        Ok(added)
    }

    /// Registers a plugin described in the primary dialect, with the legacy
    /// descriptor it may ship beside. The result is `Ok(false)` when its
    /// normalised name is taken, and the registry is then left as it was.
    pub fn load_paper_plugin(
        &mut self,
        jar_path: &str,
        config: PaperPluginYml,
        spigot: Option<SpigotPluginYml>,
    ) -> (r: Result<bool, LoadError>)
        requires
            old(self).wf(),
            config.wf(),
            match spigot {
                Some(x) => x.wf(),
                None => true,
            },
        ensures
            final(self).wf(),
            paper_loaded(*old(self), *final(self), jar_path@, config, spigot, r),
    {
        let folder = match data_folder_for(jar_path) {
            Some(f) => f,
            None => return Err(LoadError::NoParentFolder),
        };
        let mut lists = DepLists {
            required: Vec::new(),
            soft: Vec::new(),
            before: Vec::new(),
            after: Vec::new(),
            classpath: Vec::new(),
        };
        proof {
            assert(strs(lists.required@) =~= seq![]);
            assert(strs(lists.soft@) =~= seq![]);
            assert(strs(lists.before@) =~= seq![]);
            assert(strs(lists.after@) =~= seq![]);
            assert(strs(lists.classpath@) =~= seq![]);
        }
        match &config.dependencies {
            Some(d) => {
                match &d.bootstrap {
                    Some(v) => collect_section(v, &mut lists),
                    None => {},
                }
                match &d.server {
                    Some(v) => collect_section(v, &mut lists),
                    None => {},
                }
            },
            None => {},
        }
        proof {
            assert(strs(lists.required@) =~= paper_names(config, DepKind::Required));
            assert(strs(lists.soft@) =~= paper_names(config, DepKind::Soft));
            assert(strs(lists.before@) =~= paper_names(config, DepKind::Before));
            assert(strs(lists.after@) =~= paper_names(config, DepKind::After));
            assert(strs(lists.classpath@) =~= paper_names(config, DepKind::Classpath));
        }
        let mut provides = normalized_opt(&config.provides);
        let name = copy_string(&config.name);
        let version = copy_string(&config.version);
        let main_class = copy_string(&config.main);
        let ghost l = lists;
        let ghost pv = strs(provides@);
        let ghost sp = spigot;
        let (mut required, mut soft, mut before, libraries, commands, kept) = match spigot {
            Some(c) => {
                let mut parts = spigot_parts(c);
                let mut required = lists.required;
                let mut soft = lists.soft;
                let mut before = lists.after;
                required.append(&mut parts.depends);
                soft.append(&mut parts.soft_depends);
                before.append(&mut parts.load_before);
                provides.append(&mut parts.provides);
                (required, soft, before, parts.libraries, parts.commands, Some(parts.config))
            },
            None => (lists.required, lists.soft, lists.after, Vec::new(), Vec::new(), None),
        };
        proof {
            match sp {
                Some(x) => {
                    assert(strs(required@) =~= strs(l.required@) + normalized_list(opt_list(x.depend)));
                    assert(strs(soft@) =~= strs(l.soft@) + normalized_list(opt_list(x.softdepend)));
                    assert(strs(before@) =~= strs(l.after@) + normalized_list(opt_list(x.loadbefore)));
                    assert(strs(provides@) =~= pv + normalized_list(opt_list(x.provides)));
                },
                None => {
                    assert(strs(required@) =~= strs(l.required@) + seq![]);
                    assert(strs(soft@) =~= strs(l.soft@) + seq![]);
                    assert(strs(before@) =~= strs(l.after@) + seq![]);
                    assert(strs(provides@) =~= pv + seq![]);
                    assert(strs(libraries@) =~= seq![]);
                    assert(commands@ =~= seq![]);
                },
            }
        }
        let plugin = Plugin {
            name,
            version,
            main_class,
            path: jar_path.to_owned(),
            plugin_type: PluginType::Paper(PaperPluginData { paper_config: config, spigot_config: kept }),
            state: PluginState::Registered,
            data_folder: folder,
            instance: None,
            commands,
            listeners: Vec::new(),
            provides,
            depends: dedupe_names(required),
            soft_depends: dedupe_names(soft),
            load_before: dedupe_names(before),
            load_after: dedupe_names(lists.before),
            classpath_deps: dedupe_names(lists.classpath),
            libraries,
        };
        let ghost p = plugin;
        let added = self.add_plugin(plugin);
        assert(is_paper_plugin(p, jar_path@, data_folder_of(jar_path@)->0, config, sp));
        proof {
            if added {
                assert(self.plugins@.drop_last() =~= old(self).plugins@);
                assert(self.plugins@.last() == p);
            }
        }
        assert(paper_loaded(*old(self), *self, jar_path@, config, sp, Ok(added)));
        Ok(added)
    }
}

} // verus!

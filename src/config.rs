//! The two descriptor dialects, as the loader hands them over once parsed.

use vstd::prelude::*;

use crate::text::{copy_string, copy_strings, same_str, strs};

verus! {

/// Where a dependency loads relative to the plugin that declares it.
#[derive(Debug, Clone, Copy, PartialEq, Eq, Structural)]
pub enum LoadOrder {
    /// The dependency loads before the plugin that declares it.
    Before,
    /// The dependency loads after the plugin that declares it.
    After,
    /// No ordering is asked for.
    Omit,
}

/// One dependency declaration of the primary dialect.
#[derive(Debug, Clone, Copy, PartialEq, Eq, Structural)]
pub struct PaperDependency {
    pub load: LoadOrder,
    /// Whether the plugin cannot load without it.
    pub required: bool,
    /// Whether the dependency's archive joins the plugin's classpath.
    pub join_classpath: bool,
}

/// The value that an omitted flag takes.
pub fn default_true() -> (r: bool)
    ensures
        r,
{
    true
}

impl Default for PaperDependency {
    fn default() -> (r: Self)
        ensures
            r == (PaperDependency { load: LoadOrder::Omit, required: true, join_classpath: true }),
    {
        PaperDependency { load: LoadOrder::Omit, required: default_true(), join_classpath: default_true() }
    }
}

/// A command declared by a plugin of the legacy dialect.
#[derive(Debug, Clone)]
pub struct CommandSpec {
    pub description: Option<String>,
    pub usage: Option<String>,
    pub permission: Option<String>,
    pub aliases: Option<Vec<String>>,
}

/// Dependencies of the primary dialect, split into the bootstrap and the
/// server phase; each section holds its entries in the order the loader
/// hands them over.
#[derive(Debug, Clone)]
pub struct PaperDependencies {
    pub bootstrap: Option<Vec<(String, PaperDependency)>>,
    pub server: Option<Vec<(String, PaperDependency)>>,
}

/// A descriptor of the primary dialect.
#[derive(Debug, Clone)]
pub struct PaperPluginYml {
    pub name: String,
    pub version: String,
    pub main: String,
    pub description: Option<String>,
    pub author: Option<String>,
    pub authors: Option<Vec<String>>,
    pub contributors: Option<Vec<String>>,
    pub website: Option<String>,
    pub api_version: Option<String>,
    pub bootstrapper: Option<String>,
    pub loader: Option<String>,
    pub dependencies: Option<PaperDependencies>,
    pub provides: Option<Vec<String>>,
}

/// A descriptor of the legacy dialect.
#[derive(Debug, Clone)]
pub struct SpigotPluginYml {
    pub name: String,
    pub version: String,
    pub main: String,
    pub depend: Option<Vec<String>>,
    pub softdepend: Option<Vec<String>>,
    pub loadbefore: Option<Vec<String>>,
    pub provides: Option<Vec<String>>,
    pub libraries: Option<Vec<String>>,
    pub paper_skip_libraries: Option<bool>,
    pub commands: Option<Vec<(String, CommandSpec)>>,
}

/// Which list of a plugin a dependency entry feeds.
#[derive(Clone, Copy, PartialEq, Eq, Structural)]
pub enum DepKind {
    Required,
    Soft,
    Before,
    After,
    Classpath,
}

pub open spec fn selects(kind: DepKind, d: PaperDependency) -> bool {
    match kind {
        DepKind::Required => d.required,
        DepKind::Soft => !d.required,
        DepKind::Before => d.load == LoadOrder::Before,
        DepKind::After => d.load == LoadOrder::After,
        DepKind::Classpath => d.join_classpath,
    }
}

/// The commands of an optional list.
pub open spec fn opt_commands(o: Option<Vec<(String, CommandSpec)>>) -> Seq<(String, CommandSpec)> {
    match o {
        Some(v) => v@,
        None => seq![],
    }
}

/// No two entries share a name, as the keys of a YAML map.
pub open spec fn unique_names<T>(entries: Seq<(String, T)>) -> bool {
    forall|i: int, j: int|
        0 <= i < entries.len() && 0 <= j < entries.len() && i != j ==> (#[trigger] entries[i]).0@ != (
        #[trigger] entries[j]).0@
}

impl PaperDependencies {
    /// Each section names a dependency at most once.
    pub open spec fn wf(&self) -> bool {
        &&& unique_names(opt_section(self.bootstrap))
        &&& unique_names(opt_section(self.server))
    }
}

impl PaperPluginYml {
    /// Its dependency sections name a dependency at most once each.
    pub open spec fn wf(&self) -> bool {
        match self.dependencies {
            Some(d) => d.wf(),
            None => true,
        }
    }
}

impl SpigotPluginYml {
    /// It declares a command at most once.
    pub open spec fn wf(&self) -> bool {
        unique_names(opt_commands(self.commands))
    }
}

/// Every name that `names_where` gives is the name of an entry.
proof fn lemma_names_where_from(entries: Seq<(String, PaperDependency)>, kind: DepKind, x: Seq<char>)
    requires
        names_where(entries, kind).contains(x),
    ensures
        exists|i: int| 0 <= i < entries.len() && (#[trigger] entries[i]).0@ == x,
    decreases entries.len(),
{
    let rest = names_where(entries.drop_last(), kind);
    if rest.contains(x) {
        lemma_names_where_from(entries.drop_last(), kind, x);
        let i = choose|i: int| 0 <= i < entries.drop_last().len() && (#[trigger] entries.drop_last()[i]).0@ == x;
        assert(entries[i] == entries.drop_last()[i]);
    } else {
        assert(entries[entries.len() - 1].0@ == x);
    }
}

/// Names picked from entries with distinct names are distinct.
pub proof fn lemma_names_where_unique(entries: Seq<(String, PaperDependency)>, kind: DepKind)
    requires
        unique_names(entries),
    ensures
        names_where(entries, kind).no_duplicates(),
    decreases entries.len(),
{
    if entries.len() > 0 {
        let init = entries.drop_last();
        assert(unique_names(init)) by {
            assert forall|i: int, j: int|
                0 <= i < init.len() && 0 <= j < init.len() && i != j implies (#[trigger] init[i]).0@ != (
                #[trigger] init[j]).0@ by {
                assert(init[i] == entries[i] && init[j] == entries[j]);
            }
        }
        lemma_names_where_unique(init, kind);
        let last = entries.last().0@;
        if names_where(init, kind).contains(last) {
            lemma_names_where_from(init, kind, last);
            let i = choose|i: int| 0 <= i < init.len() && (#[trigger] init[i]).0@ == last;
            assert(init[i] == entries[i]);
            assert(entries[i].0@ != entries[entries.len() - 1].0@);
        }
    }
}

/// The entries of an optional section.
pub open spec fn opt_section(o: Option<Vec<(String, PaperDependency)>>) -> Seq<(String, PaperDependency)> {
    match o {
        Some(v) => v@,
        None => seq![],
    }
}

/// The names, as declared, of the entries that feed `kind`, in order.
pub open spec fn names_where(entries: Seq<(String, PaperDependency)>, kind: DepKind) -> Seq<Seq<char>>
    decreases entries.len(),
{
    if entries.len() == 0 {
        seq![]
    } else {
        let rest = names_where(entries.drop_last(), kind);
        if selects(kind, entries.last().1) {
            rest.push(entries.last().0@)
        } else {
            rest
        }
    }
}

/// Whether an entry of the section is named `name`.
pub open spec fn section_has(entries: Seq<(String, PaperDependency)>, name: Seq<char>) -> bool {
    exists|i: int| 0 <= i < entries.len() && (#[trigger] entries[i]).0@ == name
}

/// Whether an entry of the section is named `name` and required.
pub open spec fn section_requires(entries: Seq<(String, PaperDependency)>, name: Seq<char>) -> bool {
    exists|i: int| 0 <= i < entries.len() && (#[trigger] entries[i]).0@ == name && entries[i].1.required
}

fn copy_section(o: &Option<Vec<(String, PaperDependency)>>) -> (r: Vec<(String, PaperDependency)>)
    ensures
        r@ == opt_section(*o),
{
    let mut r: Vec<(String, PaperDependency)> = Vec::new();
    match o {
        Some(v) => {
            let mut i: usize = 0;
            while i < v.len()
                invariant
                    i <= v.len(),
                    r@ == v@.take(i as int),
                decreases v.len() - i,
            {
                r.push((copy_string(&v[i].0), v[i].1));
                assert(r@ =~= v@.take(i + 1));
                i = i + 1;
            }
            assert(v@.take(v.len() as int) =~= v@);
        },
        None => {
            assert(r@ =~= seq![]);
        },
    }
    r
}

fn section_names(o: &Option<Vec<(String, PaperDependency)>>, kind: DepKind, out: &mut Vec<String>)
    ensures
        strs(final(out)@) == strs(old(out)@) + names_where(opt_section(*o), kind),
{
    match o {
        Some(v) => {
            let ghost o0 = strs(out@);
            let mut i: usize = 0;
            while i < v.len()
                invariant
                    i <= v.len(),
                    strs(out@) == o0 + names_where(v@.take(i as int), kind),
                decreases v.len() - i,
            {
                assert(v@.take(i + 1).drop_last() =~= v@.take(i as int));
                let d = v[i].1;
                let wanted = match kind {
                    DepKind::Required => d.required,
                    DepKind::Soft => !d.required,
                    DepKind::Before => d.load == LoadOrder::Before,
                    DepKind::After => d.load == LoadOrder::After,
                    DepKind::Classpath => d.join_classpath,
                };
                if wanted {
                    let ghost s0 = strs(out@);
                    out.push(copy_string(&v[i].0));
                    assert(strs(out@) =~= s0.push(v@[i as int].0@));
                }
                i = i + 1;
            }
            assert(v@.take(v.len() as int) =~= v@);
        },
        None => {
            assert(strs(out@) =~= strs(out@) + seq![]);
        },
    }
}

fn section_lookup(o: &Option<Vec<(String, PaperDependency)>>, name: &str, required_only: bool) -> (r: bool)
    ensures
        r == if required_only {
            section_requires(opt_section(*o), name@)
        } else {
            section_has(opt_section(*o), name@)
        },
{
    match o {
        Some(v) => {
            let mut i: usize = 0;
            while i < v.len()
                invariant
                    i <= v.len(),
                    opt_section(*o) == v@,
                    forall|j: int|
                        0 <= j < i ==> !((#[trigger] v@[j]).0@ == name@ && (!required_only || v@[j].1.required)),
                decreases v.len() - i,
            {
                if same_str(v[i].0.as_str(), name) && (!required_only || v[i].1.required) {
                    assert(opt_section(*o)[i as int] == v@[i as int]);
                    assert(opt_section(*o)[i as int].0@ == name@);
                    return true;
                }
                i = i + 1;
            }
            false
        },
        None => false,
    }
}

impl PaperDependencies {
    /// The bootstrap entries, in the section's order.
    pub fn get_bootstrap_deps(&self) -> (r: Vec<(String, PaperDependency)>)
        requires
            self.wf(),
        ensures
            r@ == opt_section(self.bootstrap),
            unique_names(r@),
    {
        copy_section(&self.bootstrap)
    }

    /// The server entries, in the section's order.
    pub fn get_server_deps(&self) -> (r: Vec<(String, PaperDependency)>)
        requires
            self.wf(),
        ensures
            r@ == opt_section(self.server),
            unique_names(r@),
    {
        copy_section(&self.server)
    }

    /// The names of the required bootstrap entries.
    pub fn get_required_bootstrap_deps(&self) -> (r: Vec<String>)
        requires
            self.wf(),
        ensures
            strs(r@) == names_where(opt_section(self.bootstrap), DepKind::Required),
            strs(r@).no_duplicates(),
    {
        proof {
            lemma_names_where_unique(opt_section(self.bootstrap), DepKind::Required);
        }
        let mut r: Vec<String> = Vec::new();
        assert(strs(r@) =~= seq![]);
        section_names(&self.bootstrap, DepKind::Required, &mut r);
        assert(strs(r@) =~= names_where(opt_section(self.bootstrap), DepKind::Required));
        r
    }

    /// The names of the required server entries.
    pub fn get_required_server_deps(&self) -> (r: Vec<String>)
        requires
            self.wf(),
        ensures
            strs(r@) == names_where(opt_section(self.server), DepKind::Required),
            strs(r@).no_duplicates(),
    {
        proof {
            lemma_names_where_unique(opt_section(self.server), DepKind::Required);
        }
        let mut r: Vec<String> = Vec::new();
        assert(strs(r@) =~= seq![]);
        section_names(&self.server, DepKind::Required, &mut r);
        assert(strs(r@) =~= names_where(opt_section(self.server), DepKind::Required));
        r
    }

    /// Whether the bootstrap section names `name`.
    pub fn has_bootstrap_dep(&self, name: &str) -> (r: bool)
        ensures
            r == section_has(opt_section(self.bootstrap), name@),
    {
        section_lookup(&self.bootstrap, name, false)
    }

    /// Whether the server section names `name`.
    pub fn has_server_dep(&self, name: &str) -> (r: bool)
        ensures
            r == section_has(opt_section(self.server), name@),
    {
        section_lookup(&self.server, name, false)
    }
}

/// The entries of one section of optional dependencies.
pub open spec fn deps_section(d: Option<PaperDependencies>, server: bool) -> Seq<(String, PaperDependency)> {
    match d {
        Some(x) => if server {
            opt_section(x.server)
        } else {
            opt_section(x.bootstrap)
        },
        None => seq![],
    }
}

impl PaperPluginYml {
    /// The single author, if any, then the listed authors.
    pub fn get_all_authors(&self) -> (r: Vec<String>)
        ensures
            strs(r@) == (match self.author {
                Some(a) => seq![a@],
                None => seq![],
            }) + (match self.authors {
                Some(v) => strs(v@),
                None => seq![],
            }),
    {
        let mut r: Vec<String> = Vec::new();
        match &self.author {
            Some(a) => r.push(copy_string(a)),
            None => {},
        }
        let ghost r0 = strs(r@);
        match &self.authors {
            Some(v) => {
                let mut more = copy_strings(v);
                r.append(&mut more);
            },
            None => {},
        }
        proof {
            let me = *self;
            match me.author {
                Some(a) => assert(r0 =~= seq![a@]),
                None => assert(r0 =~= seq![]),
            }
            match me.authors {
                Some(v) => assert(strs(r@) =~= r0 + strs(v@)),
                None => assert(strs(r@) =~= r0 + seq![]),
            }
        }
        r
    }

    /// Whether a bootstrapper class is declared.
    pub fn has_bootstrapper(&self) -> (r: bool)
        ensures
            r == self.bootstrapper is Some,
    {
        self.bootstrapper.is_some()
    }

    /// Whether a loader class is declared.
    pub fn has_loader(&self) -> (r: bool)
        ensures
            r == self.loader is Some,
    {
        self.loader.is_some()
    }

    /// The dependencies, empty when none are declared.
    pub fn get_dependencies(&self) -> (r: PaperDependencies)
        ensures
            opt_section(r.bootstrap) == deps_section(self.dependencies, false),
            opt_section(r.server) == deps_section(self.dependencies, true),
            self.dependencies is None ==> r.bootstrap is None && r.server is None,
            self.wf() ==> r.wf(),
            self.dependencies is Some ==> (r.bootstrap is Some <==> self.dependencies->0.bootstrap is Some) && (
            r.server is Some <==> self.dependencies->0.server is Some),
    {
        match &self.dependencies {
            Some(d) => PaperDependencies {
                bootstrap: match &d.bootstrap {
                    Some(_) => Some(copy_section(&d.bootstrap)),
                    None => None,
                },
                server: match &d.server {
                    Some(_) => Some(copy_section(&d.server)),
                    None => None,
                },
            },
            None => PaperDependencies { bootstrap: None, server: None },
        }
    }

    /// Whether `name` is a required dependency in either section.
    pub fn requires_plugin(&self, name: &str) -> (r: bool)
        ensures
            r == (section_requires(deps_section(self.dependencies, false), name@) || section_requires(
                deps_section(self.dependencies, true),
                name@,
            )),
    {
        match &self.dependencies {
            Some(d) => section_lookup(&d.bootstrap, name, true) || section_lookup(&d.server, name, true),
            None => false,
        }
    }

    /// The declared names of the dependencies marked to load before this
    /// plugin, the bootstrap section first.
    pub fn get_load_before_deps(&self) -> (r: Vec<String>)
        ensures
            strs(r@) == names_where(deps_section(self.dependencies, false), DepKind::Before) + names_where(
                deps_section(self.dependencies, true),
                DepKind::Before,
            ),
    {
        self.names_of_kind(DepKind::Before)
    }

    /// The declared names of the dependencies marked to load after this
    /// plugin, the bootstrap section first.
    pub fn get_load_after_deps(&self) -> (r: Vec<String>)
        ensures
            strs(r@) == names_where(deps_section(self.dependencies, false), DepKind::After) + names_where(
                deps_section(self.dependencies, true),
                DepKind::After,
            ),
    {
        self.names_of_kind(DepKind::After)
    }

    fn names_of_kind(&self, kind: DepKind) -> (r: Vec<String>)
        ensures
            strs(r@) == names_where(deps_section(self.dependencies, false), kind) + names_where(
                deps_section(self.dependencies, true),
                kind,
            ),
    {
        let mut r: Vec<String> = Vec::new();
        assert(strs(r@) =~= seq![]);
        match &self.dependencies {
            Some(d) => {
                section_names(&d.bootstrap, kind, &mut r);
                section_names(&d.server, kind, &mut r);
                assert(strs(r@) =~= names_where(deps_section(self.dependencies, false), kind) + names_where(
                    deps_section(self.dependencies, true),
                    kind,
                ));
            },
            None => {
                assert(strs(r@) =~= seq![] + seq![]);
            },
        }
        r
    }
}

} // verus!

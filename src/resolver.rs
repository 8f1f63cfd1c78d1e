//! The load order: dependency edges over the active plugins, sorted
//! topologically with the least ready key first, and any cyclic remainder
//! appended in key order.

use vstd::prelude::*;

use crate::registry::{is_owner, provides_name, resolve, Plugin, PluginManager, PluginState};
use crate::text::{contains_str, join_with, joined, key_less, key_lt, lemma_key_lt_irreflexive, lemma_key_lt_total,
    lemma_key_lt_transitive, normalized, same_str, strs};

verus! {

/// Whether every hard dependency of the plugin under `k` resolves.
pub open spec fn is_active(g: Map<Seq<char>, Plugin>, k: Seq<char>) -> bool {
    &&& g.contains_key(k)
    &&& forall|j: int| 0 <= j < g[k].depends.len() ==> #[trigger] resolve(g, g[k].depends@[j]@) is Some
}

/// Whether one of `names` resolves to `k`.
pub open spec fn resolves_any(g: Map<Seq<char>, Plugin>, names: Seq<String>, k: Seq<char>) -> bool {
    exists|j: int| 0 <= j < names.len() && #[trigger] resolve(g, names[j]@) == Some(k)
}

/// Whether `a` must load before `b`: both active, distinct, and `b` depends
/// on `a` (hard or soft), `a` loads before `b`, or `b` loads after `a`.
pub open spec fn has_edge(g: Map<Seq<char>, Plugin>, a: Seq<char>, b: Seq<char>) -> bool {
    &&& a != b
    &&& is_active(g, a)
    &&& is_active(g, b)
    &&& {
        ||| resolves_any(g, g[b].depends@, a)
        ||| resolves_any(g, g[b].soft_depends@, a)
        ||| resolves_any(g, g[a].load_before@, b)
        ||| resolves_any(g, g[b].load_after@, a)
    }
}

/// Whether `k` may load once the keys of `done` have: it is active, not yet
/// loaded, and all that must load before it has.
pub open spec fn is_ready(g: Map<Seq<char>, Plugin>, done: Seq<Seq<char>>, k: Seq<char>) -> bool {
    &&& is_active(g, k)
    &&& !done.contains(k)
    &&& forall|a: Seq<char>| #[trigger] has_edge(g, a, k) ==> done.contains(a)
}

/// Whether `k` is the least key that is ready after `done`.
pub open spec fn is_next(g: Map<Seq<char>, Plugin>, done: Seq<Seq<char>>, k: Seq<char>) -> bool {
    &&& is_ready(g, done, k)
    &&& forall|k2: Seq<char>| #[trigger] is_ready(g, done, k2) ==> !key_lt(k2, k)
}

/// `order` is the load order of `g`, and its keys from `cut` on are the
/// cyclic remainder: the active keys, each once; before `cut`, each is the
/// least key ready after those before it; after that prefix none is ready;
/// the remainder is in strictly increasing key order.
pub open spec fn is_load_order(g: Map<Seq<char>, Plugin>, order: Seq<Seq<char>>, cut: int) -> bool {
    &&& 0 <= cut <= order.len()
    &&& order.no_duplicates()
    &&& forall|k: Seq<char>| #[trigger] order.contains(k) <==> is_active(g, k)
    &&& forall|i: int| 0 <= i < cut ==> is_next(g, order.take(i), #[trigger] order[i])
    &&& forall|k: Seq<char>| !is_ready(g, order.take(cut), k)
    &&& forall|i: int, j: int| cut <= i < j < order.len() ==> key_lt(#[trigger] order[i], #[trigger] order[j])
}

/// `r` is the index, in `m`, of the key `k`, or both are absent.
pub open spec fn same_index(m: &PluginManager, r: Option<usize>, k: Option<Seq<char>>) -> bool {
    match r {
        Some(i) => i < m.keys.len() && k == Some(m.keys@[i as int]@),
        None => k is None,
    }
}

/// The resolved indices of a plugin's ordering lists.
struct Links {
    depends: Vec<Option<usize>>,
    soft_depends: Vec<Option<usize>>,
    load_before: Vec<Option<usize>>,
    load_after: Vec<Option<usize>>,
}

/// `r[j]` is the index that `names[j]` resolves to.
spec fn list_ok(m: &PluginManager, names: Seq<String>, r: Seq<Option<usize>>) -> bool {
    &&& r.len() == names.len()
    &&& forall|j: int| 0 <= j < r.len() ==> same_index(m, #[trigger] r[j], resolve(m.graph(), names[j]@))
}

spec fn links_ok(m: &PluginManager, links: Seq<Links>) -> bool {
    &&& links.len() == m.plugins.len()
    &&& forall|x: int| 0 <= x < links.len() ==> {
        &&& list_ok(m, m.plugins@[x].depends@, (#[trigger] links[x]).depends@)
        &&& list_ok(m, m.plugins@[x].soft_depends@, links[x].soft_depends@)
        &&& list_ok(m, m.plugins@[x].load_before@, links[x].load_before@)
        &&& list_ok(m, m.plugins@[x].load_after@, links[x].load_after@)
    }
}

spec fn active_ok(m: &PluginManager, active: Seq<bool>) -> bool {
    &&& active.len() == m.keys.len()
    &&& forall|x: int| 0 <= x < active.len() ==> #[trigger] active[x] == is_active(m.graph(), m.keys@[x]@)
}

fn provides_exec(p: &Plugin, name: &str) -> (r: bool)
    ensures
        r == provides_name(*p, name@),
{
    !name.is_empty() && contains_str(&p.provides, name)
}

fn holds_index(v: &Vec<Option<usize>>, t: usize) -> (r: bool)
    ensures
        r == exists|j: int| 0 <= j < v.len() && v@[j] == Some(t),
{
    let mut j: usize = 0;
    while j < v.len()
        invariant
            j <= v.len(),
            forall|x: int| 0 <= x < j ==> v@[x] != Some(t),
        decreases v.len() - j,
    {
        if let Some(u) = v[j] {
            if u == t {
                return true;
            }
        }
        j = j + 1;
    }
    false
}

impl PluginManager {
    /// The index of the plugin that `name` resolves to.
    pub fn resolve_index(&self, name: &str) -> (r: Option<usize>)
        requires
            self.wf(),
        ensures
            same_index(self, r, resolve(self.graph(), name@)),
    {
        let n = self.keys.len();
        let mut i: usize = 0;
        while i < n
            invariant
                self.wf(),
                n == self.keys.len(),
                i <= n,
                forall|j: int| 0 <= j < i ==> (#[trigger] self.keys@[j])@ != name@,
            decreases n - i,
        {
            if same_str(self.keys[i].as_str(), name) {
                proof {
                    self.lemma_graph_at(i as int);
                }
                return Some(i);
            }
            i = i + 1;
        }
        let ghost g = self.graph();
        assert(!g.contains_key(name@)) by {
            if g.contains_key(name@) {
                self.lemma_graph_key(name@);
            }
        }
        let mut best: Option<usize> = None;
        let mut j: usize = 0;
        while j < n
            invariant
                self.wf(),
                n == self.keys.len(),
                j <= n,
                g == self.graph(),
                match best {
                    Some(b) => b < j && provides_name(self.plugins@[b as int], name@) && forall|x: int|
                        0 <= x < j && provides_name(#[trigger] self.plugins@[x], name@) ==> !key_lt(
                            self.keys@[x]@,
                            self.keys@[b as int]@,
                        ),
                    None => forall|x: int| 0 <= x < j ==> !provides_name(#[trigger] self.plugins@[x], name@),
                },
            decreases n - j,
        {
            if provides_exec(&self.plugins[j], name) {
                match best {
                    None => {
                        proof {
                            lemma_key_lt_irreflexive(self.keys@[j as int]@);
                        }
                        best = Some(j);
                    },
                    Some(b) => {
                        if key_less(self.keys[j].as_str(), self.keys[b].as_str()) {
                            proof {
                                lemma_key_lt_irreflexive(self.keys@[j as int]@);
                                assert forall|x: int|
                                    0 <= x < j + 1 && provides_name(#[trigger] self.plugins@[x], name@) implies !key_lt(
                                    self.keys@[x]@,
                                    self.keys@[j as int]@,
                                ) by {
                                    if x < j && key_lt(self.keys@[x]@, self.keys@[j as int]@) {
                                        lemma_key_lt_transitive(
                                            self.keys@[x]@,
                                            self.keys@[j as int]@,
                                            self.keys@[b as int]@,
                                        );
                                    }
                                }
                            }
                            best = Some(j);
                        }
                    },
                }
            }
            j = j + 1;
        }
        match best {
            None => {
                assert forall|k: Seq<char>| !is_owner(g, k, name@) by {
                    if is_owner(g, k, name@) {
                        self.lemma_graph_key(k);
                        assert(provides_name(self.plugins@[self.index_of(k)], name@));
                    }
                }
                None
            },
            Some(b) => {
                let ghost kb = self.keys@[b as int]@;
                proof {
                    self.lemma_graph_at(b as int);
                    assert forall|k2: Seq<char>|
                        g.contains_key(k2) && provides_name(#[trigger] g[k2], name@) implies !key_lt(k2, kb) by {
                        self.lemma_graph_key(k2);
                        let x = self.index_of(k2);
                        assert(provides_name(self.plugins@[x], name@));
                    }
                    assert(is_owner(g, kb, name@));
                    let c = choose|k: Seq<char>| is_owner(g, k, name@);
                    lemma_key_lt_total(c, kb);
                }
                Some(b)
            },
        }
    }

    fn resolve_list(&self, names: &Vec<String>) -> (r: Vec<Option<usize>>)
        requires
            self.wf(),
        ensures
            list_ok(self, names@, r@),
    {
        let mut r: Vec<Option<usize>> = Vec::new();
        let mut j: usize = 0;
        while j < names.len()
            invariant
                self.wf(),
                j <= names.len(),
                r.len() == j,
                forall|x: int| 0 <= x < j ==> same_index(self, #[trigger] r@[x], resolve(self.graph(), names@[x]@)),
            decreases names.len() - j,
        {
            let o = self.resolve_index(names[j].as_str());
            r.push(o);
            j = j + 1;
        }
        r
    }

    fn all_links(&self) -> (r: Vec<Links>)
        requires
            self.wf(),
        ensures
            links_ok(self, r@),
    {
        let mut r: Vec<Links> = Vec::new();
        let mut x: usize = 0;
        while x < self.plugins.len()
            invariant
                self.wf(),
                x <= self.plugins.len(),
                r.len() == x,
                forall|y: int| 0 <= y < x ==> {
                    &&& list_ok(self, self.plugins@[y].depends@, (#[trigger] r@[y]).depends@)
                    &&& list_ok(self, self.plugins@[y].soft_depends@, r@[y].soft_depends@)
                    &&& list_ok(self, self.plugins@[y].load_before@, r@[y].load_before@)
                    &&& list_ok(self, self.plugins@[y].load_after@, r@[y].load_after@)
                },
            decreases self.plugins.len() - x,
        {
            let p = &self.plugins[x];
            let l = Links {
                depends: self.resolve_list(&p.depends),
                soft_depends: self.resolve_list(&p.soft_depends),
                load_before: self.resolve_list(&p.load_before),
                load_after: self.resolve_list(&p.load_after),
            };
            r.push(l);
            x = x + 1;
        }
        r
    }

    fn active_flags(&self, links: &Vec<Links>) -> (r: Vec<bool>)
        requires
            self.wf(),
            links_ok(self, links@),
        ensures
            active_ok(self, r@),
    {
        let mut r: Vec<bool> = Vec::new();
        let mut x: usize = 0;
        while x < self.plugins.len()
            invariant
                self.wf(),
                links_ok(self, links@),
                x <= self.plugins.len(),
                r.len() == x,
                forall|y: int| 0 <= y < x ==> #[trigger] r@[y] == is_active(self.graph(), self.keys@[y]@),
            decreases self.plugins.len() - x,
        {
            let deps = &links[x].depends;
            let mut ok = true;
            let mut j: usize = 0;
            while j < deps.len()
                invariant
                    j <= deps.len(),
                    ok == forall|t: int| 0 <= t < j ==> (#[trigger] deps@[t]) is Some,
                decreases deps.len() - j,
            {
                if deps[j].is_none() {
                    ok = false;
                }
                j = j + 1;
            }
            proof {
                self.lemma_graph_at(x as int);
                let g = self.graph();
                let k = self.keys@[x as int]@;
                assert(list_ok(self, self.plugins@[x as int].depends@, links@[x as int].depends@));
                if ok {
                    assert forall|t: int| 0 <= t < g[k].depends.len() implies #[trigger] resolve(
                        g,
                        g[k].depends@[t]@,
                    ) is Some by {
                        assert(deps@[t] is Some);
                    }
                } else {
                    let t = choose|t: int| 0 <= t < deps.len() && !(deps@[t] is Some);
                    assert(resolve(g, g[k].depends@[t]@) is None);
                }
            }
            r.push(ok);
            x = x + 1;
        }
        r
    }
}

/// The archives of the classpath dependencies that resolve, in order.
pub open spec fn classpath_paths(g: Map<Seq<char>, Plugin>, deps: Seq<String>) -> Seq<Seq<char>>
    decreases deps.len(),
{
    if deps.len() == 0 {
        seq![]
    } else {
        let rest = classpath_paths(g, deps.drop_last());
        match resolve(g, deps.last()@) {
            Some(k) => rest.push(g[k].path@),
            None => rest,
        }
    }
}

/// The keys, among the first `n` of `keys`, whose plugins are not active,
/// in registry order.
pub open spec fn inactive_keys(g: Map<Seq<char>, Plugin>, keys: Seq<String>, n: int) -> Seq<Seq<char>>
    decreases n,
{
    if n <= 0 {
        seq![]
    } else {
        let rest = inactive_keys(g, keys, n - 1);
        if is_active(g, keys[n - 1]@) {
            rest
        } else {
            rest.push(keys[n - 1]@)
        }
    }
}

/// The plugin with its state replaced.
pub open spec fn with_state(p: Plugin, s: PluginState) -> Plugin {
    Plugin { state: s, ..p }
}

/// What one resolution pass found.
pub struct LoadPlan {
    /// The keys in load order.
    pub order: Vec<String>,
    /// Where the cyclic remainder starts in `order`; `order.len()` if none.
    pub cycle_start: usize,
    /// The keys left out for a missing hard dependency, in registry order.
    pub skipped: Vec<String>,
}

/// How many flags are set.
spec fn count_true(s: Seq<bool>) -> nat
    decreases s.len(),
{
    if s.len() == 0 {
        0
    } else {
        count_true(s.drop_last()) + if s.last() {
            1nat
        } else {
            0nat
        }
    }
}

proof fn lemma_count_bound(s: Seq<bool>)
    ensures
        count_true(s) <= s.len(),
    decreases s.len(),
{
    if s.len() > 0 {
        lemma_count_bound(s.drop_last());
    }
}

proof fn lemma_count_set(s: Seq<bool>, b: int)
    requires
        0 <= b < s.len(),
        !s[b],
    ensures
        count_true(s.update(b, true)) == count_true(s) + 1,
    decreases s.len(),
{
    if b == s.len() - 1 {
        assert(s.update(b, true).drop_last() =~= s.drop_last());
    } else {
        assert(s.update(b, true).drop_last() =~= s.drop_last().update(b, true));
        lemma_count_set(s.drop_last(), b);
    }
}

proof fn lemma_holds_resolves(m: &PluginManager, names: Seq<String>, l: Seq<Option<usize>>, t: usize)
    requires
        m.wf(),
        list_ok(m, names, l),
        t < m.keys.len(),
    ensures
        (exists|j: int| 0 <= j < l.len() && l[j] == Some(t)) == resolves_any(m.graph(), names, m.keys@[t as int]@),
{
    let g = m.graph();
    let kt = m.keys@[t as int]@;
    if resolves_any(g, names, kt) {
        let j = choose|j: int| 0 <= j < names.len() && #[trigger] resolve(g, names[j]@) == Some(kt);
        assert(same_index(m, l[j], resolve(g, names[j]@)));
        let i = l[j]->0;
        assert(m.keys@[i as int]@ == kt);
        assert(l[j] == Some(t));
    }
    if exists|j: int| 0 <= j < l.len() && l[j] == Some(t) {
        let j = choose|j: int| 0 <= j < l.len() && l[j] == Some(t);
        assert(same_index(m, l[j], resolve(g, names[j]@)));
        assert(resolve(g, names[j]@) == Some(kt));
    }
}

impl PluginManager {
    fn edge(&self, links: &Vec<Links>, active: &Vec<bool>, a: usize, b: usize) -> (r: bool)
        requires
            self.wf(),
            links_ok(self, links@),
            active_ok(self, active@),
            a < self.keys.len(),
            b < self.keys.len(),
        ensures
            r == has_edge(self.graph(), self.keys@[a as int]@, self.keys@[b as int]@),
    {
        proof {
            self.lemma_graph_at(a as int);
            self.lemma_graph_at(b as int);
        }
        if a == b || !active[a] || !active[b] {
            return false;
        }
        proof {
            assert(links_ok(self, links@));
            let la = links@[a as int];
            let lb = links@[b as int];
            lemma_holds_resolves(self, self.plugins@[b as int].depends@, lb.depends@, a);
            lemma_holds_resolves(self, self.plugins@[b as int].soft_depends@, lb.soft_depends@, a);
            lemma_holds_resolves(self, self.plugins@[a as int].load_before@, la.load_before@, b);
            lemma_holds_resolves(self, self.plugins@[b as int].load_after@, lb.load_after@, a);
        }
        holds_index(&links[b].depends, a) || holds_index(&links[b].soft_depends, a)
            || holds_index(&links[a].load_before, b) || holds_index(&links[b].load_after, a)
    }

    /// Whether every plugin that must load before `k` is marked in `done`.
    fn preds_done(&self, links: &Vec<Links>, active: &Vec<bool>, done: &Vec<bool>, k: usize) -> (r: bool)
        requires
            self.wf(),
            links_ok(self, links@),
            active_ok(self, active@),
            done.len() == self.keys.len(),
            k < self.keys.len(),
        ensures
            r == forall|x: int|
                0 <= x < self.keys.len() && has_edge(self.graph(), #[trigger] self.keys@[x]@, self.keys@[k as int]@)
                    ==> done@[x],
    {
        let mut x: usize = 0;
        while x < self.keys.len()
            invariant
                self.wf(),
                links_ok(self, links@),
                active_ok(self, active@),
                done.len() == self.keys.len(),
                k < self.keys.len(),
                x <= self.keys.len(),
                forall|y: int|
                    0 <= y < x && has_edge(self.graph(), #[trigger] self.keys@[y]@, self.keys@[k as int]@) ==> done@[y],
            decreases self.keys.len() - x,
        {
            if self.edge(links, active, x, k) && !done[x] {
                return false;
            }
            x = x + 1;
        }
        true
    }

    /// The classpath of a plugin: the archives of its classpath dependencies
    /// that resolve, joined by `;`.
    pub fn classpath_string_for(&self, plugin: &Plugin) -> (r: String)
        requires
            self.wf(),
        ensures
            r@ == joined(classpath_paths(self.graph(), plugin.classpath_deps@), ";"@),
    {
        let deps = &plugin.classpath_deps;
        let mut paths: Vec<String> = Vec::new();
        let mut j: usize = 0;
        while j < deps.len()
            invariant
                self.wf(),
                j <= deps.len(),
                strs(paths@) == classpath_paths(self.graph(), deps@.take(j as int)),
            decreases deps.len() - j,
        {
            assert(deps@.take(j + 1).drop_last() =~= deps@.take(j as int));
            let ghost p0 = strs(paths@);
            match self.resolve_index(deps[j].as_str()) {
                Some(i) => {
                    proof {
                        self.lemma_graph_at(i as int);
                    }
                    paths.push(self.plugins[i].path.clone());
                    assert(strs(paths@) =~= p0.push(self.plugins@[i as int].path@));
                },
                None => {},
            }
            j = j + 1;
        }
        assert(deps@.take(deps.len() as int) =~= deps@);
        join_with(&paths, ";")
    }

    /// The libraries of a plugin, one coordinate per line.
    pub fn library_string_for(&self, plugin: &Plugin) -> (r: String)
        ensures
            r@ == joined(strs(plugin.libraries@), "\n"@),
    {
        join_with(&plugin.libraries, "\n")
    }

    /// Computes the load order and marks `Errored` each plugin with a hard
    /// dependency that resolves neither to a key nor to an alias; the other
    /// plugins keep their state.
    pub fn compute_load_order(&mut self) -> (plan: LoadPlan)
        requires
            old(self).wf(),
        ensures
            final(self).wf(),
            final(self).keys@ == old(self).keys@,
            final(self).plugins.len() == old(self).plugins.len(),
            forall|i: int|
                0 <= i < old(self).plugins.len() ==> #[trigger] final(self).plugins@[i] == with_state(
                    old(self).plugins@[i],
                    if is_active(old(self).graph(), old(self).keys@[i]@) {
                        old(self).plugins@[i].state
                    } else {
                        PluginState::Errored
                    },
                ),
            is_load_order(old(self).graph(), strs(plan.order@), plan.cycle_start as int),
            strs(plan.skipped@) == inactive_keys(old(self).graph(), old(self).keys@, old(self).keys.len() as int),
            forall|k: Seq<char>|
                #[trigger] strs(plan.skipped@).contains(k) <==> (old(self).graph().contains_key(k)
                    && !is_active(old(self).graph(), k)),
    {
        let links = self.all_links();
        let active = self.active_flags(&links);
        let (order, cut) = self.sort_active(&links, &active);
        let ghost g = self.graph();
        let ghost before = *self;
        let mut skipped: Vec<String> = Vec::new();
        let mut x: usize = 0;
        while x < self.plugins.len()
            invariant
                before.wf(),
                active_ok(&before, active@),
                g == before.graph(),
                self.keys@ == before.keys@,
                self.plugins.len() == before.plugins.len(),
                x <= self.plugins.len(),
                strs(skipped@) == inactive_keys(g, before.keys@, x as int),
                forall|i: int|
                    0 <= i < self.plugins.len() ==> #[trigger] self.plugins@[i] == if i < x {
                        with_state(
                            before.plugins@[i],
                            if active@[i] {
                                before.plugins@[i].state
                            } else {
                                PluginState::Errored
                            },
                        )
                    } else {
                        before.plugins@[i]
                    },
                forall|k: Seq<char>|
                    #[trigger] strs(skipped@).contains(k) <==> exists|i: int|
                        0 <= i < x && !active@[i] && (#[trigger] before.keys@[i])@ == k,
            decreases self.plugins.len() - x,
        {
            if !active[x] {
                self.plugins[x].state = PluginState::Errored;
                let ghost s0 = strs(skipped@);
                assert(forall|k: Seq<char>|
                    #[trigger] s0.contains(k) <==> exists|i: int|
                        0 <= i < x && !active@[i] && (#[trigger] before.keys@[i])@ == k);
                skipped.push(self.keys[x].clone());
                proof {
                    assert(strs(skipped@) =~= s0.push(before.keys@[x as int]@));
                    assert forall|k: Seq<char>|
                        #[trigger] strs(skipped@).contains(k) <==> exists|i: int|
                            0 <= i < x + 1 && !active@[i] && (#[trigger] before.keys@[i])@ == k by {
                        if strs(skipped@).contains(k) && k != before.keys@[x as int]@ {
                            let t = choose|t: int| 0 <= t < strs(skipped@).len() && strs(skipped@)[t] == k;
                            assert(s0[t] == k);
                            assert(s0.contains(k));
                            let i = choose|i: int| 0 <= i < x && !active@[i] && (#[trigger] before.keys@[i])@ == k;
                            assert(0 <= i < x + 1 && !active@[i] && before.keys@[i]@ == k);
                        }
                        if exists|i: int| 0 <= i < x && !active@[i] && (#[trigger] before.keys@[i])@ == k {
                            assert(s0.contains(k));
                            let t = choose|t: int| 0 <= t < s0.len() && s0[t] == k;
                            assert(strs(skipped@)[t] == k);
                        }
                        if k == before.keys@[x as int]@ {
                            assert(strs(skipped@)[s0.len() as int] == k);
                            assert(0 <= x < x + 1 && !active@[x as int] && before.keys@[x as int]@ == k);
                        }
                    }
                }
            }
            x = x + 1;
        }
        proof {
            assert forall|i: int| 0 <= i < self.keys.len() implies (#[trigger] self.keys@[i])@ == normalized(
                self.plugins@[i].name@,
            ) by {
                assert(before.keys@[i]@ == normalized(before.plugins@[i].name@));
            }
            assert forall|i: int| 0 <= i < before.plugins.len() implies #[trigger] self.plugins@[i] == with_state(
                before.plugins@[i],
                if is_active(g, before.keys@[i]@) {
                    before.plugins@[i].state
                } else {
                    PluginState::Errored
                },
            ) by {
                assert(active@[i] == is_active(g, before.keys@[i]@));
            }
            assert forall|k: Seq<char>|
                #[trigger] strs(skipped@).contains(k) <==> (g.contains_key(k) && !is_active(g, k)) by {
                if g.contains_key(k) && !is_active(g, k) {
                    before.lemma_graph_key(k);
                    let i = before.index_of(k);
                    assert(!active@[i]);
                }
                if strs(skipped@).contains(k) {
                    let i = choose|i: int| 0 <= i < x && !active@[i] && (#[trigger] before.keys@[i])@ == k;
                    before.lemma_graph_at(i);
                }
            }
        }
        LoadPlan { order, cycle_start: cut, skipped }
    }

    /// The load order of the active plugins and where its cyclic remainder
    /// starts.
    fn sort_active(&self, links: &Vec<Links>, active: &Vec<bool>) -> (r: (Vec<String>, usize))
        requires
            self.wf(),
            links_ok(self, links@),
            active_ok(self, active@),
        ensures
            is_load_order(self.graph(), strs(r.0@), r.1 as int),
    {
        let n = self.keys.len();
        let ghost g = self.graph();
        let mut done: Vec<bool> = Vec::new();
        let mut x: usize = 0;
        while x < n
            invariant
                x <= n,
                done.len() == x,
                forall|y: int| 0 <= y < x ==> !done@[y],
                count_true(done@) == 0,
            decreases n - x,
        {
            let ghost d0 = done@;
            done.push(false);
            assert(done@.drop_last() =~= d0);
            x = x + 1;
        }
        let mut order: Vec<String> = Vec::new();
        assert(strs(order@) =~= seq![]);
        let mut stuck = false;
        while !stuck
            invariant
                self.wf(),
                links_ok(self, links@),
                active_ok(self, active@),
                n == self.keys.len(),
                g == self.graph(),
                done.len() == n,
                order.len() <= n,
                order.len() == count_true(done@),
                forall|y: int| 0 <= y < n ==> (#[trigger] done@[y] <==> strs(order@).contains(self.keys@[y]@)),
                strs(order@).no_duplicates(),
                forall|t: int| 0 <= t < order.len() ==> is_active(g, #[trigger] strs(order@)[t]),
                forall|t: int| 0 <= t < order.len() ==> is_next(g, strs(order@).take(t), #[trigger] strs(order@)[t]),
                stuck ==> forall|k: Seq<char>| !is_ready(g, strs(order@), k),
            decreases n - order.len(), if stuck { 0int } else { 1int },
        {
            let ghost o = strs(order@);
            let mut best: Option<usize> = None;
            let mut k: usize = 0;
            while k < n
                invariant
                    self.wf(),
                    links_ok(self, links@),
                    active_ok(self, active@),
                    n == self.keys.len(),
                    g == self.graph(),
                    done.len() == n,
                    o == strs(order@),
                    forall|y: int| 0 <= y < n ==> (#[trigger] done@[y] <==> o.contains(self.keys@[y]@)),
                    k <= n,
                    match best {
                        Some(b) => b < k && is_ready(g, o, self.keys@[b as int]@) && forall|y: int|
                            0 <= y < k && is_ready(g, o, #[trigger] self.keys@[y]@) ==> !key_lt(
                                self.keys@[y]@,
                                self.keys@[b as int]@,
                            ),
                        None => forall|y: int| 0 <= y < k ==> !is_ready(g, o, #[trigger] self.keys@[y]@),
                    },
                decreases n - k,
            {
                let ready = active[k] && !done[k] && self.preds_done(links, active, &done, k);
                proof {
                    let kk = self.keys@[k as int]@;
                    self.lemma_graph_at(k as int);
                    if ready {
                        assert forall|a: Seq<char>| #[trigger] has_edge(g, a, kk) implies o.contains(a) by {
                            self.lemma_graph_key(a);
                            let y = self.index_of(a);
                            assert(done@[y]);
                        }
                    }
                    if is_ready(g, o, kk) {
                        assert forall|y: int|
                            0 <= y < self.keys.len() && has_edge(g, #[trigger] self.keys@[y]@, kk) implies done@[y] by {
                        }
                    }
                    assert(ready == is_ready(g, o, kk));
                }
                if ready {
                    match best {
                        None => {
                            proof {
                                lemma_key_lt_irreflexive(self.keys@[k as int]@);
                            }
                            best = Some(k);
                        },
                        Some(b) => {
                            if key_less(self.keys[k].as_str(), self.keys[b].as_str()) {
                                proof {
                                    lemma_key_lt_irreflexive(self.keys@[k as int]@);
                                    assert forall|y: int|
                                        0 <= y < k + 1 && is_ready(g, o, #[trigger] self.keys@[y]@) implies !key_lt(
                                        self.keys@[y]@,
                                        self.keys@[k as int]@,
                                    ) by {
                                        if y < k && key_lt(self.keys@[y]@, self.keys@[k as int]@) {
                                            lemma_key_lt_transitive(
                                                self.keys@[y]@,
                                                self.keys@[k as int]@,
                                                self.keys@[b as int]@,
                                            );
                                        }
                                    }
                                }
                                best = Some(k);
                            }
                        },
                    }
                }
                k = k + 1;
            }
            match best {
                None => {
                    assert forall|kk: Seq<char>| !is_ready(g, o, kk) by {
                        if is_ready(g, o, kk) {
                            self.lemma_graph_key(kk);
                            let y = self.index_of(kk);
                            assert(is_ready(g, o, self.keys@[y]@));
                        }
                    }
                    stuck = true;
                },
                Some(b) => {
                    let ghost kb = self.keys@[b as int]@;
                    proof {
                        lemma_count_set(done@, b as int);
                        lemma_count_bound(done@.update(b as int, true));
                    }
                    assert(is_next(g, o, kb)) by {
                        assert forall|k2: Seq<char>| #[trigger] is_ready(g, o, k2) implies !key_lt(k2, kb) by {
                            self.lemma_graph_key(k2);
                            let y = self.index_of(k2);
                            assert(is_ready(g, o, self.keys@[y]@));
                        }
                    }
                    done.set(b, true);
                    order.push(self.keys[b].clone());
                    let ghost o2 = strs(order@);
                    assert(o2 =~= o.push(kb));
                    assert(o2.take(o.len() as int) =~= o);
                    assert forall|t: int| 0 <= t < o.len() implies o2.take(t) =~= o.take(t) by {}
                    assert forall|y: int| 0 <= y < n implies (#[trigger] done@[y] <==> o2.contains(self.keys@[y]@)) by {
                        if y != b {
                            assert(self.keys@[y]@ != kb);
                            if o2.contains(self.keys@[y]@) {
                                let t = choose|t: int| 0 <= t < o2.len() && o2[t] == self.keys@[y]@;
                                if t < o.len() {
                                    assert(o[t] == self.keys@[y]@);
                                }
                            }
                            if o.contains(self.keys@[y]@) {
                                let t = choose|t: int| 0 <= t < o.len() && o[t] == self.keys@[y]@;
                                assert(o2[t] == self.keys@[y]@);
                            }
                        } else {
                            assert(o2[o.len() as int] == kb);
                        }
                    }
                },
            }
        }
        let cut = order.len();
        let ghost prefix = strs(order@);
        let mut more = true;
        while more
            invariant
                self.wf(),
                active_ok(self, active@),
                n == self.keys.len(),
                g == self.graph(),
                done.len() == n,
                order.len() <= n,
                order.len() == count_true(done@),
                cut <= order.len(),
                forall|y: int| 0 <= y < n ==> (#[trigger] done@[y] <==> strs(order@).contains(self.keys@[y]@)),
                strs(order@).no_duplicates(),
                forall|t: int| 0 <= t < order.len() ==> is_active(g, #[trigger] strs(order@)[t]),
                strs(order@).take(cut as int) == prefix,
                prefix.len() == cut,
                forall|t: int| 0 <= t < cut ==> is_next(g, prefix.take(t), #[trigger] prefix[t]),
                forall|k: Seq<char>| !is_ready(g, prefix, k),
                forall|i: int, j: int|
                    cut <= i < j < order.len() ==> key_lt(#[trigger] strs(order@)[i], #[trigger] strs(order@)[j]),
                forall|t: int, y: int|
                    cut <= t < order.len() && 0 <= y < n && active@[y] && !done@[y] ==> key_lt(
                        #[trigger] strs(order@)[t],
                        #[trigger] self.keys@[y]@,
                    ),
                !more ==> forall|y: int| 0 <= y < n ==> !(#[trigger] active@[y] && !done@[y]),
            decreases n - order.len(), if more { 1int } else { 0int },
        {
            let ghost o = strs(order@);
            let mut best: Option<usize> = None;
            let mut k: usize = 0;
            while k < n
                invariant
                    n == self.keys.len(),
                    done.len() == n,
                    active.len() == n,
                    k <= n,
                    match best {
                        Some(b) => b < k && active@[b as int] && !done@[b as int] && forall|y: int|
                            0 <= y < k && active@[y] && !done@[y] ==> !key_lt(
                                #[trigger] self.keys@[y]@,
                                self.keys@[b as int]@,
                            ),
                        None => forall|y: int| 0 <= y < k ==> !(#[trigger] active@[y] && !done@[y]),
                    },
                decreases n - k,
            {
                if active[k] && !done[k] {
                    match best {
                        None => {
                            proof {
                                lemma_key_lt_irreflexive(self.keys@[k as int]@);
                            }
                            best = Some(k);
                        },
                        Some(b) => {
                            if key_less(self.keys[k].as_str(), self.keys[b].as_str()) {
                                proof {
                                    lemma_key_lt_irreflexive(self.keys@[k as int]@);
                                    assert forall|y: int|
                                        0 <= y < k + 1 && active@[y] && !done@[y] implies !key_lt(
                                        #[trigger] self.keys@[y]@,
                                        self.keys@[k as int]@,
                                    ) by {
                                        if y < k && key_lt(self.keys@[y]@, self.keys@[k as int]@) {
                                            lemma_key_lt_transitive(
                                                self.keys@[y]@,
                                                self.keys@[k as int]@,
                                                self.keys@[b as int]@,
                                            );
                                        }
                                    }
                                }
                                best = Some(k);
                            }
                        },
                    }
                }
                k = k + 1;
            }
            match best {
                None => {
                    more = false;
                },
                Some(b) => {
                    let ghost kb = self.keys@[b as int]@;
                    let ghost old_done = done@;
                    proof {
                        lemma_count_set(done@, b as int);
                        lemma_count_bound(done@.update(b as int, true));
                    }
                    done.set(b, true);
                    order.push(self.keys[b].clone());
                    let ghost o2 = strs(order@);
                    assert(o2 =~= o.push(kb));
                    assert(o2.take(cut as int) =~= o.take(cut as int));
                    assert(active@[b as int] == is_active(g, kb));
                    assert forall|y: int| 0 <= y < n implies (#[trigger] done@[y] <==> o2.contains(self.keys@[y]@)) by {
                        if y != b {
                            assert(self.keys@[y]@ != kb);
                            if o2.contains(self.keys@[y]@) {
                                let t = choose|t: int| 0 <= t < o2.len() && o2[t] == self.keys@[y]@;
                                if t < o.len() {
                                    assert(o[t] == self.keys@[y]@);
                                }
                            }
                            if o.contains(self.keys@[y]@) {
                                let t = choose|t: int| 0 <= t < o.len() && o[t] == self.keys@[y]@;
                                assert(o2[t] == self.keys@[y]@);
                            }
                        } else {
                            assert(o2[o.len() as int] == kb);
                        }
                    }
                    assert forall|t: int, y: int|
                        cut <= t < order.len() && 0 <= y < n && active@[y] && !done@[y] implies key_lt(
                        #[trigger] o2[t],
                        #[trigger] self.keys@[y]@,
                    ) by {
                        assert(!old_done[y]);
                        if t == o.len() {
                            lemma_key_lt_total(self.keys@[y]@, kb);
                        }
                    }
                    assert forall|i: int, j: int| cut <= i < j < order.len() implies key_lt(
                        #[trigger] o2[i],
                        #[trigger] o2[j],
                    ) by {
                        if j == o.len() {
                            assert(!old_done[b as int]);
                        }
                    }
                    assert(!o.contains(kb));
                },
            }
        }
        let ghost fin = strs(order@);
        assert forall|t: int| 0 <= t <= cut implies fin.take(t) =~= prefix.take(t) by {
            assert(fin.take(cut as int).take(t) =~= fin.take(t));
        }
        assert forall|t: int| 0 <= t < cut implies fin[t] == prefix[t] by {
            assert(fin.take(cut as int)[t] == fin[t]);
        }
        assert forall|kk: Seq<char>| #[trigger] fin.contains(kk) <==> is_active(g, kk) by {
            if is_active(g, kk) {
                self.lemma_graph_key(kk);
                let y = self.index_of(kk);
                assert(active@[y]);
                assert(done@[y]);
            }
        }
        (order, cut)
    }
}

} // verus!

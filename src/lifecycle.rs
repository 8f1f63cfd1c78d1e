//! The lifecycle passes over the registry: what to instantiate, and the
//! states that the runtime's answers lead to.

use vstd::prelude::*;

use crate::registry::{Plugin, PluginManager, PluginState};
use crate::resolver::{classpath_paths, inactive_keys, is_load_order, with_state, LoadPlan};
use crate::text::{joined, same_str, strs};

verus! {

/// What the runtime needs to create one plugin's instance.
pub struct InstantiateRequest {
    pub key: String,
    pub path: String,
    pub main_class: String,
    /// The archives of the classpath dependencies, joined by `;`.
    pub classpath: String,
    /// The library coordinates, one per line.
    pub libraries: String,
}

/// The load order of one pass and a request for each key in it.
pub struct InstantiatePass {
    pub plan: LoadPlan,
    pub requests: Vec<InstantiateRequest>,
}

/// The request that the plugin under `k` of `g` calls for.
pub open spec fn request_ok(g: Map<Seq<char>, Plugin>, k: Seq<char>, r: InstantiateRequest) -> bool {
    &&& r.key@ == k
    &&& r.path == g[k].path
    &&& r.main_class == g[k].main_class
    &&& r.classpath@ == joined(classpath_paths(g, g[k].classpath_deps@), ";"@)
    &&& r.libraries@ == joined(strs(g[k].libraries@), "\n"@)
}

/// The keys, among the first `n` entries, of the plugins that have an
/// instance, in registry order.
pub open spec fn instance_keys(keys: Seq<String>, plugins: Seq<Plugin>, n: int) -> Seq<Seq<char>>
    decreases n,
{
    if n <= 0 {
        seq![]
    } else {
        let rest = instance_keys(keys, plugins, n - 1);
        if plugins[n - 1].instance is Some {
            rest.push(keys[n - 1]@)
        } else {
            rest
        }
    }
}

/// The first outcome reported for key `k`.
pub open spec fn outcome_for(o: Seq<(String, bool)>, k: Seq<char>) -> Option<bool>
    decreases o.len(),
{
    if o.len() == 0 {
        None
    } else if o[0].0@ == k {
        Some(o[0].1)
    } else {
        outcome_for(o.drop_first(), k)
    }
}

/// The state that an enable pass leaves a plugin in, given the outcome of
/// its own enable call: plugins without an instance are not touched, nor
/// those with no outcome reported.
pub open spec fn enabled_state(p: Plugin, outcome: Option<bool>) -> PluginState {
    if p.instance is None {
        p.state
    } else {
        match outcome {
            Some(true) => PluginState::Enabled,
            Some(false) => PluginState::Errored,
            None => p.state,
        }
    }
}

/// The state that a disable pass leaves a plugin in: every plugin with an
/// instance ends disabled, whether or not its disable call failed.
pub open spec fn disabled_state(p: Plugin) -> PluginState {
    if p.instance is None {
        p.state
    } else {
        PluginState::Disabled
    }
}

/// Enabling is isolated per plugin: the state a plugin reaches depends on
/// its own outcome alone, so one whose enable call succeeded ends enabled
/// whatever failed for the others.
pub proof fn law_enable_isolation(p: Plugin, k: Seq<char>, o1: Seq<(String, bool)>, o2: Seq<(String, bool)>)
    requires
        outcome_for(o1, k) == outcome_for(o2, k),
    ensures
        enabled_state(p, outcome_for(o1, k)) == enabled_state(p, outcome_for(o2, k)),
        p.instance is Some && outcome_for(o1, k) == Some(true) ==> enabled_state(p, outcome_for(o1, k))
            == PluginState::Enabled,
{
}

fn lookup_outcome(o: &Vec<(String, bool)>, k: &str) -> (r: Option<bool>)
    ensures
        r == outcome_for(o@, k@),
{
    let mut i: usize = 0;
    assert(o@.skip(0) =~= o@);
    while i < o.len()
        invariant
            i <= o.len(),
            outcome_for(o@, k@) == outcome_for(o@.skip(i as int), k@),
        decreases o.len() - i,
    {
        if same_str(o[i].0.as_str(), k) {
            return Some(o[i].1);
        }
        assert(o@.skip(i as int).drop_first() =~= o@.skip(i + 1));
        i = i + 1;
    }
    None
}

impl PluginManager {
    /// What the runtime needs to instantiate each plugin of `order`.
    fn requests_for(&self, order: &Vec<String>) -> (requests: Vec<InstantiateRequest>)
        requires
            self.wf(),
            forall|k: Seq<char>| #[trigger] strs(order@).contains(k) ==> self.graph().contains_key(k),
        ensures
            requests.len() == order.len(),
            forall|t: int|
                0 <= t < requests.len() ==> request_ok(
                    self.graph(),
                    order@[t]@,
                    #[trigger] requests@[t],
                ),
    {
        let mut requests: Vec<InstantiateRequest> = Vec::new();
        let mut t: usize = 0;
        while t < order.len()
            invariant
                self.wf(),
                t <= order.len(),
                requests.len() == t,
                forall|u: int|
                    0 <= u < t ==> request_ok(
                        self.graph(),
                        order@[u]@,
                        #[trigger] requests@[u],
                    ),
                forall|k: Seq<char>| #[trigger] strs(order@).contains(k) ==> self.graph().contains_key(k),
            decreases order.len() - t,
        {
            assert(strs(order@)[t as int] == order@[t as int]@);
            assert(strs(order@).contains(order@[t as int]@));
            let found = self.find(order[t].as_str());
            if found.is_none() {
                assert(self.has_key(order@[t as int]@)) by {
                    self.lemma_graph_key(order@[t as int]@);
                }
                assert(false);
                return requests;
            }
            let i = found.unwrap();
            proof {
                self.lemma_graph_at(i as int);
            }
            let p = &self.plugins[i];
            let req = InstantiateRequest {
                key: order[t].clone(),
                path: p.path.clone(),
                main_class: p.main_class.clone(),
                classpath: self.classpath_string_for(p),
                libraries: self.library_string_for(p),
            };
            let ghost r0 = requests@;
            requests.push(req);
            assert forall|u: int| 0 <= u < t + 1 implies request_ok(
                self.graph(),
                order@[u]@,
                #[trigger] requests@[u],
            ) by {
                if u < t {
                    assert(requests@[u] == r0[u]);
                }
            }
            t = t + 1;
        }
        requests
    }

    /// Resolves the load order (marking `Errored` the plugins it leaves
    /// out) and lists, in that order, what the runtime needs to instantiate
    /// each plugin.
    pub fn instantiate_all_plugins(&mut self) -> (r: InstantiatePass)
        requires
            old(self).wf(),
        ensures
            final(self).wf(),
            final(self).keys@ == old(self).keys@,
            final(self).plugins.len() == old(self).plugins.len(),
            forall|i: int|
                0 <= i < old(self).plugins.len() ==> #[trigger] final(self).plugins@[i] == with_state(
                    old(self).plugins@[i],
                    if crate::resolver::is_active(old(self).graph(), old(self).keys@[i]@) {
                        old(self).plugins@[i].state
                    } else {
                        PluginState::Errored
                    },
                ),
            is_load_order(old(self).graph(), strs(r.plan.order@), r.plan.cycle_start as int),
            strs(r.plan.skipped@) == inactive_keys(old(self).graph(), old(self).keys@, old(self).keys.len() as int),
            r.requests.len() == r.plan.order.len(),
            forall|t: int|
                0 <= t < r.requests.len() ==> request_ok(
                    final(self).graph(),
                    r.plan.order@[t]@,
                    #[trigger] r.requests@[t],
                ),
    {
        let plan = self.compute_load_order();
        let requests = self.requests_for(&plan.order);
        InstantiatePass { plan, requests }
    }

    /// Records what instantiating the plugin under `key` gave: its handle,
    /// and it is loaded; or nothing, and it is errored. The result says
    /// whether there was such a plugin.
    pub fn record_instantiation(&mut self, key: &str, handle: Option<u64>) -> (r: bool)
        requires
            old(self).wf(),
        ensures
            final(self).wf(),
            final(self).keys@ == old(self).keys@,
            final(self).plugins.len() == old(self).plugins.len(),
            r == old(self).has_key(key@),
            forall|i: int|
                0 <= i < old(self).plugins.len() ==> #[trigger] final(self).plugins@[i] == if old(
                    self,
                ).keys@[i]@ == key@ {
                    match handle {
                        Some(h) => Plugin {
                            instance: Some(h),
                            state: PluginState::Loaded,
                            ..old(self).plugins@[i]
                        },
                        None => with_state(old(self).plugins@[i], PluginState::Errored),
                    }
                } else {
                    old(self).plugins@[i]
                },
    {
        match self.find(key) {
            Some(i) => {
                match handle {
                    Some(h) => {
                        self.plugins[i].instance = Some(h);
                        self.plugins[i].state = PluginState::Loaded;
                    },
                    None => {
                        self.plugins[i].state = PluginState::Errored;
                    },
                }
                proof {
                    assert forall|j: int| 0 <= j < self.keys.len() implies (#[trigger] self.keys@[j])@
                        == crate::text::normalized(self.plugins@[j].name@) by {
                        assert(old(self).keys@[j]@ == crate::text::normalized(old(self).plugins@[j].name@));
                    }
                }
                true
            },
            None => false,
        }
    }

    /// The keys of the plugins that have an instance, in registry order.
    pub fn enable_targets(&self) -> (r: Vec<String>)
        requires
            self.wf(),
        ensures
            strs(r@) == instance_keys(self.keys@, self.plugins@, self.keys.len() as int),
            forall|k: Seq<char>|
                #[trigger] strs(r@).contains(k) <==> (self.graph().contains_key(k)
                    && self.graph()[k].instance is Some),
    {
        let mut r: Vec<String> = Vec::new();
        let mut i: usize = 0;
        while i < self.plugins.len()
            invariant
                self.wf(),
                i <= self.plugins.len(),
                strs(r@) == instance_keys(self.keys@, self.plugins@, i as int),
                forall|k: Seq<char>|
                    #[trigger] strs(r@).contains(k) <==> exists|j: int|
                        0 <= j < i && (#[trigger] self.keys@[j])@ == k && self.plugins@[j].instance is Some,
            decreases self.plugins.len() - i,
        {
            if self.plugins[i].instance.is_some() {
                let ghost r0 = strs(r@);
                assert(forall|k: Seq<char>|
                    #[trigger] r0.contains(k) <==> exists|j: int|
                        0 <= j < i && (#[trigger] self.keys@[j])@ == k && self.plugins@[j].instance is Some);
                r.push(self.keys[i].clone());
                assert(strs(r@) =~= r0.push(self.keys@[i as int]@));
                assert forall|k: Seq<char>|
                    #[trigger] strs(r@).contains(k) <==> exists|j: int|
                        0 <= j < i + 1 && (#[trigger] self.keys@[j])@ == k && self.plugins@[j].instance is Some by {
                    if strs(r@).contains(k) && k != self.keys@[i as int]@ {
                        let t = choose|t: int| 0 <= t < strs(r@).len() && strs(r@)[t] == k;
                        assert(r0[t] == k);
                        assert(r0.contains(k));
                    }
                    if exists|j: int| 0 <= j < i && (#[trigger] self.keys@[j])@ == k && self.plugins@[j].instance is Some {
                        assert(r0.contains(k));
                        let t = choose|t: int| 0 <= t < r0.len() && r0[t] == k;
                        assert(strs(r@)[t] == k);
                    }
                    if k == self.keys@[i as int]@ {
                        assert(strs(r@)[r0.len() as int] == k);
                    }
                }
            }
            i = i + 1;
        }
        assert forall|k: Seq<char>|
            #[trigger] strs(r@).contains(k) <==> (self.graph().contains_key(k) && self.graph()[k].instance is Some) by {
            if self.graph().contains_key(k) && self.graph()[k].instance is Some {
                self.lemma_graph_key(k);
            }
            if strs(r@).contains(k) {
                let j = choose|j: int|
                    0 <= j < i && (#[trigger] self.keys@[j])@ == k && self.plugins@[j].instance is Some;
                self.lemma_graph_at(j);
            }
        }
        r
    }

    /// Applies the outcomes of an enable pass: a plugin with an instance is
    /// enabled when its own call succeeded and errored when it failed; a
    /// failure touches no other plugin.
    pub fn enable_all_plugins(&mut self, outcomes: &Vec<(String, bool)>)
        requires
            old(self).wf(),
        ensures
            final(self).wf(),
            final(self).keys@ == old(self).keys@,
            final(self).plugins.len() == old(self).plugins.len(),
            forall|i: int|
                0 <= i < old(self).plugins.len() ==> #[trigger] final(self).plugins@[i] == with_state(
                    old(self).plugins@[i],
                    enabled_state(old(self).plugins@[i], outcome_for(outcomes@, old(self).keys@[i]@)),
                ),
    {
        let ghost before = *self;
        let mut i: usize = 0;
        while i < self.plugins.len()
            invariant
                before.wf(),
                self.keys@ == before.keys@,
                self.plugins.len() == before.plugins.len(),
                i <= self.plugins.len(),
                forall|j: int|
                    0 <= j < self.plugins.len() ==> #[trigger] self.plugins@[j] == if j < i {
                        with_state(
                            before.plugins@[j],
                            enabled_state(before.plugins@[j], outcome_for(outcomes@, before.keys@[j]@)),
                        )
                    } else {
                        before.plugins@[j]
                    },
            decreases self.plugins.len() - i,
        {
            if self.plugins[i].instance.is_some() {
                match lookup_outcome(outcomes, self.keys[i].as_str()) {
                    Some(true) => {
                        self.plugins[i].state = PluginState::Enabled;
                    },
                    Some(false) => {
                        self.plugins[i].state = PluginState::Errored;
                    },
                    None => {},
                }
            }
            i = i + 1;
        }
        proof {
            assert forall|j: int| 0 <= j < self.keys.len() implies (#[trigger] self.keys@[j])@
                == crate::text::normalized(self.plugins@[j].name@) by {
                assert(before.keys@[j]@ == crate::text::normalized(before.plugins@[j].name@));
            }
        }
    }

    /// Ends a disable pass: every plugin with an instance is disabled, a
    /// failed disable call included.
    pub fn disable_all_plugins(&mut self)
        requires
            old(self).wf(),
        ensures
            final(self).wf(),
            final(self).keys@ == old(self).keys@,
            final(self).plugins.len() == old(self).plugins.len(),
            forall|i: int|
                0 <= i < old(self).plugins.len() ==> #[trigger] final(self).plugins@[i] == with_state(
                    old(self).plugins@[i],
                    disabled_state(old(self).plugins@[i]),
                ),
    {
        let ghost before = *self;
        let mut i: usize = 0;
        while i < self.plugins.len()
            invariant
                before.wf(),
                self.keys@ == before.keys@,
                self.plugins.len() == before.plugins.len(),
                i <= self.plugins.len(),
                forall|j: int|
                    0 <= j < self.plugins.len() ==> #[trigger] self.plugins@[j] == if j < i {
                        with_state(before.plugins@[j], disabled_state(before.plugins@[j]))
                    } else {
                        before.plugins@[j]
                    },
            decreases self.plugins.len() - i,
        {
            if self.plugins[i].instance.is_some() {
                self.plugins[i].state = PluginState::Disabled;
            }
            i = i + 1;
        }
        proof {
            assert forall|j: int| 0 <= j < self.keys.len() implies (#[trigger] self.keys@[j])@
                == crate::text::normalized(self.plugins@[j].name@) by {
                assert(before.keys@[j]@ == crate::text::normalized(before.plugins@[j].name@));
            }
        }
    }
}

} // verus!

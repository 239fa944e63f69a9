use vstd::prelude::*;

verus! {

/// Immutable descriptor of one component: the key it is known by, the
/// provider that builds its value, and an optional notifier that forwards
/// lifecycle events to it.
///
/// The registry never calls `provider` or `notify` itself: it only carries
/// them, so that the code driving it can invoke them.
pub struct BeanDefinition<P, N> {
    pub name: String,
    pub provider: P,
    pub notify: Option<N>,
}

impl<P, N> BeanDefinition<P, N> {
    pub fn new(name: String, provider: P, notify: Option<N>) -> (r: Self)
        ensures
            r.name == name,
            r.provider == provider,
            r.notify == notify,
    {
        BeanDefinition { name, provider, notify }
    }

    pub open spec fn key(&self) -> Seq<char> {
        self.name@
    }
}

/// Which of the two events of the injection protocol a dispatch carries.
#[derive(PartialEq, Eq, Structural, Clone, Copy, Debug)]
pub enum Phase {
    Inject,
    Complete,
}

/// One event to hand to the notifier of the definition at `index`.
#[derive(PartialEq, Eq, Structural, Clone, Copy, Debug)]
pub struct Dispatch {
    pub index: usize,
    pub phase: Phase,
}

/// Position of `k` in `keys`, if it occurs there.
pub open spec fn key_position(keys: Seq<Seq<char>>, k: Seq<char>) -> Option<int> {
    if exists|i: int| 0 <= i < keys.len() && keys[i] == k {
        Some(choose|i: int| 0 <= i < keys.len() && keys[i] == k)
    } else {
        None
    }
}

pub open spec fn keys_unique(keys: Seq<Seq<char>>) -> bool {
    forall|i: int, j: int| 0 <= i < keys.len() && 0 <= j < keys.len() && i != j ==> keys[i] != keys[j]
}

/// The value stored beside `k`, where `keys` and `values` run side by side.
pub open spec fn lookup_in<V>(keys: Seq<Seq<char>>, values: Seq<Option<V>>, k: Seq<char>) -> Option<V> {
    match key_position(keys, k) {
        Some(i) => values[i],
        None => None,
    }
}

/// The `Inject` dispatch for the definition at `t`.
pub open spec fn inject_to(t: usize) -> Dispatch {
    Dispatch { index: t, phase: Phase::Inject }
}

/// The `Complete` dispatch for the definition at `t`.
pub open spec fn complete_to(t: usize) -> Dispatch {
    Dispatch { index: t, phase: Phase::Complete }
}

/// The dispatches of one injection round over `targets`: every target gets
/// `Inject`, in order, and only then every target gets `Complete`.
pub open spec fn injection_round(targets: Seq<usize>) -> Seq<Dispatch> {
    targets.map_values(|i: usize| inject_to(i)) + targets.map_values(|i: usize| complete_to(i))
}

/// Among unique keys, the position of a key is the one index that holds it.
pub proof fn lemma_position_is_index(keys: Seq<Seq<char>>, k: Seq<char>, i: int)
    requires
        keys_unique(keys),
        0 <= i < keys.len(),
        keys[i] == k,
    ensures
        key_position(keys, k) == Some(i),
{
}

/// The abstract state of a registry: the definitions, in the order in which
/// their keys were first registered, and beside each the instance that the
/// last `Init` left for it.
pub struct FactoryState<P, N, V> {
    pub definitions: Seq<BeanDefinition<P, N>>,
    pub instances: Seq<Option<V>>,
}

impl<P, N, V> FactoryState<P, N, V> {
    pub open spec fn keys(self) -> Seq<Seq<char>> {
        self.definitions.map_values(|d: BeanDefinition<P, N>| d.name@)
    }

    pub open spec fn wf(self) -> bool {
        &&& self.instances.len() == self.definitions.len()
        &&& keys_unique(self.keys())
    }

    pub open spec fn empty() -> Self {
        FactoryState { definitions: Seq::empty(), instances: Seq::empty() }
    }

    pub open spec fn contains_key(self, k: Seq<char>) -> bool {
        self.keys().contains(k)
    }

    /// The current instance under `k`: absent when `k` was never registered
    /// or no `Init` has produced a value for it.
    pub open spec fn lookup(self, k: Seq<char>) -> Option<V> {
        lookup_in(self.keys(), self.instances, k)
    }

    /// The definition registered under `k`, if any.
    pub open spec fn definition_of(self, k: Seq<char>) -> Option<BeanDefinition<P, N>> {
        match key_position(self.keys(), k) {
            Some(i) => Some(self.definitions[i]),
            None => None,
        }
    }

    /// Registering upserts: a known key has its definition replaced in place
    /// and keeps its instance; a new key is appended with no instance.
    pub open spec fn register(self, def: BeanDefinition<P, N>) -> Self {
        match key_position(self.keys(), def.name@) {
            Some(i) => FactoryState {
                definitions: self.definitions.update(i, def),
                instances: self.instances,
            },
            None => FactoryState {
                definitions: self.definitions.push(def),
                instances: self.instances.push(None),
            },
        }
    }

    /// `Init` with `outcomes[i]` the value that the provider of the `i`-th
    /// definition returned: a value replaces the instance, no value leaves it.
    pub open spec fn init(self, outcomes: Seq<Option<V>>) -> Self {
        FactoryState {
            definitions: self.definitions,
            instances: Seq::new(
                self.instances.len(),
                |i: int|
                    if outcomes[i] is Some {
                        outcomes[i]
                    } else {
                        self.instances[i]
                    },
            ),
        }
    }

    /// Whether the `i`-th definition takes part in the injection protocol:
    /// it has a notifier and an instance to notify.
    pub open spec fn is_target(self, i: int) -> bool {
        self.definitions[i].notify is Some && self.instances[i] is Some
    }

    /// The targets among the first `n` definitions, in order.
    pub open spec fn targets_upto(self, n: int) -> Seq<usize>
        decreases n,
    {
        if n <= 0 {
            Seq::empty()
        } else if self.is_target(n - 1) {
            self.targets_upto(n - 1).push((n - 1) as usize)
        } else {
            self.targets_upto(n - 1)
        }
    }

    pub open spec fn targets(self) -> Seq<usize> {
        self.targets_upto(self.definitions.len() as int)
    }

    /// What an `Init` dispatches once the instances are in place.
    pub open spec fn dispatch_plan(self) -> Seq<Dispatch> {
        injection_round(self.targets())
    }
}

/// An immutable, point-in-time view of the instances, handed to components
/// with `Inject`: a component looks its peers up in it by key.
pub struct FactoryData<V> {
    names: Vec<String>,
    values: Vec<Option<V>>,
}

impl<V> FactoryData<V> {
    closed spec fn keys(&self) -> Seq<Seq<char>> {
        self.names@.map_values(|s: String| s@)
    }

    pub closed spec fn wf(&self) -> bool {
        &&& self.values@.len() == self.names@.len()
        &&& keys_unique(self.keys())
    }

    /// Looks `name` up: the value stored under it, or none when the key had
    /// no instance when the snapshot was taken.
    pub fn get_by_name(&self, name: &String) -> (r: Option<&V>)
        requires
            self.wf(),
        ensures
            match r {
                Some(v) => self@.contains_key(name@) && self@[name@] == *v,
                None => !self@.contains_key(name@),
            },
    {
        let n = self.names.len();
        let mut i: usize = 0;
        while i < n
            invariant
                n == self.names@.len(),
                self.wf(),
                0 <= i <= n,
                forall|j: int| 0 <= j < i ==> self.keys()[j] != name@,
            decreases n - i,
        {
            if self.names[i] == *name {
                proof {
                    lemma_position_is_index(self.keys(), name@, i as int);
                }
                return match &self.values[i] {
                    Some(v) => Some(v),
                    None => None,
                };
            }
            i = i + 1;
        }
        None
    }
}

impl<V> View for FactoryData<V> {
    type V = Map<Seq<char>, V>;

    closed spec fn view(&self) -> Map<Seq<char>, V> {
        Map::new(
            |k: Seq<char>| lookup_in(self.keys(), self.values@, k) is Some,
            |k: Seq<char>| lookup_in(self.keys(), self.values@, k).unwrap(),
        )
    }
}

/// The registry: it owns the definitions and the instances, and decides what
/// each operation does to them. Its caller serialises the operations and
/// performs the calls into providers and notifiers.
pub struct BeanFactoryCore<P, N, V> {
    bean_definitions: Vec<BeanDefinition<P, N>>,
    beans: Vec<Option<V>>,
}

impl<P, N, V> View for BeanFactoryCore<P, N, V> {
    type V = FactoryState<P, N, V>;

    closed spec fn view(&self) -> FactoryState<P, N, V> {
        FactoryState { definitions: self.bean_definitions@, instances: self.beans@ }
    }
}

impl<P, N, V> BeanFactoryCore<P, N, V> {
    pub open spec fn wf(&self) -> bool {
        self@.wf()
    }

    /// An empty registry: no definitions, no instances.
    pub fn new() -> (r: Self)
        ensures
            r.wf(),
            r@ == FactoryState::<P, N, V>::empty(),
    {
        let r = BeanFactoryCore { bean_definitions: Vec::new(), beans: Vec::new() };
        assert(r@.keys() =~= Seq::empty());
        assert(r@.definitions =~= Seq::empty());
        assert(r@.instances =~= Seq::empty());
        r
    }

    /// The position of the definition registered under `name`.
    fn position(&self, name: &String) -> (r: Option<usize>)
        requires
            self.wf(),
        ensures
            match r {
                Some(i) => key_position(self@.keys(), name@) == Some(i as int),
                None => key_position(self@.keys(), name@) is None,
            },
    {
        let n = self.bean_definitions.len();
        let mut i: usize = 0;
        while i < n
            invariant
                n == self.bean_definitions@.len(),
                self.wf(),
                0 <= i <= n,
                forall|j: int| 0 <= j < i ==> self@.keys()[j] != name@,
            decreases n - i,
        {
            if self.bean_definitions[i].name == *name {
                proof {
                    lemma_position_is_index(self@.keys(), name@, i as int);
                }
                return Some(i);
            }
            i = i + 1;
        }
        None
    }

    /// Register: upsert the definition under its key. Nothing is instantiated.
    pub fn register(&mut self, bean: BeanDefinition<P, N>)
        requires
            old(self).wf(),
        ensures
            final(self).wf(),
            final(self)@ == old(self)@.register(bean),
    {
        let ghost before = self@;
        let ghost key = bean.name@;
        match self.position(&bean.name) {
            Some(i) => {
                self.bean_definitions.set(i, bean);
                assert(self@.keys() =~= before.keys().update(i as int, key));
            },
            None => {
                self.bean_definitions.push(bean);
                self.beans.push(None);
                assert(self@.keys() =~= before.keys().push(key));
                assert(!before.keys().contains(key));
            },
        }
        assert(self@ == before.register(bean));
    }

    /// The definitions, in the order in which their keys were first registered.
    pub fn bean_definitions(&self) -> (r: &[BeanDefinition<P, N>])
        ensures
            r@ == self@.definitions,
    {
        self.bean_definitions.as_slice()
    }

    /// The number of registered definitions.
    pub fn len(&self) -> (r: usize)
        ensures
            r == self@.definitions.len(),
    {
        self.bean_definitions.len()
    }

    /// The instance beside the `i`-th definition.
    pub fn instance_at(&self, i: usize) -> (r: Option<&V>)
        requires
            self.wf(),
            i < self@.definitions.len(),
        ensures
            match r {
                Some(v) => self@.instances[i as int] == Some(*v),
                None => self@.instances[i as int] is None,
            },
    {
        match &self.beans[i] {
            Some(v) => Some(v),
            None => None,
        }
    }

    /// Query by key: the current instance, absent when the key was never
    /// registered or never instantiated.
    pub fn query_bean(&self, name: &String) -> (r: Option<&V>)
        requires
            self.wf(),
        ensures
            match r {
                Some(v) => self@.lookup(name@) == Some(*v),
                None => self@.lookup(name@) is None,
            },
    {
        match self.position(name) {
            Some(i) => self.instance_at(i),
            None => None,
        }
    }

    /// The keys of all registered definitions (not only instantiated ones).
    pub fn query_bean_names(&self) -> (r: Vec<String>)
        requires
            self.wf(),
        ensures
            r@.map_values(|s: String| s@) == self@.keys(),
    {
        let n = self.bean_definitions.len();
        let mut names: Vec<String> = Vec::new();
        let mut i: usize = 0;
        while i < n
            invariant
                n == self.bean_definitions@.len(),
                0 <= i <= n,
                names@.len() == i,
                forall|j: int| 0 <= j < i ==> names@[j]@ == self@.keys()[j],
            decreases n - i,
        {
            names.push(self.bean_definitions[i].name.clone());
            i = i + 1;
        }
        assert(names@.map_values(|s: String| s@) =~= self@.keys());
        names
    }

    /// The snapshot sent with `Inject`: every key that has an instance, each
    /// with a clone of it; no other key.
    pub fn snapshot(&self) -> (r: FactoryData<V>)
        where
            V: Clone,
        requires
            self.wf(),
        ensures
            r.wf(),
            forall|k: Seq<char>| #[trigger] r@.contains_key(k) == (self@.lookup(k) is Some),
            forall|k: Seq<char>|
                #[trigger] r@.contains_key(k) ==> cloned(self@.lookup(k).unwrap(), r@[k]),
    {
        let n = self.bean_definitions.len();
        let mut names: Vec<String> = Vec::new();
        let mut values: Vec<Option<V>> = Vec::new();
        let mut i: usize = 0;
        while i < n
            invariant
                n == self.bean_definitions@.len(),
                self.wf(),
                0 <= i <= n,
                names@.len() == i,
                values@.len() == i,
                forall|j: int| 0 <= j < i ==> names@[j]@ == self@.keys()[j],
                forall|j: int|
                    0 <= j < i ==> (values@[j] is Some) == (self@.instances[j] is Some),
                forall|j: int|
                    0 <= j < i && values@[j] is Some ==> cloned(
                        self@.instances[j].unwrap(),
                        values@[j].unwrap(),
                    ),
            decreases n - i,
        {
            names.push(self.bean_definitions[i].name.clone());
            let value = match &self.beans[i] {
                Some(v) => Some(v.clone()),
                None => None,
            };
            values.push(value);
            i = i + 1;
        }
        let r = FactoryData { names, values };
        assert(r.keys() =~= self@.keys());
        assert forall|k: Seq<char>| #[trigger] r@.contains_key(k) == (self@.lookup(k) is Some) && (
        r@.contains_key(k) ==> cloned(self@.lookup(k).unwrap(), r@[k])) by {
            match key_position(self@.keys(), k) {
                Some(p) => {
                    lemma_position_is_index(self@.keys(), k, p);
                },
                None => {},
            }
        }
        r
    }

    /// The dispatches of one injection round over the current state.
    pub fn dispatch_plan(&self) -> (r: Vec<Dispatch>)
        requires
            self.wf(),
        ensures
            r@ == self@.dispatch_plan(),
    {
        let n = self.bean_definitions.len();
        let mut targets: Vec<usize> = Vec::new();
        let mut i: usize = 0;
        while i < n
            invariant
                n == self.bean_definitions@.len(),
                self.wf(),
                0 <= i <= n,
                targets@ == self@.targets_upto(i as int),
            decreases n - i,
        {
            if self.bean_definitions[i].notify.is_some() && self.beans[i].is_some() {
                targets.push(i);
            }
            i = i + 1;
        }
        let mut plan: Vec<Dispatch> = Vec::new();
        let mut j: usize = 0;
        while j < targets.len()
            invariant
                0 <= j <= targets@.len(),
                plan@ == targets@.subrange(0, j as int).map_values(
                    |t: usize| Dispatch { index: t, phase: Phase::Inject },
                ),
            decreases targets@.len() - j,
        {
            plan.push(Dispatch { index: targets[j], phase: Phase::Inject });
            assert(targets@.subrange(0, j + 1) =~= targets@.subrange(0, j as int).push(targets@[j as int]));
            assert(plan@ =~= targets@.subrange(0, j + 1).map_values(
                |t: usize| Dispatch { index: t, phase: Phase::Inject },
            ));
            j = j + 1;
        }
        let ghost injects = plan@;
        let mut j: usize = 0;
        while j < targets.len()
            invariant
                0 <= j <= targets@.len(),
                injects == targets@.map_values(|t: usize| Dispatch { index: t, phase: Phase::Inject }),
                plan@ == injects + targets@.subrange(0, j as int).map_values(
                    |t: usize| Dispatch { index: t, phase: Phase::Complete },
                ),
            decreases targets@.len() - j,
        {
            plan.push(Dispatch { index: targets[j], phase: Phase::Complete });
            assert(targets@.subrange(0, j + 1) =~= targets@.subrange(0, j as int).push(targets@[j as int]));
            assert(plan@ =~= injects + targets@.subrange(0, j + 1).map_values(
                |t: usize| Dispatch { index: t, phase: Phase::Complete },
            ));
            j = j + 1;
        }
        assert(targets@.subrange(0, targets@.len() as int) =~= targets@);
        plan
    }

    /// Init: store each value that a provider returned beside its definition,
    /// then return the injection round to dispatch. `outcomes[i]` is what the
    /// provider of the `i`-th definition returned on this pass.
    pub fn init(&mut self, outcomes: Vec<Option<V>>) -> (plan: Vec<Dispatch>)
        requires
            old(self).wf(),
            outcomes@.len() == old(self)@.definitions.len(),
        ensures
            final(self).wf(),
            final(self)@ == old(self)@.init(outcomes@),
            plan@ == final(self)@.dispatch_plan(),
    {
        let ghost before = self@;
        let ghost all = outcomes@;
        let mut outcomes = outcomes;
        while outcomes.len() > 0
            invariant
                outcomes@.len() <= all.len(),
                outcomes@ == all.subrange(0, outcomes@.len() as int),
                self.bean_definitions@ == before.definitions,
                self.beans@.len() == before.instances.len(),
                all.len() == before.instances.len(),
                forall|j: int| 0 <= j < outcomes@.len() ==> self.beans@[j] == before.instances[j],
                forall|j: int|
                    outcomes@.len() <= j < all.len() ==> self.beans@[j] == before.init(all).instances[j],
            decreases outcomes@.len(),
        {
            let produced = outcomes.pop();
            let i = outcomes.len();
            match produced {
                Some(Some(v)) => {
                    self.beans.set(i, Some(v));
                },
                _ => {},
            }
        }
        assert(self.beans@ =~= before.init(all).instances);
        assert(self@.keys() =~= before.keys());
        self.dispatch_plan()
    }
}

/// A reply of the registry to a command.
pub enum BeanFactoryResult<V> {
    /// The command needed no answer.
    Done,
    BeanNames(Vec<String>),
    Bean(Option<V>),
}

/// What a request for the keys resolves to. `reply` is `None` when the
/// registry could not be reached, and otherwise what its handler returned;
/// every failure degrades to an empty list.
pub fn names_from_reply<V>(reply: Option<Option<BeanFactoryResult<V>>>) -> (r: Vec<String>)
    ensures
        match reply {
            Some(Some(BeanFactoryResult::BeanNames(names))) => r == names,
            _ => r@.len() == 0,
        },
{
    match reply {
        Some(Some(BeanFactoryResult::BeanNames(names))) => names,
        _ => Vec::new(),
    }
}

/// What a request for one instance resolves to: absent when the registry
/// could not be reached, or had nothing under the key.
pub fn bean_from_reply<V>(reply: Option<Option<V>>) -> (r: Option<V>)
    ensures
        r == match reply {
            Some(Some(v)) => Some(v),
            _ => None,
        },
{
    match reply {
        Some(Some(v)) => Some(v),
        _ => None,
    }
}

} // verus!

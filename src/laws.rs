use vstd::prelude::*;

use crate::registry::{
    complete_to, inject_to, injection_round, key_position, lemma_position_is_index,
    BeanDefinition, FactoryState, Phase,
};

verus! {

/// Registering keeps the state well formed: keys stay unique and every
/// definition keeps an instance slot beside it.
pub proof fn lemma_register_wf<P, N, V>(st: FactoryState<P, N, V>, def: BeanDefinition<P, N>)
    requires
        st.wf(),
    ensures
        st.register(def).wf(),
{
    let k = def.name@;
    let after = st.register(def);
    match key_position(st.keys(), k) {
        Some(i) => {
            assert(after.keys() =~= st.keys().update(i, k));
        },
        None => {
            assert(after.keys() =~= st.keys().push(k));
        },
    }
}

/// `Init` keeps the definitions, hence the keys, as they were.
pub proof fn lemma_init_wf<P, N, V>(st: FactoryState<P, N, V>, outcomes: Seq<Option<V>>)
    requires
        st.wf(),
    ensures
        st.init(outcomes).wf(),
        st.init(outcomes).keys() == st.keys(),
{
    assert(st.init(outcomes).keys() =~= st.keys());
}

/// Registering never changes what a query returns, for any key: instances
/// are made by `Init` alone.
pub proof fn lemma_register_keeps_instances<P, N, V>(
    st: FactoryState<P, N, V>,
    def: BeanDefinition<P, N>,
    k: Seq<char>,
)
    requires
        st.wf(),
    ensures
        st.register(def).lookup(k) == st.lookup(k),
{
    let after = st.register(def);
    lemma_register_wf(st, def);
    match key_position(st.keys(), def.name@) {
        Some(i) => {
            assert(after.keys() =~= st.keys().update(i, def.name@));
            assert(after.keys() =~= st.keys());
        },
        None => {
            assert(after.keys() =~= st.keys().push(def.name@));
            match key_position(st.keys(), k) {
                Some(j) => {
                    lemma_position_is_index(after.keys(), k, j);
                },
                None => {
                    if after.keys().contains(k) {
                        let j = choose|j: int| 0 <= j < after.keys().len() && after.keys()[j] == k;
                        lemma_position_is_index(after.keys(), k, j);
                    }
                },
            }
        },
    }
}

/// After `Init`, a key holds the value its own provider returned on that
/// pass, or, where it returned none, what the key held before.
pub proof fn lemma_init_lookup<P, N, V>(
    st: FactoryState<P, N, V>,
    outcomes: Seq<Option<V>>,
    k: Seq<char>,
)
    requires
        st.wf(),
        outcomes.len() == st.definitions.len(),
    ensures
        st.init(outcomes).lookup(k) == match key_position(st.keys(), k) {
            Some(i) => if outcomes[i] is Some {
                outcomes[i]
            } else {
                st.instances[i]
            },
            None => None,
        },
{
    lemma_init_wf(st, outcomes);
}

/// Distinct keys do not interfere: what the provider of `k2` returned on
/// an `Init` has no bearing on what a query of `k1` returns afterwards.
pub proof fn lemma_init_keys_independent<P, N, V>(
    st: FactoryState<P, N, V>,
    outcomes: Seq<Option<V>>,
    other: Seq<Option<V>>,
    k1: Seq<char>,
    k2: Seq<char>,
)
    requires
        st.wf(),
        k1 != k2,
        outcomes.len() == st.definitions.len(),
        other.len() == st.definitions.len(),
        forall|i: int| 0 <= i < st.definitions.len() && st.keys()[i] != k2 ==> outcomes[i] == other[i],
    ensures
        st.init(other).lookup(k1) == st.init(outcomes).lookup(k1),
{
    lemma_init_lookup(st, outcomes, k1);
    lemma_init_lookup(st, other, k1);
}

/// Registering under a key that is already known replaces its definition,
/// in place: the keys stay as they were, the key now maps to the new
/// definition, and every other key keeps its own. The next `Init` thus
/// calls the latest provider for that key, and no earlier one.
pub proof fn lemma_reregister_replaces<P, N, V>(
    st: FactoryState<P, N, V>,
    def: BeanDefinition<P, N>,
    k: Seq<char>,
)
    requires
        st.wf(),
        st.contains_key(def.name@),
    ensures
        st.register(def).wf(),
        st.register(def).keys() == st.keys(),
        st.register(def).definition_of(def.name@) == Some(def),
        k != def.name@ ==> st.register(def).definition_of(k) == st.definition_of(k),
{
    lemma_register_wf(st, def);
    let i = choose|i: int| 0 <= i < st.keys().len() && st.keys()[i] == def.name@;
    lemma_position_is_index(st.keys(), def.name@, i);
    assert(st.register(def).keys() =~= st.keys().update(i, def.name@));
    assert(st.register(def).keys() =~= st.keys());
}

/// A key that was never registered is absent, whatever has happened: a
/// lookup of it, in the registry or in a snapshot of it, resolves to
/// nothing rather than failing.
pub proof fn lemma_unregistered_absent<P, N, V>(st: FactoryState<P, N, V>, k: Seq<char>)
    requires
        !st.contains_key(k),
    ensures
        st.lookup(k) is None,
        st.definition_of(k) is None,
{
}

/// The targets among the first `n` definitions are, in increasing order,
/// exactly the indices below `n` of definitions with a notifier and an
/// instance.
pub proof fn lemma_targets_upto<P, N, V>(st: FactoryState<P, N, V>, n: int)
    requires
        0 <= n <= st.definitions.len() <= usize::MAX,
    ensures
        forall|t: usize| #[trigger]
            st.targets_upto(n).contains(t) <==> (t < n && st.is_target(t as int)),
        forall|a: int, b: int|
            0 <= a < b < st.targets_upto(n).len() ==> st.targets_upto(n)[a] < st.targets_upto(n)[b],
    decreases n,
{
    if n > 0 {
        lemma_targets_upto(st, n - 1);
        let prev = st.targets_upto(n - 1);
        let cur = st.targets_upto(n);
        let last = (n - 1) as usize;
        if st.is_target(n - 1) {
            assert(cur == prev.push(last));
            assert forall|t: usize| #[trigger] cur.contains(t) <==> (t < n && st.is_target(t as int)) by {
                if t == last {
                    assert(cur[prev.len() as int] == t);
                } else {
                    if cur.contains(t) {
                        let j = choose|j: int| 0 <= j < cur.len() && cur[j] == t;
                        assert(prev[j] == t);
                        assert(prev.contains(t));
                    }
                    if prev.contains(t) {
                        let j = choose|j: int| 0 <= j < prev.len() && prev[j] == t;
                        assert(cur[j] == t);
                    }
                }
            }
            assert forall|a: int, b: int| 0 <= a < b < cur.len() implies cur[a] < cur[b] by {
                if b == prev.len() {
                    assert(prev.contains(prev[a]));
                }
            }
        }
    }
}

/// One injection round over distinct targets: each target gets exactly one
/// `Inject` and exactly one `Complete`, the `Inject` strictly first, and
/// nothing else is dispatched.
pub proof fn lemma_round(targets: Seq<usize>)
    requires
        forall|a: int, b: int| 0 <= a < b < targets.len() ==> targets[a] < targets[b],
    ensures
        forall|p: int, q: int|
            0 <= p < injection_round(targets).len() && 0 <= q < injection_round(targets).len()
                && injection_round(targets)[p].index == injection_round(targets)[q].index
                && injection_round(targets)[p].phase == Phase::Inject
                && injection_round(targets)[q].phase == Phase::Complete ==> p < q,
        forall|p: int, q: int|
            0 <= p < injection_round(targets).len() && 0 <= q < injection_round(targets).len()
                && injection_round(targets)[p] == injection_round(targets)[q] ==> p == q,
        forall|t: usize| #[trigger]
            injection_round(targets).contains(inject_to(t)) <==> targets.contains(t),
        forall|t: usize| #[trigger]
            injection_round(targets).contains(complete_to(t)) <==> targets.contains(t),
{
    let plan = injection_round(targets);
    let m = targets.len();
    assert(plan.len() == 2 * m);
    assert forall|p: int| 0 <= p < 2 * m implies #[trigger] plan[p] == if p < m {
        inject_to(targets[p])
    } else {
        complete_to(targets[p - m])
    } by {}
    assert forall|p: int, q: int|
        0 <= p < plan.len() && 0 <= q < plan.len() && plan[p] == plan[q] implies p == q by {
        assert(plan[p] == if p < m {
            inject_to(targets[p])
        } else {
            complete_to(targets[p - m])
        });
        assert(plan[q] == if q < m {
            inject_to(targets[q])
        } else {
            complete_to(targets[q - m])
        });
        let pp = if p < m { p } else { p - m };
        let qq = if q < m { q } else { q - m };
        if pp < qq {
            assert(targets[pp] < targets[qq]);
        }
        if qq < pp {
            assert(targets[qq] < targets[pp]);
        }
    }
    assert forall|t: usize| #[trigger] plan.contains(inject_to(t)) <==> targets.contains(t) by {
        if targets.contains(t) {
            let j = choose|j: int| 0 <= j < m && targets[j] == t;
            assert(plan[j] == inject_to(t));
        }
        if plan.contains(inject_to(t)) {
            let j = choose|j: int| 0 <= j < plan.len() && plan[j] == inject_to(t);
            assert(plan[j] == if j < m {
                inject_to(targets[j])
            } else {
                complete_to(targets[j - m])
            });
            assert(targets[j] == t);
        }
    }
    assert forall|t: usize| #[trigger] plan.contains(complete_to(t)) <==> targets.contains(t) by {
        if targets.contains(t) {
            let j = choose|j: int| 0 <= j < m && targets[j] == t;
            assert(plan[j + m] == complete_to(t));
        }
        if plan.contains(complete_to(t)) {
            let j = choose|j: int| 0 <= j < plan.len() && plan[j] == complete_to(t);
            assert(plan[j] == if j < m {
                inject_to(targets[j])
            } else {
                complete_to(targets[j - m])
            });
            assert(targets[j - m] == t);
        }
    }
}

/// The injection protocol, for every number of components: each definition
/// that has a notifier and an instance gets exactly one `Inject` and exactly
/// one `Complete`, its `Inject` strictly first; no other definition gets
/// anything.
pub proof fn lemma_inject_before_complete<P, N, V>(st: FactoryState<P, N, V>)
    requires
        st.definitions.len() <= usize::MAX,
    ensures
        forall|p: int, q: int|
            0 <= p < st.dispatch_plan().len() && 0 <= q < st.dispatch_plan().len()
                && st.dispatch_plan()[p].index == st.dispatch_plan()[q].index
                && st.dispatch_plan()[p].phase == Phase::Inject && st.dispatch_plan()[q].phase
                == Phase::Complete ==> p < q,
        forall|p: int, q: int|
            0 <= p < st.dispatch_plan().len() && 0 <= q < st.dispatch_plan().len()
                && st.dispatch_plan()[p] == st.dispatch_plan()[q] ==> p == q,
        forall|t: usize| #[trigger]
            st.dispatch_plan().contains(inject_to(t)) <==> (t < st.definitions.len()
                && st.is_target(t as int)),
        forall|t: usize| #[trigger]
            st.dispatch_plan().contains(complete_to(t)) <==> (t < st.definitions.len()
                && st.is_target(t as int)),
{
    lemma_targets_upto(st, st.definitions.len() as int);
    lemma_round(st.targets());
}

} // verus!

use std::cell::RefCell;
use std::rc::Rc;

use bean_factory::registry::{
    bean_from_reply, names_from_reply, BeanDefinition, BeanFactoryCore, BeanFactoryResult,
    Dispatch, FactoryData, Phase,
};

/// A component as the tests see it: an identity, the peer it looked up on
/// `Inject`, and the events it received.
struct Bean {
    id: u32,
    peer_key: &'static str,
    peer: RefCell<Option<Rc<Bean>>>,
    events: RefCell<Vec<Phase>>,
}

type Value = Rc<Bean>;
type Provider = Box<dyn Fn() -> Option<Value>>;
type Notifier = fn(&Value, &FactoryData<Value>, Phase);
type Core = BeanFactoryCore<Provider, Notifier, Value>;

fn bean(id: u32, peer_key: &'static str) -> Value {
    Rc::new(Bean {
        id,
        peer_key,
        peer: RefCell::new(None),
        events: RefCell::new(Vec::new()),
    })
}

fn record(b: &Value, data: &FactoryData<Value>, phase: Phase) {
    if phase == Phase::Inject {
        let found = data.get_by_name(&b.peer_key.to_string()).cloned();
        *b.peer.borrow_mut() = found;
    }
    b.events.borrow_mut().push(phase);
}

fn plain(name: &str, id: u32) -> BeanDefinition<Provider, Notifier> {
    BeanDefinition::new(name.to_string(), Box::new(move || Some(bean(id, ""))), None)
}

fn addressable(name: &str, id: u32, peer_key: &'static str) -> BeanDefinition<Provider, Notifier> {
    BeanDefinition::new(
        name.to_string(),
        Box::new(move || Some(bean(id, peer_key))),
        Some(record as Notifier),
    )
}

/// Runs one `Init` the way a host does: call every provider, hand the
/// outcomes to the registry, then deliver the dispatches it returns.
fn run_init(core: &mut Core) -> Vec<Dispatch> {
    let outcomes: Vec<Option<Value>> =
        core.bean_definitions().iter().map(|d| (d.provider)()).collect();
    let plan = core.init(outcomes);
    let data = core.snapshot();
    for d in &plan {
        let notify = core.bean_definitions()[d.index].notify.unwrap();
        let instance = core.instance_at(d.index).unwrap();
        notify(instance, &data, d.phase);
    }
    plan
}

fn query(core: &Core, name: &str) -> Option<Value> {
    core.query_bean(&name.to_string()).cloned()
}

#[test]
fn plain_and_addressable_component_are_wired() {
    let mut core: Core = BeanFactoryCore::new();
    core.register(plain("A", 1));
    core.register(addressable("B", 2, "A"));
    run_init(&mut core);
    let a = query(&core, "A").expect("A is instantiated");
    assert_eq!(a.id, 1);
    let b = query(&core, "B").expect("B is instantiated");
    let peer = b.peer.borrow().clone().expect("B found A");
    assert!(Rc::ptr_eq(&peer, &a));
    assert_eq!(*b.events.borrow(), vec![Phase::Inject, Phase::Complete]);
    assert!(a.events.borrow().is_empty());
}

#[test]
fn init_twice_sends_two_rounds_and_fresh_instances() {
    let mut core: Core = BeanFactoryCore::new();
    core.register(addressable("B", 7, "missing"));
    run_init(&mut core);
    let first = query(&core, "B").unwrap();
    run_init(&mut core);
    let second = query(&core, "B").unwrap();
    assert!(!Rc::ptr_eq(&first, &second));
    let total = first.events.borrow().len() + second.events.borrow().len();
    assert_eq!(total, 4);
    assert_eq!(*first.events.borrow(), vec![Phase::Inject, Phase::Complete]);
    assert_eq!(*second.events.borrow(), vec![Phase::Inject, Phase::Complete]);
}

#[test]
fn keys_are_listed_before_init() {
    let mut core: Core = BeanFactoryCore::new();
    assert!(core.query_bean_names().is_empty());
    core.register(plain("x", 1));
    core.register(plain("y", 2));
    core.register(plain("z", 3));
    assert_eq!(core.query_bean_names(), vec!["x".to_string(), "y".to_string(), "z".to_string()]);
    assert!(query(&core, "x").is_none());
    assert!(query(&core, "y").is_none());
    assert!(query(&core, "z").is_none());
    assert_eq!(core.len(), 3);
}

#[test]
fn distinct_keys_hold_independent_values() {
    let mut core: Core = BeanFactoryCore::new();
    core.register(plain("k1", 10));
    core.register(plain("k2", 20));
    run_init(&mut core);
    let v1 = query(&core, "k1").unwrap();
    let v2 = query(&core, "k2").unwrap();
    assert_eq!(v1.id, 10);
    assert_eq!(v2.id, 20);
    assert!(!Rc::ptr_eq(&v1, &v2));
}

#[test]
fn reregistering_replaces_the_provider() {
    let mut core: Core = BeanFactoryCore::new();
    core.register(plain("A", 1));
    core.register(plain("A", 2));
    assert_eq!(core.query_bean_names(), vec!["A".to_string()]);
    run_init(&mut core);
    assert_eq!(query(&core, "A").unwrap().id, 2);
}

#[test]
fn query_twice_returns_the_same_instance() {
    let mut core: Core = BeanFactoryCore::new();
    core.register(plain("A", 1));
    run_init(&mut core);
    let first = query(&core, "A").unwrap();
    let second = query(&core, "A").unwrap();
    assert!(Rc::ptr_eq(&first, &second));
}

#[test]
fn every_notified_bean_gets_inject_before_complete() {
    let mut core: Core = BeanFactoryCore::new();
    core.register(addressable("a", 1, "b"));
    core.register(plain("p", 2));
    core.register(addressable("b", 3, "a"));
    core.register(addressable("c", 4, "p"));
    let plan = run_init(&mut core);
    assert_eq!(
        plan,
        vec![
            Dispatch { index: 0, phase: Phase::Inject },
            Dispatch { index: 2, phase: Phase::Inject },
            Dispatch { index: 3, phase: Phase::Inject },
            Dispatch { index: 0, phase: Phase::Complete },
            Dispatch { index: 2, phase: Phase::Complete },
            Dispatch { index: 3, phase: Phase::Complete },
        ]
    );
    for key in ["a", "b", "c"] {
        let v = query(&core, key).unwrap();
        assert_eq!(*v.events.borrow(), vec![Phase::Inject, Phase::Complete]);
    }
    let c = query(&core, "c").unwrap();
    assert_eq!(c.peer.borrow().as_ref().unwrap().id, 2);
}

#[test]
fn missing_peer_resolves_to_absent() {
    let mut core: Core = BeanFactoryCore::new();
    core.register(addressable("B", 1, "never-registered"));
    run_init(&mut core);
    let b = query(&core, "B").unwrap();
    assert!(b.peer.borrow().is_none());
    assert_eq!(*b.events.borrow(), vec![Phase::Inject, Phase::Complete]);
    let data = core.snapshot();
    assert!(data.get_by_name(&"never-registered".to_string()).is_none());
    assert!(query(&core, "never-registered").is_none());
}

#[test]
fn provider_without_value_leaves_key_absent() {
    let mut core: Core = BeanFactoryCore::new();
    let none: Provider = Box::new(|| None);
    core.register(BeanDefinition::new("n".to_string(), none, Some(record as Notifier)));
    let plan = run_init(&mut core);
    assert!(plan.is_empty());
    assert!(query(&core, "n").is_none());
    assert!(core.snapshot().get_by_name(&"n".to_string()).is_none());
    assert_eq!(core.query_bean_names(), vec!["n".to_string()]);
}

#[test]
fn provider_without_value_keeps_earlier_instance() {
    let mut core: Core = BeanFactoryCore::new();
    core.register(plain("A", 1));
    run_init(&mut core);
    let first = query(&core, "A").unwrap();
    let none: Provider = Box::new(|| None);
    core.register(BeanDefinition::new("A".to_string(), none, None));
    let plan = run_init(&mut core);
    assert!(plan.is_empty());
    assert!(Rc::ptr_eq(&query(&core, "A").unwrap(), &first));
}

#[test]
fn plain_component_is_not_notified() {
    let mut core: Core = BeanFactoryCore::new();
    core.register(plain("A", 1));
    let plan = run_init(&mut core);
    assert!(plan.is_empty());
    assert!(query(&core, "A").unwrap().events.borrow().is_empty());
}

#[test]
fn snapshot_holds_only_instantiated_keys() {
    let mut core: Core = BeanFactoryCore::new();
    core.register(plain("A", 1));
    assert!(core.snapshot().get_by_name(&"A".to_string()).is_none());
    run_init(&mut core);
    let data = core.snapshot();
    let a = data.get_by_name(&"A".to_string()).unwrap();
    assert!(Rc::ptr_eq(a, &query(&core, "A").unwrap()));
    assert!(data.get_by_name(&"B".to_string()).is_none());
}

#[test]
fn register_after_init_adds_key_without_instance() {
    let mut core: Core = BeanFactoryCore::new();
    core.register(plain("A", 1));
    run_init(&mut core);
    core.register(plain("B", 2));
    assert!(query(&core, "A").is_some());
    assert!(query(&core, "B").is_none());
    assert!(core.instance_at(1).is_none());
    run_init(&mut core);
    assert_eq!(query(&core, "B").unwrap().id, 2);
}

#[test]
fn names_reply_degrades_to_empty() {
    let names = vec!["a".to_string(), "b".to_string()];
    assert_eq!(
        names_from_reply::<u8>(Some(Some(BeanFactoryResult::BeanNames(names.clone())))),
        names
    );
    assert!(names_from_reply::<u8>(None).is_empty());
    assert!(names_from_reply::<u8>(Some(None)).is_empty());
    assert!(names_from_reply::<u8>(Some(Some(BeanFactoryResult::Done))).is_empty());
    assert!(names_from_reply::<u8>(Some(Some(BeanFactoryResult::Bean(Some(3))))).is_empty());
}

#[test]
fn bean_reply_degrades_to_absent() {
    assert_eq!(bean_from_reply(Some(Some(5u8))), Some(5));
    assert_eq!(bean_from_reply::<u8>(Some(None)), None);
    assert_eq!(bean_from_reply::<u8>(None), None);
}

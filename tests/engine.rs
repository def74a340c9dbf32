use ecstasy::components::{DebugFlag, Name};
use ecstasy::{Component, ComponentStore, Engine, System, SystemMut};
use std::sync::atomic::{AtomicUsize, Ordering};

#[derive(Debug, PartialEq)]
struct Counter(usize);

#[derive(Debug)]
enum Comp {
    Name(Name),
    Counter(Counter),
    Flag(DebugFlag),
}

impl Component<Comp> for Name {
    fn kind() -> usize {
        0
    }
    fn into_value(self) -> Comp {
        Comp::Name(self)
    }
    fn of_value(v: &Comp) -> Option<&Name> {
        match v {
            Comp::Name(x) => Some(x),
            _ => None,
        }
    }
    fn of_value_mut(v: &mut Comp) -> Option<&mut Name> {
        match v {
            Comp::Name(x) => Some(x),
            _ => None,
        }
    }
}

impl Component<Comp> for Counter {
    fn kind() -> usize {
        1
    }
    fn into_value(self) -> Comp {
        Comp::Counter(self)
    }
    fn of_value(v: &Comp) -> Option<&Counter> {
        match v {
            Comp::Counter(x) => Some(x),
            _ => None,
        }
    }
    fn of_value_mut(v: &mut Comp) -> Option<&mut Counter> {
        match v {
            Comp::Counter(x) => Some(x),
            _ => None,
        }
    }
}

impl Component<Comp> for DebugFlag {
    fn kind() -> usize {
        2
    }
    fn into_value(self) -> Comp {
        Comp::Flag(self)
    }
    fn of_value(v: &Comp) -> Option<&DebugFlag> {
        match v {
            Comp::Flag(x) => Some(x),
            _ => None,
        }
    }
    fn of_value_mut(v: &mut Comp) -> Option<&mut DebugFlag> {
        match v {
            Comp::Flag(x) => Some(x),
            _ => None,
        }
    }
}

struct AssertNameHas3Bytes;

impl System<Comp> for AssertNameHas3Bytes {
    fn run(&mut self, cs: &ComponentStore<Comp>, _dt: u64) {
        for entity in cs.iter_entities() {
            if let Some(name) = cs.get_component::<Name>(entity) {
                assert_eq!(name.0.len(), 3, "{:?}'s name should have 3 bytes", entity);
            }
        }
    }
}

struct IncrCounter;

impl SystemMut<Comp> for IncrCounter {
    fn run(&mut self, cs: &mut ComponentStore<Comp>, _dt: u64) {
        for entity in cs.iter_entities() {
            if let Some(counter) = cs.get_mut_component::<Counter>(entity) {
                counter.0 += 1;
            }
        }
    }
}

struct SumDebugCounters<'a>(&'a AtomicUsize);

impl<'a> System<Comp> for SumDebugCounters<'a> {
    fn run(&mut self, cs: &ComponentStore<Comp>, _dt: u64) {
        for entity in cs.iter_entities() {
            if let (Some(counter), Some(_)) = (
                cs.get_component::<Counter>(entity),
                cs.get_component::<DebugFlag>(entity),
            ) {
                let _ = self.0.fetch_add(counter.0, Ordering::SeqCst);
            }
        }
    }
}

/// Sets the counter of every entity to 1.
struct SetCountersToOne;

impl SystemMut<Comp> for SetCountersToOne {
    fn run(&mut self, cs: &mut ComponentStore<Comp>, _dt: u64) {
        for entity in cs.iter_entities() {
            cs.set_component(entity, Counter(1));
        }
    }
}

/// Records the counter of the first entity, plus one so that "nothing seen" is 0.
struct ObserveFirstCounter<'a>(&'a AtomicUsize);

impl<'a> System<Comp> for ObserveFirstCounter<'a> {
    fn run(&mut self, cs: &ComponentStore<Comp>, _dt: u64) {
        let first = cs.iter_entities()[0];
        let seen = cs.get_component::<Counter>(first).map(|c| c.0 + 1).unwrap_or(0);
        self.0.store(seen, Ordering::SeqCst);
    }
}

#[test]
fn counters_scenario() {
    let n = AtomicUsize::new(0);
    let mut engine = Engine::<Comp, _>::new()
        .add_mut_pass(IncrCounter)
        .build_par_pass()
        .add(AssertNameHas3Bytes)
        .add(SumDebugCounters(&n))
        .finish();

    let foo = engine.store.new_entity();
    let bar = engine.store.new_entity();
    let baz = engine.store.new_entity();

    engine.store.set_component(foo, Name("foo".to_string()));
    engine.store.set_component(bar, Name("bar".to_string()));
    engine.store.set_component(baz, Name("baz".to_string()));

    engine.store.set_component(foo, Counter(0));
    engine.store.set_component(bar, Counter(0));

    engine.store.set_component(foo, DebugFlag);
    engine.store.set_component(baz, DebugFlag);

    while n.load(Ordering::SeqCst) < 25 {
        engine.run_once();
    }

    assert_eq!(engine.store.get_component::<Name>(foo).map(|Name(s)| s as &str), Some("foo"));
    assert_eq!(engine.store.get_component::<Name>(bar).map(|Name(s)| s as &str), Some("bar"));
    assert_eq!(engine.store.get_component::<Name>(baz).map(|Name(s)| s as &str), Some("baz"));
    assert_eq!(engine.store.get_component::<Counter>(foo), Some(&Counter(7)));
    assert_eq!(engine.store.get_component::<Counter>(bar), Some(&Counter(7)));
    assert_eq!(engine.store.get_component::<Counter>(baz), None);
    assert_eq!(engine.store.get_component::<DebugFlag>(foo), Some(&DebugFlag));
    assert_eq!(engine.store.get_component::<DebugFlag>(bar), None);
    assert_eq!(engine.store.get_component::<DebugFlag>(baz), Some(&DebugFlag));
    assert_eq!(n.load(Ordering::SeqCst), 28);
}

#[test]
fn stages_run_in_registration_order() {
    let seen = AtomicUsize::new(0);
    let mut engine = Engine::<Comp, _>::new()
        .add_mut_pass(SetCountersToOne)
        .build_par_pass()
        .add(ObserveFirstCounter(&seen))
        .finish()
        .add_mut_pass(IncrCounter);
    let foo = engine.store.new_entity();
    engine.store.set_component(foo, Counter(0));

    engine.run_once();

    assert_eq!(engine.store.get_component::<Counter>(foo), Some(&Counter(2)));
    assert_eq!(seen.load(Ordering::SeqCst), 2);
}

#[test]
fn run_frame_runs_each_stage_once() {
    let mut engine = Engine::<Comp, _>::new().add_mut_pass(IncrCounter).add_mut_pass(IncrCounter);
    let foo = engine.store.new_entity();
    engine.store.set_component(foo, Counter(5));
    engine.run_frame(0);
    assert_eq!(engine.store.get_component::<Counter>(foo), Some(&Counter(7)));
    engine.run_frame(1_000_000);
    assert_eq!(engine.store.get_component::<Counter>(foo), Some(&Counter(9)));
}

#[test]
fn empty_engine_runs() {
    let mut engine = Engine::<Comp, _>::new();
    engine.run_once();
    assert!(engine.store.iter_entities().is_empty());
}

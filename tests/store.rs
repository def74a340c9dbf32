use cgmath::Point3;
use ecstasy::components::Name;
use ecstasy::unsafe_option_vec::UnsafeOptionVec;
use ecstasy::{Component, ComponentStore};
use std::sync::atomic::{AtomicBool, AtomicUsize, Ordering};
use std::sync::Arc;

#[derive(Debug)]
struct Position(Point3<f32>);

impl Position {
    fn new(x: f32, y: f32, z: f32) -> Position {
        Position(Point3::new(x, y, z))
    }
}

/// Counts live values: one more on creation, one fewer on drop.
#[derive(Debug)]
struct C(Arc<AtomicUsize>);

impl C {
    fn new(n: &Arc<AtomicUsize>) -> C {
        let _ = n.fetch_add(1, Ordering::SeqCst);
        C(n.clone())
    }
}

impl Drop for C {
    fn drop(&mut self) {
        let _ = self.0.fetch_sub(1, Ordering::SeqCst);
    }
}

/// Panics if dropped twice; the first drop of any `P` sharing the flag panics with "boom".
#[derive(Debug)]
struct P(bool, Arc<AtomicBool>);

impl Drop for P {
    fn drop(&mut self) {
        if self.0 {
            panic!("double-dropping!");
        }
        self.0 = true;

        if self.1.swap(false, Ordering::SeqCst) {
            panic!("boom");
        }
    }
}

#[derive(Debug)]
enum Comp {
    Name(Name),
    Position(Position),
    C(C),
    P(P),
}

impl Component<Comp> for Name {
    fn kind() -> usize {
        0
    }
    fn into_value(self) -> Comp {
        Comp::Name(self)
    }
    fn of_value(v: &Comp) -> Option<&Name> {
        match v {
            Comp::Name(x) => Some(x),
            _ => None,
        }
    }
    fn of_value_mut(v: &mut Comp) -> Option<&mut Name> {
        match v {
            Comp::Name(x) => Some(x),
            _ => None,
        }
    }
}

impl Component<Comp> for Position {
    fn kind() -> usize {
        1
    }
    fn into_value(self) -> Comp {
        Comp::Position(self)
    }
    fn of_value(v: &Comp) -> Option<&Position> {
        match v {
            Comp::Position(x) => Some(x),
            _ => None,
        }
    }
    fn of_value_mut(v: &mut Comp) -> Option<&mut Position> {
        match v {
            Comp::Position(x) => Some(x),
            _ => None,
        }
    }
}

impl Component<Comp> for C {
    fn kind() -> usize {
        2
    }
    fn into_value(self) -> Comp {
        Comp::C(self)
    }
    fn of_value(v: &Comp) -> Option<&C> {
        match v {
            Comp::C(x) => Some(x),
            _ => None,
        }
    }
    fn of_value_mut(v: &mut Comp) -> Option<&mut C> {
        match v {
            Comp::C(x) => Some(x),
            _ => None,
        }
    }
}

impl Component<Comp> for P {
    fn kind() -> usize {
        3
    }
    fn into_value(self) -> Comp {
        Comp::P(self)
    }
    fn of_value(v: &Comp) -> Option<&P> {
        match v {
            Comp::P(x) => Some(x),
            _ => None,
        }
    }
    fn of_value_mut(v: &mut Comp) -> Option<&mut P> {
        match v {
            Comp::P(x) => Some(x),
            _ => None,
        }
    }
}

#[test]
fn tests_create() {
    drop(ComponentStore::<Comp>::new());
}

#[test]
fn tests_simple() {
    let mut store = ComponentStore::<Comp>::new();

    let foo = store.new_entity();
    let bar = store.new_entity();

    store.set_component(foo, Name("Foo".to_string()));
    store.set_component(foo, Position::new(1.0, 2.0, 3.0));
    store.set_component(bar, Name("Bar".to_string()));
    store.set_component(bar, Position::new(1.0, 2.0, 3.0));

    store.remove_component::<Position>(foo);

    assert_eq!(
        store.get_component::<Name>(foo).map(|n| -> &str { &n.0 }),
        Some("Foo")
    );
    assert_eq!(store.get_component::<Position>(foo).map(|p| p.0), None);

    assert_eq!(
        store.get_component::<Name>(bar).map(|n| -> &str { &n.0 }),
        Some("Bar")
    );
    assert_eq!(
        store.get_component::<Position>(bar).map(|p| p.0),
        Some(Point3::new(1.0, 2.0, 3.0))
    );
}

#[test]
fn tests_dropping() {
    let n = Arc::new(AtomicUsize::new(0));

    let mut store = ComponentStore::<Comp>::new();
    let foo = store.new_entity();
    let bar = store.new_entity();

    store.set_component(foo, C::new(&n));
    assert_eq!(n.load(Ordering::SeqCst), 1);

    store.set_component(bar, C::new(&n));
    assert_eq!(n.load(Ordering::SeqCst), 2);

    store.set_component(foo, C::new(&n));
    assert_eq!(n.load(Ordering::SeqCst), 2);

    store.remove_component::<C>(bar);
    assert_eq!(n.load(Ordering::SeqCst), 1);

    drop(store);
    assert_eq!(n.load(Ordering::SeqCst), 0);
}

#[test]
#[should_panic(expected = "boom")]
fn no_double_drop() {
    let first_panic = Arc::new(AtomicBool::new(true));

    let mut store = ComponentStore::<Comp>::new();
    let foo = store.new_entity();
    store.set_component(foo, P(false, first_panic.clone()));
    store.set_component(foo, P(false, first_panic.clone()));
}

#[test]
fn growth_keeps_earlier_values() {
    let mut store = ComponentStore::<Comp>::new();
    let mut ids = Vec::new();
    for _ in 0..40 {
        ids.push(store.new_entity());
    }
    for (i, e) in ids.iter().enumerate() {
        store.set_component(*e, Name(format!("e{}", i)));
        for (j, f) in ids.iter().enumerate().take(i + 1) {
            let expected = format!("e{}", j);
            assert_eq!(
                store.get_component::<Name>(*f).map(|n| n.0.clone()),
                Some(expected)
            );
        }
    }
}

#[test]
fn fresh_entity_has_nothing() {
    let mut store = ComponentStore::<Comp>::new();
    let foo = store.new_entity();
    store.set_component(foo, Name("foo".to_string()));
    let bar = store.new_entity();
    assert!(store.get_component::<Name>(bar).is_none());
    assert!(store.get_component::<Position>(bar).is_none());
    assert!(store.get_component::<Position>(foo).is_none());
}

#[test]
fn overwrite_replaces_value() {
    let mut store = ComponentStore::<Comp>::new();
    let foo = store.new_entity();
    store.set_component(foo, Name("first".to_string()));
    store.set_component(foo, Name("second".to_string()));
    assert_eq!(
        store.get_component::<Name>(foo).map(|n| n.0.clone()),
        Some("second".to_string())
    );
}

#[test]
fn removing_absent_is_noop() {
    let mut store = ComponentStore::<Comp>::new();
    let foo = store.new_entity();
    let bar = store.new_entity();
    store.set_component(bar, Name("bar".to_string()));
    store.remove_component::<Name>(foo);
    store.remove_component::<Name>(foo);
    store.remove_component::<Position>(bar);
    assert!(store.get_component::<Name>(foo).is_none());
    assert_eq!(
        store.get_component::<Name>(bar).map(|n| n.0.clone()),
        Some("bar".to_string())
    );
}

#[test]
fn entity_ids_count_up_from_one() {
    let mut store = ComponentStore::<Comp>::new();
    let ids: Vec<usize> = (0..5).map(|_| store.new_entity().id()).collect();
    assert_eq!(ids, vec![1, 2, 3, 4, 5]);
    let e2 = store.iter_entities()[1];
    store.set_component(e2, Name("two".to_string()));
    store.remove_component::<Name>(e2);
    let listed: Vec<usize> = store.iter_entities().iter().map(|e| e.id()).collect();
    assert_eq!(listed, vec![1, 2, 3, 4, 5]);
    assert!(ComponentStore::<Comp>::new().iter_entities().is_empty());
}

#[test]
fn get_mut_component_writes_through() {
    let mut store = ComponentStore::<Comp>::new();
    let foo = store.new_entity();
    let bar = store.new_entity();
    store.set_component(foo, Name("foo".to_string()));
    if let Some(n) = store.get_mut_component::<Name>(foo) {
        n.0.push('!');
    }
    assert!(store.get_mut_component::<Name>(bar).is_none());
    assert!(store.get_mut_component::<Position>(foo).is_none());
    assert_eq!(
        store.get_component::<Name>(foo).map(|n| n.as_str().to_string()),
        Some("foo!".to_string())
    );
}

#[test]
fn slot_vec_grows_to_powers_of_two() {
    let mut v = UnsafeOptionVec::<u32>::new();
    assert_eq!(v.len(), 0);
    assert_eq!(v.get(0), None);
    *v.get_mut(0) = Some(10);
    assert_eq!(v.len(), 1);
    *v.get_mut(4) = Some(14);
    assert_eq!(v.len(), 8);
    assert_eq!(v.get(0), Some(&10));
    assert_eq!(v.get(4), Some(&14));
    assert_eq!(v.get(3), None);
    assert_eq!(*v.get_mut(7), None);
    assert_eq!(v.len(), 8);
    *v.get_mut(8) = Some(18);
    assert_eq!(v.len(), 16);
    assert_eq!(v.get(0), Some(&10));
    assert_eq!(v.get(4), Some(&14));
    assert_eq!(v.get(8), Some(&18));
    assert_eq!(v.get(100), None);
}

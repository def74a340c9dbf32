//! Stages of systems, composed in registration order, and the engine that runs them.

use crate::component_store::{ComponentStore, StoreModel};
use frunk::{HCons, HNil};
use std::time::{Duration, Instant};
use vstd::prelude::*;

verus! {

/// Relies on frunk's `HCons`: a struct of two public fields, `head` and `tail`. The stages
/// of an engine are a list of these, the last registered stage at the head.
#[verifier::external_type_specification]
pub struct ExHCons<H, T>(HCons<H, T>);

/// Relies on frunk's `HNil`: a struct without fields, the end of a list.
#[verifier::external_type_specification]
pub struct ExHNil(HNil);

/// Relies on std's `Instant`, a reading of the monotonic clock; nothing is assumed of its
/// contents.
#[verifier::external_type_specification]
#[verifier::external_body]
pub struct ExInstant(Instant);

/// A system that reads the store and does not change it. Systems of one parallel stage run
/// at the same time, each against the same store.
pub trait System<V>: Send + Sized {
    /// The system's state after one run against a store holding `cs`, `dt` nanoseconds after
    /// the previous frame.
    ///
    /// An implementation outside verified code leaves it unstated.
    closed spec fn observe(self, cs: StoreModel<V>, dt: u64) -> Self {
        arbitrary()
    }

    /// Runs the system, `dt` nanoseconds after the previous frame.
    fn run(&mut self, cs: &ComponentStore<V>, dt: u64)
        requires
            cs.wf(),
        ensures
            *final(self) == old(self).observe(cs.model(), dt),
    ;
}

/// A system that changes the store. It runs alone, with exclusive access.
pub trait SystemMut<V>: Sized {
    /// The system's state, and what the store holds, after one run on a store holding `cs`,
    /// `dt` nanoseconds after the previous frame.
    ///
    /// An implementation outside verified code leaves it unstated.
    closed spec fn step(self, cs: StoreModel<V>, dt: u64) -> (Self, StoreModel<V>) {
        arbitrary()
    }

    /// Runs the system, `dt` nanoseconds after the previous frame.
    fn run(&mut self, cs: &mut ComponentStore<V>, dt: u64)
        requires
            old(cs).wf(),
        ensures
            final(cs).wf(),
            (*final(self), final(cs).model()) == old(self).step(old(cs).model(), dt),
    ;
}

/// A stage that runs one `SystemMut` alone.
#[derive(Debug)]
pub struct Mut<T>(pub T);

/// A stage that runs a list of `System`s side by side.
#[derive(Debug)]
pub struct Par<T>(pub T);

impl<V> System<V> for HNil {
    open spec fn observe(self, cs: StoreModel<V>, dt: u64) -> Self {
        self
    }

    fn run(&mut self, cs: &ComponentStore<V>, dt: u64) {
    }
}

impl<V: Sync, H: System<V>, T: System<V>> System<V> for HCons<H, T> {
    open spec fn observe(self, cs: StoreModel<V>, dt: u64) -> Self {
        HCons { head: self.head.observe(cs, dt), tail: self.tail.observe(cs, dt) }
    }

    fn run(&mut self, cs: &ComponentStore<V>, dt: u64) {
        run_both(&mut self.head, &mut self.tail, cs, dt);
    }
}

/// Relies on rayon::join: it calls each closure once, possibly on two threads, and returns
/// once both have returned. What each run does is then what `System::run` promises.
#[verifier::external_body]
fn run_both<V: Sync, A: System<V>, B: System<V>>(
    a: &mut A,
    b: &mut B,
    cs: &ComponentStore<V>,
    dt: u64,
)
    requires
        cs.wf(),
    ensures
        *final(a) == old(a).observe(cs.model(), dt),
        *final(b) == old(b).observe(cs.model(), dt),
{
    let ((), ()) = rayon::join(|| a.run(cs, dt), || b.run(cs, dt));
}

impl<V> SystemMut<V> for HNil {
    open spec fn step(self, cs: StoreModel<V>, dt: u64) -> (Self, StoreModel<V>) {
        (self, cs)
    }

    fn run(&mut self, cs: &mut ComponentStore<V>, dt: u64) {
    }
}

impl<V, H: SystemMut<V>, T: SystemMut<V>> SystemMut<V> for HCons<Mut<H>, T> {
    /// The earlier stages (the tail) first, then this one.
    open spec fn step(self, cs: StoreModel<V>, dt: u64) -> (Self, StoreModel<V>) {
        let (t, cs1) = self.tail.step(cs, dt);
        let (h, cs2) = self.head.0.step(cs1, dt);
        (HCons { head: Mut(h), tail: t }, cs2)
    }

    fn run(&mut self, cs: &mut ComponentStore<V>, dt: u64) {
        self.tail.run(cs, dt);
        self.head.0.run(cs, dt);
    }
}

impl<V, H: System<V>, T: SystemMut<V>> SystemMut<V> for HCons<Par<H>, T> {
    /// The earlier stages (the tail) first, then every system of this one, on the store
    /// that they left.
    open spec fn step(self, cs: StoreModel<V>, dt: u64) -> (Self, StoreModel<V>) {
        let (t, cs1) = self.tail.step(cs, dt);
        (HCons { head: Par(self.head.0.observe(cs1, dt)), tail: t }, cs1)
    }

    fn run(&mut self, cs: &mut ComponentStore<V>, dt: u64) {
        self.tail.run(cs, dt);
        self.head.0.run(cs, dt);
    }
}

/// Wraps a `ComponentStore` and the stages that run over it.
#[derive(Debug)]
pub struct Engine<V, P> {
    /// The store that the stages run over.
    pub store: ComponentStore<V>,
    last_frame: Instant,
    passes: P,
}

/// A parallel stage being built: the systems added so far, and the engine it will join.
#[derive(Debug)]
pub struct EnginePassBuilder<V, P, B> {
    engine: Engine<V, P>,
    pass: B,
}

/// Relies on Instant::now: reads the monotonic clock.
#[verifier::external_body]
fn clock_now() -> Instant {
    Instant::now()
}

/// Relies on Instant::duration_since: the time from `earlier` to `later`, zero when `earlier`
/// is the later of the two.
#[verifier::external_body]
fn time_between(later: &Instant, earlier: &Instant) -> Duration {
    later.duration_since(*earlier)
}

/// Relies on Duration::as_nanos: the whole nanoseconds in `d`.
#[verifier::external_body]
fn whole_nanos(d: &Duration) -> u128 {
    d.as_nanos()
}

impl<V> Engine<V, HNil> {
    /// Creates an engine with an empty store and no stages.
    pub fn new() -> (r: Engine<V, HNil>)
        ensures
            r.store_spec().wf(),
            r.store_spec().entity_count() == 0,
            forall|k: usize, id: nat| #[trigger] r.store_spec().value(k, id) is None,
            r.passes() == HNil,
    {
        Engine { store: ComponentStore::new(), last_frame: clock_now(), passes: HNil }
    }
}

impl<V, P> Engine<V, P> {
    /// The engine's store.
    pub closed spec fn store_spec(&self) -> ComponentStore<V> {
        self.store
    }

    /// The engine's stages, the last registered outermost.
    pub closed spec fn passes(&self) -> P {
        self.passes
    }
}

impl<V, P: SystemMut<V>> Engine<V, P> {
    /// Adds a stage that runs `system` alone, after the stages registered so far.
    pub fn add_mut_pass<T: SystemMut<V>>(self, system: T) -> (r: Engine<V, HCons<Mut<T>, P>>)
        ensures
            r.store_spec() == self.store_spec(),
            r.passes() == (HCons { head: Mut(system), tail: self.passes() }),
    {
        Engine {
            store: self.store,
            last_frame: self.last_frame,
            passes: HCons { head: Mut(system), tail: self.passes },
        }
    }

    /// Starts building a parallel stage, which `finish` adds after the stages registered so far.
    pub fn build_par_pass(self) -> (r: EnginePassBuilder<V, P, HNil>)
        ensures
            r.engine() == self,
            r.pass() == HNil,
    {
        EnginePassBuilder { engine: self, pass: HNil }
    }

    /// Runs every stage once, in registration order, `dt` nanoseconds after the last frame.
    pub fn run_frame(&mut self, dt: u64)
        requires
            old(self).store_spec().wf(),
        ensures
            final(self).store_spec().wf(),
            (final(self).passes(), final(self).store_spec().model()) == old(self).passes().step(
                old(self).store_spec().model(),
                dt,
            ),
    {
        self.passes.run(&mut self.store, dt);
    }

    /// Runs one frame: every stage once, in registration order, given the time elapsed since
    /// the previous frame (or since the engine was made), in nanoseconds.
    pub fn run_once(&mut self)
        requires
            old(self).store_spec().wf(),
        ensures
            final(self).store_spec().wf(),
            exists|dt: u64|
                (final(self).passes(), final(self).store_spec().model()) == old(
                    self,
                ).passes().step(old(self).store_spec().model(), dt),
    {
        let now = clock_now();
        let nanos = whole_nanos(&time_between(&now, &self.last_frame));
        self.last_frame = now;
        let dt: u64 = if nanos > u64::MAX as u128 {
            u64::MAX
        } else {
            nanos as u64
        };
        self.run_frame(dt);
        assert((self.passes(), self.store_spec().model()) == old(self).passes().step(
            old(self).store_spec().model(),
            dt,
        ));
    }
}

impl<V, P, B> EnginePassBuilder<V, P, B> {
    /// The engine that the stage will join.
    pub closed spec fn engine(&self) -> Engine<V, P> {
        self.engine
    }

    /// The systems of the stage so far.
    pub closed spec fn pass(&self) -> B {
        self.pass
    }
}

impl<V, P: SystemMut<V>, B: System<V>> EnginePassBuilder<V, P, B> {
    /// Adds a `System` to run side by side with the others of this stage.
    pub fn add<T: System<V>>(self, system: T) -> (r: EnginePassBuilder<V, P, HCons<T, B>>)
        ensures
            r.engine() == self.engine(),
            r.pass() == (HCons { head: system, tail: self.pass() }),
    {
        EnginePassBuilder { engine: self.engine, pass: HCons { head: system, tail: self.pass } }
    }

    /// Finishes the stage and adds it to the engine, after the stages registered so far.
    pub fn finish(self) -> (r: Engine<V, HCons<Par<B>, P>>)
        ensures
            r.store_spec() == self.engine().store_spec(),
            r.passes() == (HCons { head: Par(self.pass()), tail: self.engine().passes() }),
    {
        let EnginePassBuilder { engine, pass } = self;
        Engine {
            store: engine.store,
            last_frame: engine.last_frame,
            passes: HCons { head: Par(pass), tail: engine.passes },
        }
    }
}

/// Stages run in registration order. For an engine built as `add_mut_pass(first)`, then a
/// parallel stage holding `reader`, then `add_mut_pass(second)`, one frame runs `first`, then
/// `reader` against the store exactly as `first` left it, then `second` on that same store.
pub proof fn lemma_stages_run_in_order<V: Sync, A: SystemMut<V>, B: System<V>, C: SystemMut<V>>(
    first: A,
    reader: B,
    second: C,
    cs: StoreModel<V>,
    dt: u64,
)
    ensures
        ({
            let passes = HCons {
                head: Mut(second),
                tail: HCons {
                    head: Par(HCons { head: reader, tail: HNil }),
                    tail: HCons { head: Mut(first), tail: HNil },
                },
            };
            let (a, cs1) = first.step(cs, dt);
            let (c, cs2) = second.step(cs1, dt);
            passes.step(cs, dt) == (
            HCons {
                head: Mut(c),
                tail: HCons {
                    head: Par(HCons { head: reader.observe(cs1, dt), tail: HNil }),
                    tail: HCons { head: Mut(a), tail: HNil },
                },
            },
            cs2)
        }),
{
}

} // verus!

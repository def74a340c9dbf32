//! The registry of per-type tables, and entity allocation.

use crate::unsafe_option_vec::{opt_deref, UnsafeOptionVec};
use crate::{Component, Entity};
use vstd::prelude::*;

verus! {

/// What a store holds, as a mathematical value: how many entities exist, and the stored value
/// for each (kind, entity id) that has one.
pub struct StoreModel<V> {
    pub entity_count: nat,
    pub values: Map<(usize, nat), V>,
}

impl<V> StoreModel<V> {
    /// The model after storing `v` for kind `k` and entity id `id`.
    pub open spec fn set_value(self, k: usize, id: nat, v: V) -> StoreModel<V> {
        StoreModel { entity_count: self.entity_count, values: self.values.insert((k, id), v) }
    }

    /// The model after clearing what is stored for kind `k` and entity id `id`.
    pub open spec fn remove_value(self, k: usize, id: nat) -> StoreModel<V> {
        StoreModel { entity_count: self.entity_count, values: self.values.remove((k, id)) }
    }

    /// The model after creating one more entity.
    pub open spec fn add_entity(self) -> StoreModel<V> {
        StoreModel { entity_count: self.entity_count + 1, values: self.values }
    }
}

/// The model after storing, for kind `k`, each `(id, value)` of `writes` in turn.
pub open spec fn set_values<V>(m: StoreModel<V>, k: usize, writes: Seq<(nat, V)>) -> StoreModel<V>
    decreases writes.len(),
{
    if writes.len() == 0 {
        m
    } else {
        set_values(m, k, writes.drop_last()).set_value(k, writes.last().0, writes.last().1)
    }
}

/// Writing values at increasing entity ids, however the tables grow meanwhile, keeps every
/// value written: each one can be read back afterwards, unchanged.
pub proof fn lemma_growth_preserves_data<V>(m: StoreModel<V>, k: usize, writes: Seq<(nat, V)>)
    requires
        forall|i: int, j: int| 0 <= i < j < writes.len() ==> writes[i].0 < writes[j].0,
    ensures
        forall|i: int|
            0 <= i < writes.len() ==> {
                &&& #[trigger] set_values(m, k, writes).values.contains_key((k, writes[i].0))
                &&& set_values(m, k, writes).values[(k, writes[i].0)] == writes[i].1
            },
    decreases writes.len(),
{
    if writes.len() > 0 {
        let front = writes.drop_last();
        let last = writes.last();
        assert(front.len() == writes.len() - 1);
        assert forall|i: int, j: int| 0 <= i < j < front.len() implies front[i].0 < front[j].0 by {
            assert(front[i] == writes[i] && front[j] == writes[j]);
        }
        lemma_growth_preserves_data(m, k, front);
        assert forall|i: int| 0 <= i < writes.len() implies {
            &&& #[trigger] set_values(m, k, writes).values.contains_key((k, writes[i].0))
            &&& set_values(m, k, writes).values[(k, writes[i].0)] == writes[i].1
        } by {
            if i < front.len() {
                assert(front[i] == writes[i]);
                assert(writes[i].0 < last.0);
                assert(set_values(m, k, front).values.contains_key((k, front[i].0)));
            }
        }
    }
}

/// Setting a value twice at one place leaves the second, as if the first had never been set.
pub proof fn lemma_overwrite_replaces<V>(m: StoreModel<V>, k: usize, id: nat, first: V, second: V)
    ensures
        m.set_value(k, id, first).set_value(k, id, second) == m.set_value(k, id, second),
        m.set_value(k, id, first).set_value(k, id, second).values[(k, id)] == second,
{
    assert(m.set_value(k, id, first).set_value(k, id, second).values =~= m.set_value(
        k,
        id,
        second,
    ).values);
}

/// Removing what is not there changes nothing.
pub proof fn lemma_remove_absent_is_noop<V>(m: StoreModel<V>, k: usize, id: nat)
    requires
        !m.values.contains_key((k, id)),
    ensures
        m.remove_value(k, id) == m,
{
    assert(m.remove_value(k, id).values =~= m.values);
}

/// Entity ids: starting from a store with no entities, `new_entity` called once for each
/// entry of `ids` (the `i`-th call on a store modelled by `models[i]`, leaving `models[i + 1]`)
/// hands out exactly `1, 2, ..., ids.len()`, in increasing order, and leaves that many
/// entities, which is what `iter_entities` then lists.
pub proof fn lemma_entity_ids<V>(models: Seq<StoreModel<V>>, ids: Seq<nat>)
    requires
        models.len() == ids.len() + 1,
        models[0].entity_count == 0,
        forall|i: int|
            0 <= i < ids.len() ==> {
                &&& #[trigger] ids[i] == models[i].entity_count + 1
                &&& models[i + 1] == models[i].add_entity()
            },
    ensures
        forall|i: int| 0 <= i < ids.len() ==> #[trigger] ids[i] == i + 1,
        forall|i: int, j: int| 0 <= i < j < ids.len() ==> ids[i] < ids[j],
        models[ids.len() as int].entity_count == ids.len(),
        models[ids.len() as int].values == models[0].values,
    decreases ids.len(),
{
    if ids.len() > 0 {
        let n = ids.len() - 1;
        let ms = models.subrange(0, n + 1);
        let is = ids.subrange(0, n);
        assert forall|i: int| 0 <= i < is.len() implies {
            &&& #[trigger] is[i] == ms[i].entity_count + 1
            &&& ms[i + 1] == ms[i].add_entity()
        } by {
            assert(is[i] == ids[i] && ms[i] == models[i] && ms[i + 1] == models[i + 1]);
        }
        lemma_entity_ids(ms, is);
        assert(ms[n] == models[n]);
        assert(ids[n] == models[n].entity_count + 1);
        assert forall|i: int| 0 <= i < ids.len() implies #[trigger] ids[i] == i + 1 by {
            if i < n {
                assert(ids.subrange(0, n)[i] == ids[i]);
            }
        }
    }
}

/// A container for components: one table per component kind, each indexed by `entity id - 1`.
///
/// Tables are made on the first `set_component` of their kind. Entity ids start at 1, are
/// handed out in increasing order and are never reused.
#[derive(Debug)]
pub struct ComponentStore<V> {
    kinds: Vec<usize>,
    tables: Vec<UnsafeOptionVec<V>>,
    next_entity: usize,
}

impl<V> ComponentStore<V> {
    /// The store's invariant: one table per kind, each well formed, ids counted from 1, and
    /// nothing stored for an id that has not been handed out.
    pub closed spec fn wf(&self) -> bool {
        &&& self.kinds@.len() == self.tables@.len()
        &&& forall|i: int, j: int|
            0 <= i < j < self.kinds@.len() ==> self.kinds@[i] != self.kinds@[j]
        &&& forall|i: int| 0 <= i < self.tables@.len() ==> (#[trigger] self.tables@[i]).wf()
        &&& self.next_entity >= 1
        &&& forall|i: int, j: nat|
            0 <= i < self.tables@.len() && j + 1 >= self.next_entity ==> (
            #[trigger] self.tables@[i].slot(j)) is None
    }

    /// Whether a table of kind `k` exists.
    pub closed spec fn has_table(&self, k: usize) -> bool {
        exists|i: int| 0 <= i < self.kinds@.len() && self.kinds@[i] == k
    }

    /// Where the table of kind `k` stands, when it exists.
    closed spec fn table_of(&self, k: usize) -> int {
        choose|i: int| 0 <= i < self.kinds@.len() && self.kinds@[i] == k
    }

    /// What the store holds for kind `k` and the entity with id `id`.
    pub closed spec fn value(&self, k: usize, id: nat) -> Option<V> {
        if self.has_table(k) && id >= 1 {
            self.tables@[self.table_of(k)].slot((id - 1) as nat)
        } else {
            None
        }
    }

    /// How many entities have been created: their ids are `1..=entity_count()`.
    pub closed spec fn entity_count(&self) -> nat {
        (self.next_entity - 1) as nat
    }

    /// The store as a mathematical value.
    pub open spec fn model(&self) -> StoreModel<V> {
        StoreModel {
            entity_count: self.entity_count(),
            values: Map::new(
                |p: (usize, nat)| self.value(p.0, p.1) is Some,
                |p: (usize, nat)| self.value(p.0, p.1).unwrap(),
            ),
        }
    }

    /// The component of type `T` on `e`, if there is one.
    pub open spec fn component<T: Component<V>>(&self, e: Entity) -> Option<T> {
        match self.value(T::spec_kind(), e@) {
            Some(v) => T::from_value(v),
            None => None,
        }
    }

    proof fn lemma_table_of(&self, k: usize, i: int)
        requires
            self.wf(),
            0 <= i < self.kinds@.len(),
            self.kinds@[i] == k,
        ensures
            self.has_table(k),
            self.table_of(k) == i,
    {
    }

    /// After a write to slot `n` of the table at `i` (kind `k`), only the value of kind `k`
    /// for entity id `n + 1` may differ.
    proof fn lemma_frame_one_table(&self, before: Self, k: usize, i: int, n: nat)
        requires
            before.wf(),
            self.wf(),
            self.kinds@ == before.kinds@,
            0 <= i < self.kinds@.len(),
            self.kinds@[i] == k,
            self.tables@.len() == before.tables@.len(),
            forall|j: int| 0 <= j < self.tables@.len() && j != i ==> self.tables@[j] == before.tables@[j],
            forall|m: nat| m != n ==> #[trigger] self.tables@[i].slot(m) == before.tables@[i].slot(m),
        ensures
            self.value(k, n + 1) == self.tables@[i].slot(n),
            forall|kk: usize, id: nat|
                !(kk == k && id == n + 1) ==> #[trigger] self.value(kk, id) == before.value(kk, id),
    {
        self.lemma_table_of(k, i);
        before.lemma_table_of(k, i);
        assert forall|kk: usize, id: nat|
            !(kk == k && id == n + 1) implies #[trigger] self.value(kk, id) == before.value(kk, id) by {
            if kk != k && before.has_table(kk) {
                let j = before.table_of(kk);
                self.lemma_table_of(kk, j);
            } else if kk != k {
                assert(!self.has_table(kk));
            }
        }
    }

    /// Nothing is stored for an entity that the store has not handed out, whatever its type:
    /// an entity fresh from `new_entity` has no component.
    pub proof fn lemma_absent_by_default<T: Component<V>>(&self, e: Entity)
        requires
            self.wf(),
            e@ > self.entity_count(),
        ensures
            self.component::<T>(e) is None,
            forall|k: usize| #[trigger] self.value(k, e@) is None,
    {
        assert forall|k: usize| #[trigger] self.value(k, e@) is None by {
            if self.has_table(k) {
                let i = self.table_of(k);
                assert(self.tables@[i].slot((e@ - 1) as nat) is None);
            }
        }
    }

    /// Creates a new, empty store.
    pub fn new() -> (r: ComponentStore<V>)
        ensures
            r.wf(),
            r.entity_count() == 0,
            forall|k: usize, id: nat| #[trigger] r.value(k, id) is None,
    {
        ComponentStore { kinds: Vec::new(), tables: Vec::new(), next_entity: 1 }
    }

    /// Where the table of kind `k` stands, if it exists.
    fn find_table(&self, k: usize) -> (r: Option<usize>)
        requires
            self.wf(),
        ensures
            match r {
                Some(i) => i < self.kinds@.len() && self.kinds@[i as int] == k,
                None => !self.has_table(k),
            },
    {
        let mut i: usize = 0;
        while i < self.kinds.len()
            invariant
                i <= self.kinds@.len(),
                forall|j: int| 0 <= j < i ==> self.kinds@[j] != k,
            decreases self.kinds@.len() - i,
        {
            if self.kinds[i] == k {
                return Some(i);
            }
            i = i + 1;
        }
        None
    }

    /// Where the table of kind `k` stands, after making it if it did not exist.
    fn table_for(&mut self, k: usize) -> (r: usize)
        requires
            old(self).wf(),
        ensures
            final(self).wf(),
            r < final(self).kinds@.len(),
            final(self).kinds@[r as int] == k,
            final(self).next_entity == old(self).next_entity,
            forall|kk: usize, id: nat| #[trigger] final(self).value(kk, id) == old(self).value(kk, id),
    {
        match self.find_table(k) {
            Some(i) => i,
            None => {
                let ghost before = *self;
                self.kinds.push(k);
                self.tables.push(UnsafeOptionVec::new());
                let i = self.kinds.len() - 1;
                assert forall|kk: usize, id: nat| #[trigger] self.value(kk, id) == before.value(kk, id) by {
                    if kk == k {
                        self.lemma_table_of(k, i as int);
                    } else if before.has_table(kk) {
                        let j = before.table_of(kk);
                        self.lemma_table_of(kk, j);
                    } else {
                        assert(!self.has_table(kk));
                    }
                }
                i
            },
        }
    }

    /// Creates a new entity, with the next unused id.
    pub fn new_entity(&mut self) -> (r: Entity)
        requires
            old(self).wf(),
            old(self).entity_count() + 1 < usize::MAX,
        ensures
            final(self).wf(),
            r@ == old(self).entity_count() + 1,
            final(self).entity_count() == old(self).entity_count() + 1,
            forall|k: usize, id: nat| #[trigger] final(self).value(k, id) == old(self).value(k, id),
            forall|k: usize| #[trigger] final(self).value(k, r@) is None,
            final(self).model() == old(self).model().add_entity(),
    {
        let n = self.next_entity;
        self.next_entity = n + 1;
        assert(self.model().values =~= old(self).model().values);
        Entity::from_id(n)
    }

    /// Every entity created so far, in increasing order of id, whatever components it has.
    pub fn iter_entities(&self) -> (r: Vec<Entity>)
        requires
            self.wf(),
        ensures
            r@.len() == self.entity_count(),
            forall|i: int| 0 <= i < r@.len() ==> (#[trigger] r@[i])@ == i + 1,
    {
        let mut out: Vec<Entity> = Vec::new();
        let mut n: usize = 1;
        while n < self.next_entity
            invariant
                1 <= n <= self.next_entity,
                out@.len() == n - 1,
                forall|i: int| 0 <= i < out@.len() ==> (#[trigger] out@[i])@ == i + 1,
            decreases self.next_entity - n,
        {
            out.push(Entity::from_id(n));
            n = n + 1;
        }
        out
    }

    /// The component of type `T` on `entity`; `None` when it has none, or when no table of
    /// that kind exists yet.
    pub fn get_component<T: Component<V>>(&self, entity: Entity) -> (r: Option<&T>)
        requires
            self.wf(),
        ensures
            opt_deref(r) == self.component::<T>(entity),
    {
        let k = T::kind();
        match self.find_table(k) {
            None => None,
            Some(i) => {
                proof {
                    self.lemma_table_of(k, i as int);
                }
                let id = entity.id();
                match self.tables[i].get(id - 1) {
                    Some(v) => T::of_value(v),
                    None => None,
                }
            },
        }
    }

    /// Sets the component of type `T` on `entity`, dropping the one it replaces, if any.
    pub fn set_component<T: Component<V>>(&mut self, entity: Entity, component: T)
        requires
            old(self).wf(),
            entity@ <= old(self).entity_count(),
            entity@ < usize::MAX / 2,
        ensures
            final(self).wf(),
            final(self).entity_count() == old(self).entity_count(),
            final(self).model() == old(self).model().set_value(
                T::spec_kind(),
                entity@,
                component.to_value(),
            ),
            final(self).value(T::spec_kind(), entity@) == Some(component.to_value()),
            final(self).component::<T>(entity) == Some(component),
            forall|k: usize, id: nat|
                !(k == T::spec_kind() && id == entity@) ==> #[trigger] final(self).value(k, id)
                    == old(self).value(k, id),
    {
        let k = T::kind();
        let i = self.table_for(k);
        let ghost mid = *self;
        let id = entity.id();
        let v = component.into_value();
        let slot = self.tables[i].get_mut(id - 1);
        *slot = Some(v);
        proof {
            self.lemma_frame_one_table(mid, k, i as int, (id - 1) as nat);
            assert(self.model().values =~= old(self).model().values.insert((k, entity@), v));
        }
    }

    /// Removes the component of type `T` from `entity`, dropping it; nothing happens when
    /// there is none.
    pub fn remove_component<T: Component<V>>(&mut self, entity: Entity)
        requires
            old(self).wf(),
        ensures
            final(self).wf(),
            final(self).entity_count() == old(self).entity_count(),
            final(self).value(T::spec_kind(), entity@) is None,
            final(self).component::<T>(entity) is None,
            final(self).model() == old(self).model().remove_value(T::spec_kind(), entity@),
            forall|k: usize, id: nat|
                !(k == T::spec_kind() && id == entity@) ==> #[trigger] final(self).value(k, id)
                    == old(self).value(k, id),
    {
        let k = T::kind();
        match self.find_table(k) {
            None => {},
            Some(i) => {
                let ghost mid = *self;
                let id = entity.id();
                if id - 1 < self.tables[i].len() {
                    let slot = self.tables[i].get_mut(id - 1);
                    *slot = None;
                    proof {
                        self.lemma_table_of(k, i as int);
                        self.lemma_frame_one_table(mid, k, i as int, (id - 1) as nat);
                    }
                } else {
                    proof {
                        self.lemma_table_of(k, i as int);
                    }
                }
            },
        }
        assert(self.model().values =~= old(self).model().values.remove((k, entity@)));
    }

    /// A mutable reference to the component of type `T` on `entity`, if there is one.
    pub fn get_mut_component<T: Component<V>>(&mut self, entity: Entity) -> (r: Option<&mut T>)
        requires
            old(self).wf(),
        ensures
            final(self).wf(),
            final(self).entity_count() == old(self).entity_count(),
            forall|k: usize, id: nat|
                !(k == T::spec_kind() && id == entity@) ==> #[trigger] final(self).value(k, id)
                    == old(self).value(k, id),
            match r {
                Some(c) => {
                    &&& old(self).component::<T>(entity) == Some(*c)
                    &&& final(self).value(T::spec_kind(), entity@) == Some((*final(c)).to_value())
                },
                None => {
                    &&& old(self).component::<T>(entity) is None
                    &&& final(self).value(T::spec_kind(), entity@) == old(self).value(
                        T::spec_kind(),
                        entity@,
                    )
                },
            },
    {
        let k = T::kind();
        match self.find_table(k) {
            None => None,
            Some(i) => {
                proof {
                    self.lemma_table_of(k, i as int);
                }
                let id = entity.id();
                if id - 1 < self.tables[i].len() {
                    let slot = self.tables[i].get_mut(id - 1);
                    match slot {
                        Some(v) => T::of_value_mut(v),
                        None => None,
                    }
                } else {
                    None
                }
            },
        }
    }
}

impl<V> Default for ComponentStore<V> {
    /// An empty store, as `new` makes it.
    fn default() -> (r: ComponentStore<V>)
        ensures
            r.wf(),
            r.entity_count() == 0,
            forall|k: usize, id: nat| #[trigger] r.value(k, id) is None,
    {
        ComponentStore::new()
    }
}

} // verus!

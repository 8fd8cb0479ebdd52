use std::collections::HashMap;

use vstd::prelude::*;

verus! {

broadcast use vstd::std_specs::hash::group_hash_axioms;

/// Index into a catalog arena.
#[derive(Debug, Clone, Copy, PartialEq, Eq, Hash, Structural)]
pub struct ArenaIdx(pub usize);

/// Append-only storage of entities, with an append-only mapping from entity IDs to arena
/// indices.
#[derive(Debug, Clone)]
pub struct Arena<T> {
    arena: Vec<T>,
    by_id: HashMap<i64, ArenaIdx>,
}

impl<T> Arena<T> {
    /// The entities stored in the arena, in insertion order.
    pub closed spec fn entities(&self) -> Seq<T> {
        self.arena@
    }

    /// The registered mapping from entity IDs to arena indices.
    pub closed spec fn ids(&self) -> Map<i64, ArenaIdx> {
        self.by_id@
    }

    pub fn new() -> (result: Self)
        ensures
            result.entities() == Seq::<T>::empty(),
            result.ids() == Map::<i64, ArenaIdx>::empty(),
    {
        Arena { arena: Vec::new(), by_id: HashMap::new() }
    }

    /// Appends an entity and, if given, registers its ID. Returns the entity's index.
    pub fn push(&mut self, entity: T, id: Option<i64>) -> (idx: ArenaIdx)
        ensures
            idx.0 == old(self).entities().len(),
            final(self).entities() == old(self).entities().push(entity),
            final(self).ids() == match id {
                Some(i) => old(self).ids().insert(i, idx),
                None => old(self).ids(),
            },
    {
        let idx = ArenaIdx(self.arena.len());
        self.arena.push(entity);
        if let Some(id) = id {
            self.by_id.insert(id, idx);
        }
        idx
    }

    /// Registers (or re-registers) the given ID for an existing arena index.
    pub fn register_id(&mut self, idx: ArenaIdx, id: i64)
        ensures
            final(self).entities() == old(self).entities(),
            final(self).ids() == old(self).ids().insert(id, idx),
    {
        self.by_id.insert(id, idx);
    }

    /// Forgets an ID; the entities stay.
    pub fn unregister_id(&mut self, id: i64)
        ensures
            final(self).entities() == old(self).entities(),
            final(self).ids() == old(self).ids().remove(id),
    {
        self.by_id.remove(&id);
    }

    /// Looks up the arena index registered for an ID.
    pub fn map_id(&self, id: i64) -> (result: Option<ArenaIdx>)
        ensures
            result == (if self.ids().contains_key(id) { Some(self.ids()[id]) } else { None }),
    {
        match self.by_id.get(&id) {
            Some(idx) => Some(*idx),
            None => None,
        }
    }

    pub fn get(&self, idx: ArenaIdx) -> (result: &T)
        requires
            idx.0 < self.entities().len(),
        ensures
            *result == self.entities()[idx.0 as int],
    {
        &self.arena[idx.0]
    }

    pub fn get_mut(&mut self, idx: ArenaIdx) -> (result: &mut T)
        requires
            idx.0 < old(self).entities().len(),
        ensures
            *result == old(self).entities()[idx.0 as int],
            final(self).entities() == old(self).entities().update(idx.0 as int, *final(result)),
            final(self).ids() == old(self).ids(),
    {
        &mut self.arena[idx.0]
    }

    pub fn len(&self) -> (n: usize)
        ensures
            n == self.entities().len(),
    {
        self.arena.len()
    }
}

} // verus!

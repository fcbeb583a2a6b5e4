//! Component storage and the engine's built-in components.

pub mod alarm;
pub mod audio;
pub mod collider;
pub mod collision;
pub mod struct_component_manager;

use crate::ecs::Entity;
use vstd::prelude::*;

verus! {

/// Dense component storage: `entities[i]` owns the `i`-th component, and `indices` maps each
/// owning entity's id back to that position. Every entity appears at most once.
pub open spec fn dense_indexing(entities: Seq<Entity>, indices: Map<u32, usize>) -> bool {
    &&& forall|id: u32| #[trigger]
        indices.contains_key(id) ==> indices[id] < entities.len() && entities[indices[id] as int].0
            == id
    &&& forall|i: int|
        0 <= i < entities.len() ==> indices.contains_key(#[trigger] entities[i].0) && indices[entities[i].0]
            == i
}

/// The list stored under `e`, or the empty list.
pub open spec fn list_of<T>(m: Map<u32, Seq<T>>, e: u32) -> Seq<T> {
    if m.contains_key(e) {
        m[e]
    } else {
        Seq::empty()
    }
}

/// The components of dense storage, keyed by the id of the entity that owns them.
pub open spec fn dense_view<T>(components: Seq<T>, indices: Map<u32, usize>) -> Map<u32, T> {
    Map::new(|id: u32| indices.contains_key(id), |id: u32| components[indices[id] as int])
}

/// Dense storage holds exactly one component per owning entity.
pub proof fn lemma_dense_len<T>(entities: Seq<Entity>, components: Seq<T>, indices: Map<u32, usize>)
    requires
        dense_indexing(entities, indices),
    ensures
        dense_view(components, indices).len() == entities.len(),
        indices.dom().len() == entities.len(),
{
    let ids = entities.map_values(|e: Entity| e.0);
    assert forall|i: int, j: int| 0 <= i < j < ids.len() implies ids[i] != ids[j] by {
        assert(indices[entities[i].0] == i);
        assert(indices[entities[j].0] == j);
    }
    assert(ids.no_duplicates());
    assert(ids.to_set() =~= indices.dom()) by {
        assert forall|id: u32| indices.dom().contains(id) implies ids.to_set().contains(id) by {
            let i = indices[id] as int;
            assert(ids[i] == id);
        }
        assert forall|id: u32| ids.to_set().contains(id) implies indices.dom().contains(id) by {
            let i = choose|i: int| 0 <= i < ids.len() && ids[i] == id;
            assert(indices.contains_key(entities[i].0));
        }
    }
    ids.unique_seq_to_set();
    assert(dense_view(components, indices).dom() =~= indices.dom());
}

} // verus!

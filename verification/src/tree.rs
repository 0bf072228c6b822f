//! The supervision tree: what an actor knows of its children, its supervisor and its monitors.

use crate::actor::{ActorCell, ActorId};
use crate::child_map::{
    child_entries, map_at, map_get, map_insert, map_len, map_of, map_shift_remove, map_values,
    ChildMap,
};
use crate::supervision::{default_child_spec, ChildSpec};
use std::collections::HashMap;
use vstd::std_specs::iter::IteratorSpec;
use vstd::prelude::*;

verus! {

broadcast use vstd::std_specs::hash::group_hash_axioms;

/// A supervision tree.
///
/// Children are stored in insertion order so that shutdown can proceed in reverse start order,
/// matching OTP supervisor semantics.
#[derive(Debug)]
pub struct SupervisionTree {
    children: Option<ChildMap>,
    supervisor: Option<ActorCell>,
    monitors: Option<HashMap<ActorId, ActorCell>>,
}

/// What a supervision tree amounts to.
#[verifier::ext_equal]
pub struct TreeView {
    /// The children with their specs, in the order of the tree.
    pub children: Seq<(ActorCell, ChildSpec)>,
    /// The supervisor.
    pub supervisor: Option<ActorCell>,
    /// The monitors by their ids.
    pub monitors: Map<ActorId, ActorCell>,
}

/// Whether each entry of the child map stands under the id of its cell, and no id occurs twice.
spec fn keyed(entries: Seq<(ActorId, (ActorCell, ChildSpec))>) -> bool {
    &&& forall|i: int| 0 <= i < entries.len() ==> (#[trigger] entries[i]).0 == entries[i].1.0.id
    &&& forall|i: int, j: int|
        0 <= i < j < entries.len() ==> (#[trigger] entries[i]).0 != (#[trigger] entries[j]).0
}

/// The children that the entries of the child map stand for.
spec fn children_in(entries: Seq<(ActorId, (ActorCell, ChildSpec))>) -> Seq<
    (ActorCell, ChildSpec),
> {
    entries.map_values(|entry: (ActorId, (ActorCell, ChildSpec))| entry.1)
}

impl View for SupervisionTree {
    type V = TreeView;

    closed spec fn view(&self) -> TreeView {
        TreeView {
            children: match self.children {
                Some(map) => children_in(child_entries(map)),
                None => Seq::empty(),
            },
            supervisor: self.supervisor,
            monitors: match self.monitors {
                Some(map) => map@,
                None => Map::empty(),
            },
        }
    }
}

impl TreeView {
    /// Whether the supervisor has the given id.
    pub open spec fn has_parent(self, id: ActorId) -> bool {
        self.supervisor matches Some(parent) && parent.id == id
    }

    /// Whether no two children share an id, and each monitor stands under its own.
    pub open spec fn valid(self) -> bool {
        &&& distinct_ids(self.children)
        &&& forall|id: ActorId| #[trigger]
            self.monitors.contains_key(id) ==> self.monitors[id].id == id
    }
}

/// Whether no two children share an id.
pub open spec fn distinct_ids(children: Seq<(ActorCell, ChildSpec)>) -> bool {
    forall|i: int, j: int|
        0 <= i < j < children.len() ==> (#[trigger] children[i]).0.id != (
        #[trigger] children[j]).0.id
}

/// Whether the child at index `i` has the given id.
pub open spec fn child_at(children: Seq<(ActorCell, ChildSpec)>, id: ActorId, i: int) -> bool {
    0 <= i < children.len() && children[i].0.id == id
}

/// Whether no child has the given id.
pub open spec fn no_child(children: Seq<(ActorCell, ChildSpec)>, id: ActorId) -> bool {
    forall|i: int| !child_at(children, id, i)
}

/// Whether this is the spec that the child of the given id has, `None` if there is no such
/// child.
pub open spec fn spec_found(
    children: Seq<(ActorCell, ChildSpec)>,
    id: ActorId,
    spec: Option<ChildSpec>,
) -> bool {
    &&& no_child(children, id) ==> spec is None
    &&& forall|i: int| #[trigger] child_at(children, id, i) ==> spec == Some(children[i].1)
}

/// Whether `after` is `before` with the child put in: a new child is last; one that was there
/// already keeps its place and takes the new spec.
pub open spec fn child_inserted(
    before: Seq<(ActorCell, ChildSpec)>,
    child: ActorCell,
    spec: ChildSpec,
    after: Seq<(ActorCell, ChildSpec)>,
) -> bool {
    &&& no_child(before, child.id) ==> after == before.push((child, spec))
    &&& forall|i: int| #[trigger]
        child_at(before, child.id, i) ==> after == before.update(i, (child, spec))
}

/// Whether `after` is `before` without the child of the given id; the others keep their order.
pub open spec fn child_removed(
    before: Seq<(ActorCell, ChildSpec)>,
    id: ActorId,
    after: Seq<(ActorCell, ChildSpec)>,
) -> bool {
    &&& no_child(before, id) ==> after == before
    &&& forall|i: int| #[trigger]
        child_at(before, id, i) ==> after == before.remove(i)
}

/// The children without their specs.
pub open spec fn cells_of(children: Seq<(ActorCell, ChildSpec)>) -> Seq<ActorCell> {
    children.map_values(|child: (ActorCell, ChildSpec)| child.0)
}

impl Default for SupervisionTree {
    /// A tree with nobody in it.
    fn default() -> (tree: Self)
        ensures
            tree.wf(),
            tree@ == (TreeView {
                children: Seq::empty(),
                supervisor: None,
                monitors: Map::empty(),
            }),
    {
        SupervisionTree { children: None, supervisor: None, monitors: None }
    }
}

impl SupervisionTree {
    /// Whether the children and the monitors stand under their own ids.
    pub closed spec fn wf(self) -> bool {
        &&& self.children matches Some(map) ==> keyed(child_entries(map))
        &&& forall|id: ActorId| #[trigger]
            self@.monitors.contains_key(id) ==> self@.monitors[id].id == id
    }

    /// In a tree no two children share an id, and each monitor stands under its own.
    pub proof fn law_valid(self)
        requires
            self.wf(),
        ensures
            self@.valid(),
    {
        if self.children is Some {
            let entries = child_entries(self.children->0);
            assert forall|i: int, j: int| 0 <= i < j < self@.children.len() implies (
            #[trigger] self@.children[i]).0.id != (#[trigger] self@.children[j]).0.id by {
                assert(entries[i].0 != entries[j].0);
            }
        }
    }

    /// Push a child into the tree with default spec (preserves insertion order).
    pub fn insert_child(&mut self, child: ActorCell)
        requires
            old(self).wf(),
        ensures
            final(self).wf(),
            child_inserted(
                old(self)@.children,
                child,
                default_child_spec(),
                final(self)@.children,
            ),
            final(self)@.supervisor == old(self)@.supervisor,
            final(self)@.monitors == old(self)@.monitors,
    {
        self.insert_child_with_spec(child, ChildSpec::default());
    }

    /// Push a child into the tree with an explicit [`ChildSpec`].
    pub fn insert_child_with_spec(&mut self, child: ActorCell, spec: ChildSpec)
        requires
            old(self).wf(),
        ensures
            final(self).wf(),
            child_inserted(old(self)@.children, child, spec, final(self)@.children),
            final(self)@.supervisor == old(self)@.supervisor,
            final(self)@.monitors == old(self)@.monitors,
    {
        if let Some(map) = &mut self.children {
            map_insert(map, child.get_id(), (child, spec));
        } else {
            self.children = Some(map_of(child.get_id(), (child, spec)));
        }
        proof {
            let before = old(self)@.children;
            let after = self@.children;
            match old(self).children {
                Some(map) => {
                    let old_entries = child_entries(map);
                    let new_entries = child_entries(self.children->0);
                    if exists|i: int|
                        0 <= i < old_entries.len() && (#[trigger] old_entries[i]).0 == child.id {
                        let i = choose|i: int|
                            0 <= i < old_entries.len() && (#[trigger] old_entries[i]).0 == child.id;
                        assert(new_entries == old_entries.update(i, (child.id, (child, spec))));
                        assert(after =~= before.update(i, (child, spec)));
                        assert(child_at(before, child.id, i));
                    } else {
                        assert(after =~= before.push((child, spec)));
                    }
                },
                None => {
                    assert(after =~= before.push((child, spec)));
                },
            }
            assert(self@.monitors == old(self)@.monitors);
            assert(keyed(child_entries(self.children->0)));
        }
    }

    /// Remove a specific actor from the supervision tree (e.g. actor died).
    /// The children that are left keep their order.
    pub fn remove_child(&mut self, child: ActorId)
        requires
            old(self).wf(),
        ensures
            final(self).wf(),
            child_removed(old(self)@.children, child, final(self)@.children),
            final(self)@.supervisor == old(self)@.supervisor,
            final(self)@.monitors == old(self)@.monitors,
    {
        if let Some(map) = &mut self.children {
            map_shift_remove(map, child);
        }
        proof {
            let before = old(self)@.children;
            let after = self@.children;
            match old(self).children {
                Some(map) => {
                    let old_entries = child_entries(map);
                    let new_entries = child_entries(self.children->0);
                    if exists|i: int|
                        0 <= i < old_entries.len() && (#[trigger] old_entries[i]).0 == child {
                        let i = choose|i: int|
                            0 <= i < old_entries.len() && (#[trigger] old_entries[i]).0 == child;
                        assert(new_entries == old_entries.remove(i));
                        assert(after =~= before.remove(i));
                        assert(child_at(before, child, i));
                    } else {
                        assert(after =~= before);
                    }
                },
                None => {},
            }
            assert(self@.monitors == old(self)@.monitors);
            assert(self.children is Some ==> keyed(child_entries(self.children->0)));
        }
    }

    /// Retrieve the [`ChildSpec`] for a specific child, if it exists.
    pub fn get_child_spec(&self, child: ActorId) -> (spec: Option<ChildSpec>)
        requires
            self.wf(),
        ensures
            spec_found(self@.children, child, spec),
    {
        if let Some(map) = &self.children {
            if let Some(value) = map_get(map, child) {
                proof {
                    let entries = child_entries(*map);
                    let i = choose|i: int|
                        0 <= i < entries.len() && #[trigger] entries[i] == (child, *value);
                    assert(child_at(self@.children, child, i));
                }
                return Some(value.1);
            }
            assert forall|i: int| !child_at(self@.children, child, i) by {
                if 0 <= i < self@.children.len() {
                    assert(child_entries(*map)[i].0 != child);
                }
            }
        }
        None
    }

    /// Push a parent into the tree.
    pub fn set_supervisor(&mut self, parent: ActorCell)
        requires
            old(self).wf(),
        ensures
            final(self).wf(),
            final(self)@ == (TreeView { supervisor: Some(parent), ..old(self)@ }),
    {
        self.supervisor = Some(parent);
    }

    /// Remove the parent from the tree (e.g. actor died).
    pub fn clear_supervisor(&mut self)
        requires
            old(self).wf(),
        ensures
            final(self).wf(),
            final(self)@ == (TreeView { supervisor: None, ..old(self)@ }),
    {
        self.supervisor = None;
    }

    /// Try and retrieve the set supervisor.
    pub fn try_get_supervisor(&self) -> (supervisor: Option<ActorCell>)
        ensures
            supervisor == self@.supervisor,
    {
        self.supervisor
    }

    /// Determine if the specified actor is a parent of this actor.
    pub fn is_child_of(&self, id: ActorId) -> (child: bool)
        ensures
            child == self@.has_parent(id),
    {
        if let Some(parent) = &self.supervisor {
            parent.get_id() == id
        } else {
            false
        }
    }

    /// Set a monitor of this supervision tree.
    pub fn set_monitor(&mut self, who: ActorCell)
        requires
            old(self).wf(),
        ensures
            final(self).wf(),
            final(self)@ == (TreeView {
                monitors: old(self)@.monitors.insert(who.id, who),
                ..old(self)@
            }),
    {
        if let Some(map) = &mut self.monitors {
            map.insert(who.get_id(), who);
        } else {
            let mut map: HashMap<ActorId, ActorCell> = HashMap::new();
            map.insert(who.get_id(), who);
            self.monitors = Some(map);
        }
    }

    /// Remove a specific monitor from the supervision tree.
    pub fn remove_monitor(&mut self, who: ActorId)
        requires
            old(self).wf(),
        ensures
            final(self).wf(),
            final(self)@ == (TreeView {
                monitors: old(self)@.monitors.remove(who),
                ..old(self)@
            }),
    {
        self.forget_monitor(who);
        let empty = if let Some(map) = &self.monitors {
            map.is_empty()
        } else {
            false
        };
        if empty {
            self.monitors = None;
        }
    }

    /// Takes a monitor out of the map of monitors.
    pub(crate) fn forget_monitor(&mut self, who: ActorId)
        requires
            old(self).wf(),
        ensures
            final(self).wf(),
            final(self)@ == (TreeView {
                monitors: old(self)@.monitors.remove(who),
                ..old(self)@
            }),
    {
        if let Some(map) = &mut self.monitors {
            map.remove(&who);
        }
    }

    /// The children with their specs, in the order of the tree.
    pub(crate) fn entries(&self) -> (entries: Vec<(ActorCell, ChildSpec)>)
        ensures
            entries@ == self@.children,
    {
        if let Some(map) = &self.children {
            let entries = map_values(map);
            assert(entries@ =~= self@.children);
            entries
        } else {
            Vec::new()
        }
    }

    /// Takes all children out of the tree.
    pub(crate) fn take_entries(&mut self) -> (entries: Vec<(ActorCell, ChildSpec)>)
        requires
            old(self).wf(),
        ensures
            final(self).wf(),
            entries@ == old(self)@.children,
            final(self)@ == (TreeView { children: Seq::empty(), ..old(self)@ }),
    {
        let entries = self.entries();
        self.children = None;
        entries
    }

    /// Return all linked children (cells only, no specs).
    pub fn get_children(&self) -> (cells: Vec<ActorCell>)
        ensures
            cells@ == cells_of(self@.children),
    {
        let entries = self.entries();
        let mut cells: Vec<ActorCell> = Vec::new();
        for i in 0..entries.len()
            invariant
                cells@ == cells_of(entries@).take(i as int),
        {
            cells.push(entries[i].0);
            assert(cells@ =~= cells_of(entries@).take(i + 1));
        }
        assert(cells@ =~= cells_of(entries@));
        cells
    }

    /// Execute a closure for each child, in the order of the tree.
    pub fn for_each_child<G: FnMut(&ActorCell)>(&self, f: G)
        requires
            forall|i: int|
                0 <= i < self@.children.len() ==> call_requires(
                    f,
                    (&(#[trigger] self@.children[i]).0,),
                ),
        ensures
            forall|i: int|
                0 <= i < self@.children.len() ==> call_ensures(
                    f,
                    (&(#[trigger] self@.children[i]).0,),
                    (),
                ),
    {
        let mut call = f;
        if let Some(map) = &self.children {
            let len: usize = map_len(map);
            for i in 0..len
                invariant
                    call == f,
                    len == child_entries(*map).len(),
                    self@.children == children_in(child_entries(*map)),
                    forall|j: int|
                        0 <= j < self@.children.len() ==> call_requires(
                            f,
                            (&(#[trigger] self@.children[j]).0,),
                        ),
                    forall|j: int|
                        0 <= j < i ==> call_ensures(f, (&(#[trigger] self@.children[j]).0,), ()),
            {
                if let Some((_id, value)) = map_at(map, i) {
                    assert(self@.children[i as int] == *value);
                    call(&value.0);
                }
            }
        }
    }

    /// Retrieve the number of supervised children.
    pub fn get_num_children(&self) -> (num: usize)
        ensures
            num == self@.children.len(),
    {
        if let Some(map) = &self.children {
            map_len(map)
        } else {
            0
        }
    }

    /// Retrieve the number of supervisors: one or none.
    pub fn get_num_parents(&self) -> (num: usize)
        ensures
            num == if self@.supervisor is Some {
                1int
            } else {
                0
            },
    {
        if self.supervisor.is_some() {
            1
        } else {
            0
        }
    }

    /// The cells of all monitors, in no particular order.
    pub(crate) fn monitor_cells(&self) -> (cells: Vec<ActorCell>)
        requires
            self.wf(),
        ensures
            cells@.no_duplicates(),
            forall|cell: ActorCell| #[trigger]
                cells@.contains(cell) <==> self@.monitors.contains_key(cell.id),
    {
        let mut cells: Vec<ActorCell> = Vec::new();
        if let Some(map) = &self.monitors {
            let ids = map.keys();
            let ghost keys: Seq<ActorId> = ids.remaining().unref();
            for id in iter: ids
                invariant
                    iter.seq().unref() == keys,
                    cells@.len() == iter.index(),
                    forall|i: int|
                        0 <= i < cells@.len() ==> #[trigger] cells@[i] == (ActorCell { id: keys[i] }),
            {
                assert(keys[iter.index() as int] == *id);
                cells.push(ActorCell { id: *id });
            }
            assert(keys.to_set() == map@.dom());
            assert forall|cell: ActorCell| #[trigger]
                cells@.contains(cell) <==> self@.monitors.contains_key(cell.id) by {
                if self@.monitors.contains_key(cell.id) {
                    assert(keys.to_set().contains(cell.id));
                    assert(keys.contains(cell.id));
                    let i = keys.index_of(cell.id);
                    assert(cells@[i] == cell);
                }
                if cells@.contains(cell) {
                    let i = cells@.index_of(cell);
                    assert(keys[i] == cell.id);
                    assert(keys.to_set().contains(cell.id));
                }
            }
        }
        cells
    }
}

} // verus!

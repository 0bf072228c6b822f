//! What holds of a supervision tree over many calls.

use crate::actor::{ActorCell, ActorId};
use crate::supervision::ChildSpec;
use crate::tree::{
    cells_of, child_at, child_inserted, child_removed, distinct_ids, no_child, spec_found,
    TreeView,
};
use vstd::prelude::*;

verus! {

/// Putting a child in keeps the ids distinct. Afterwards its spec is the one that it was put in
/// with, and every other child has the spec that it had.
pub proof fn law_insert_then_get(
    before: Seq<(ActorCell, ChildSpec)>,
    child: ActorCell,
    spec: ChildSpec,
    after: Seq<(ActorCell, ChildSpec)>,
    other: ActorId,
    other_spec: Option<ChildSpec>,
)
    requires
        distinct_ids(before),
        child_inserted(before, child, spec, after),
    ensures
        distinct_ids(after),
        spec_found(after, child.id, Some(spec)),
        other != child.id && spec_found(before, other, other_spec) ==> spec_found(
            after,
            other,
            other_spec,
        ),
{
    let at = if no_child(before, child.id) {
        before.len() as int
    } else {
        choose|i: int| #[trigger] child_at(before, child.id, i)
    };
    assert(child_at(after, child.id, at));
    assert forall|j: int| child_at(before, other, j) && j != at implies child_at(
        after,
        other,
        j,
    ) by {}
    assert forall|i: int, j: int| 0 <= i < j < after.len() implies (#[trigger] after[i]).0.id != (
    #[trigger] after[j]).0.id by {
        if i == at || j == at {
            assert(!child_at(before, child.id, if i == at { j } else { i }));
        }
    }
    assert forall|j: int| #[trigger] child_at(after, child.id, j) implies j == at by {
        if j != at {
            assert(child_at(before, child.id, j));
        }
    }
    assert forall|j: int| #[trigger]
        child_at(after, other, j) && other != child.id implies child_at(before, other, j) by {}
}

/// Putting a child in moves no other: the children that were there are there still, in the same
/// order and in the same places, and a new one comes after all of them.
pub proof fn law_insert_keeps_order(
    before: Seq<(ActorCell, ChildSpec)>,
    child: ActorCell,
    spec: ChildSpec,
    after: Seq<(ActorCell, ChildSpec)>,
)
    requires
        child_inserted(before, child, spec, after),
    ensures
        cells_of(after) == if no_child(before, child.id) {
            cells_of(before).push(child)
        } else {
            cells_of(before)
        },
{
    if exists|i: int| #[trigger] child_at(before, child.id, i) {
        let i = choose|i: int| #[trigger] child_at(before, child.id, i);
        assert(cells_of(after) =~= cells_of(before));
    } else {
        assert(cells_of(after) =~= cells_of(before).push(child));
    }
}

/// Taking a child out keeps the ids distinct. Afterwards there is no child of its id, and every
/// other child has the spec that it had.
pub proof fn law_remove_then_get(
    before: Seq<(ActorCell, ChildSpec)>,
    id: ActorId,
    after: Seq<(ActorCell, ChildSpec)>,
    other: ActorId,
    other_spec: Option<ChildSpec>,
)
    requires
        distinct_ids(before),
        child_removed(before, id, after),
    ensures
        distinct_ids(after),
        spec_found(after, id, None),
        other != id && spec_found(before, other, other_spec) ==> spec_found(
            after,
            other,
            other_spec,
        ),
        after.len() == if no_child(before, id) {
            before.len() as int
        } else {
            before.len() - 1
        },
{
    if exists|i: int| #[trigger] child_at(before, id, i) {
        let i = choose|i: int| #[trigger] child_at(before, id, i);
        assert(after == before.remove(i));
        assert forall|j: int| !child_at(after, id, j) by {
            if 0 <= j < after.len() {
                assert(after[j] == before[if j < i { j } else { j + 1 }]);
            }
        }
        if other != id && spec_found(before, other, other_spec) {
            assert forall|j: int| #[trigger] child_at(after, other, j) implies other_spec == Some(
                after[j].1,
            ) by {
                assert(child_at(before, other, if j < i { j } else { j + 1 }));
            }
            if no_child(after, other) {
                assert forall|j: int| !child_at(before, other, j) by {
                    if child_at(before, other, j) {
                        assert(child_at(after, other, if j < i { j } else { j - 1 }));
                    }
                }
            }
        }
    }
}

/// Taking a child out leaves the others in their order.
pub proof fn law_remove_keeps_order(
    before: Seq<(ActorCell, ChildSpec)>,
    id: ActorId,
    after: Seq<(ActorCell, ChildSpec)>,
)
    requires
        distinct_ids(before),
        child_removed(before, id, after),
    ensures
        cells_of(after) == without(cells_of(before), id),
{
    let cells = cells_of(before);
    if exists|i: int| #[trigger] child_at(before, id, i) {
        let i = choose|i: int| #[trigger] child_at(before, id, i);
        assert(cells[i].id == id);
        let j = choose|j: int| 0 <= j < cells.len() && (#[trigger] cells[j]).id == id;
        assert(child_at(before, id, j));
        assert(i == j);
        assert(cells_of(after) =~= cells.remove(i));
    } else {
        assert forall|j: int| 0 <= j < cells.len() implies (#[trigger] cells[j]).id != id by {
            assert(!child_at(before, id, j));
        }
    }
}

/// The cells without the one of the given id, in their order.
pub open spec fn without(cells: Seq<ActorCell>, id: ActorId) -> Seq<ActorCell> {
    if exists|i: int| 0 <= i < cells.len() && (#[trigger] cells[i]).id == id {
        cells.remove(choose|i: int| 0 <= i < cells.len() && (#[trigger] cells[i]).id == id)
    } else {
        cells
    }
}

/// What can happen to the children of a tree.
pub enum TreeOp {
    Insert(ActorCell, ChildSpec),
    Remove(ActorId),
}

/// Whether the operation takes the children of a tree from `before` to `after`.
pub open spec fn applied(
    before: Seq<(ActorCell, ChildSpec)>,
    op: TreeOp,
    after: Seq<(ActorCell, ChildSpec)>,
) -> bool {
    match op {
        TreeOp::Insert(child, spec) => child_inserted(before, child, spec, after),
        TreeOp::Remove(id) => child_removed(before, id, after),
    }
}

/// The children that are linked after these operations, those first that were linked first: a
/// child that is linked again while it is linked stays where it is.
pub open spec fn start_order(ops: Seq<TreeOp>) -> Seq<ActorCell>
    decreases ops.len(),
{
    if ops.len() == 0 {
        Seq::empty()
    } else {
        let cells = start_order(ops.drop_last());
        match ops.last() {
            TreeOp::Insert(child, spec) => if exists|i: int|
                0 <= i < cells.len() && (#[trigger] cells[i]).id == child.id {
                cells
            } else {
                cells.push(child)
            },
            TreeOp::Remove(id) => without(cells, id),
        }
    }
}

/// The children of a tree stand in the order in which they were linked, whatever was linked and
/// removed. `trees` are the children of the tree, empty at first, before the first operation and
/// after each.
pub proof fn law_start_order(ops: Seq<TreeOp>, trees: Seq<Seq<(ActorCell, ChildSpec)>>)
    requires
        trees.len() == ops.len() + 1,
        trees[0] == Seq::<(ActorCell, ChildSpec)>::empty(),
        forall|k: int|
            0 <= k < ops.len() ==> applied(#[trigger] trees[k], ops[k], trees[k + 1]),
    ensures
        cells_of(trees.last()) == start_order(ops),
        distinct_ids(trees.last()),
    decreases ops.len(),
{
    if ops.len() == 0 {
        assert(cells_of(trees.last()) =~= Seq::empty());
    } else {
        let k = ops.len() - 1;
        let earlier = trees.drop_last();
        assert forall|j: int| 0 <= j < k implies applied(
            #[trigger] earlier[j],
            ops.drop_last()[j],
            earlier[j + 1],
        ) by {
            assert(earlier[j] == trees[j]);
        }
        law_start_order(ops.drop_last(), earlier);
        let before = trees[k];
        let cells = cells_of(before);
        assert(applied(before, ops[k], trees.last()));
        match ops[k] {
            TreeOp::Insert(child, spec) => {
                law_insert_keeps_order(before, child, spec, trees.last());
                law_insert_then_get(before, child, spec, trees.last(), child.id, None);
                if no_child(before, child.id) {
                    assert forall|i: int| 0 <= i < cells.len() implies (#[trigger] cells[i]).id
                        != child.id by {
                        assert(!child_at(before, child.id, i));
                    }
                } else {
                    let i = choose|i: int| #[trigger] child_at(before, child.id, i);
                    assert(cells[i].id == child.id);
                }
            },
            TreeOp::Remove(id) => {
                law_remove_keeps_order(before, id, trees.last());
                law_remove_then_get(before, id, trees.last(), id, None);
            },
        }
    }
}

/// Taking out what was just put in gives back the children as they were, if it was not there
/// before.
pub proof fn law_remove_undoes_insert(
    before: Seq<(ActorCell, ChildSpec)>,
    child: ActorCell,
    spec: ChildSpec,
    between: Seq<(ActorCell, ChildSpec)>,
    after: Seq<(ActorCell, ChildSpec)>,
)
    requires
        no_child(before, child.id),
        child_inserted(before, child, spec, between),
        child_removed(between, child.id, after),
    ensures
        after == before,
{
    assert(child_at(between, child.id, before.len() as int));
    assert(after =~= before);
}

/// Once a supervisor is set, an actor is a child of it and of nobody else; once it is cleared,
/// of nobody.
pub proof fn law_one_parent(before: TreeView, parent: ActorCell, id: ActorId)
    ensures
        (TreeView { supervisor: Some(parent), ..before }).has_parent(id) <==> id == parent.id,
        !(TreeView { supervisor: None, ..before }).has_parent(id),
{
}

proof fn lemma_one_spec(
    children: Seq<(ActorCell, ChildSpec)>,
    id: ActorId,
    a: Option<ChildSpec>,
    b: Option<ChildSpec>,
)
    requires
        spec_found(children, id, a),
        spec_found(children, id, b),
    ensures
        a == b,
{
    if exists|i: int| #[trigger] child_at(children, id, i) {
        let i = choose|i: int| #[trigger] child_at(children, id, i);
        assert(a == Some(children[i].1));
    }
}

/// The spec that a child of the given id was last linked with, if it was not removed since.
pub open spec fn latest_spec(ops: Seq<TreeOp>, id: ActorId) -> Option<ChildSpec>
    decreases ops.len(),
{
    if ops.len() == 0 {
        None
    } else {
        match ops.last() {
            TreeOp::Insert(child, spec) => if child.id == id {
                Some(spec)
            } else {
                latest_spec(ops.drop_last(), id)
            },
            TreeOp::Remove(removed) => if removed == id {
                None
            } else {
                latest_spec(ops.drop_last(), id)
            },
        }
    }
}

/// What is asked of a child gives the spec that it was last linked with, and nothing if it was
/// never linked or is removed, whatever else was linked and removed. `trees` are the children of
/// the tree, empty at first, before the first operation and after each.
pub proof fn law_get_gives_the_latest(
    ops: Seq<TreeOp>,
    trees: Seq<Seq<(ActorCell, ChildSpec)>>,
    id: ActorId,
    got: Option<ChildSpec>,
)
    requires
        trees.len() == ops.len() + 1,
        trees[0] == Seq::<(ActorCell, ChildSpec)>::empty(),
        forall|k: int|
            0 <= k < ops.len() ==> applied(#[trigger] trees[k], ops[k], trees[k + 1]),
        spec_found(trees.last(), id, got),
    ensures
        got == latest_spec(ops, id),
{
    lemma_latest_found(ops, trees, id);
    lemma_one_spec(trees.last(), id, got, latest_spec(ops, id));
}

proof fn lemma_latest_found(
    ops: Seq<TreeOp>,
    trees: Seq<Seq<(ActorCell, ChildSpec)>>,
    id: ActorId,
)
    requires
        trees.len() == ops.len() + 1,
        trees[0] == Seq::<(ActorCell, ChildSpec)>::empty(),
        forall|k: int|
            0 <= k < ops.len() ==> applied(#[trigger] trees[k], ops[k], trees[k + 1]),
    ensures
        spec_found(trees.last(), id, latest_spec(ops, id)),
    decreases ops.len(),
{
    if ops.len() > 0 {
        let k = ops.len() - 1;
        let earlier = trees.drop_last();
        assert forall|j: int| 0 <= j < k implies applied(
            #[trigger] earlier[j],
            ops.drop_last()[j],
            earlier[j + 1],
        ) by {
            assert(earlier[j] == trees[j]);
        }
        lemma_latest_found(ops.drop_last(), earlier, id);
        law_start_order(ops.drop_last(), earlier);
        let was = latest_spec(ops.drop_last(), id);
        assert(applied(trees[k], ops[k], trees.last()));
        match ops[k] {
            TreeOp::Insert(child, spec) => {
                law_insert_then_get(trees[k], child, spec, trees.last(), id, was);
            },
            TreeOp::Remove(removed) => {
                law_remove_then_get(trees[k], removed, trees.last(), id, was);
            },
        }
    }
}

} // verus!

//! What a Page's Unit rows hold once the writes planned for an edit batch
//! are applied, and why reading them back gives the planned order.

use vstd::prelude::*;

use crate::unit::{
    Patch, UnitEdit, UnitOrder, created_by, is_first_pos, lemma_first_pos, lemma_moved_rearranges, next_in,
    opt_view, order_ids, persisted_next, planned_order, successor_changes, with_created, with_moves,
};
use crate::chain::{
    Linked, chain_orderable, distinct_ids, id_after, is_chain, is_chain_arrangement, lemma_links_read_back, link_ids,
};
use crate::writes::{create_rows, last_successor, planned_change, planned_next};

verus! {

broadcast use {
    vstd::seq_lib::group_seq_properties,
    vstd::seq_lib::group_to_multiset_ensures,
    vstd::multiset::group_multiset_axioms,
};

/// The ids of the Units created by the first `i` edits, in edit order.
pub open spec fn created_ids(edits: Seq<UnitEdit>, i: nat) -> Seq<Seq<char>>
    decreases i,
{
    if i == 0 {
        Seq::empty()
    } else {
        let rest = created_ids(edits, (i - 1) as nat);
        match edits[i - 1] {
            UnitEdit::Create { id, .. } => rest.push(id@),
            _ => rest,
        }
    }
}

/// The successor that the row of `x` holds once the batch is written: the
/// link its update rewrites, else the link of its insert, else its
/// persisted link.
pub open spec fn written_link(
    orders: Seq<UnitOrder>,
    edits: Seq<UnitEdit>,
    ids: Seq<Seq<char>>,
    succ: Seq<(Seq<char>, Option<Seq<char>>)>,
    x: Seq<char>,
) -> Option<Seq<char>> {
    match planned_change(edits, ids, succ, x).0 {
        Some(n) => n,
        None => if created_by(edits, x) {
            planned_next(ids, x)
        } else {
            persisted_next(orders, x)->0
        },
    }
}

proof fn lemma_created_ids_of_rows(edits: Seq<UnitEdit>, ids: Seq<Seq<char>>, i: nat)
    requires
        i <= edits.len(),
    ensures
        create_rows(edits, ids, i).map_values(|p: (Seq<char>, Option<Seq<char>>)| p.0) == created_ids(edits, i),
    decreases i,
{
    if i > 0 {
        lemma_created_ids_of_rows(edits, ids, (i - 1) as nat);
        let prev = create_rows(edits, ids, (i - 1) as nat);
        match edits[i - 1] {
            UnitEdit::Create { id, .. } => {
                let p = (id@, planned_next(ids, id@));
                assert(prev.push(p).map_values(|p: (Seq<char>, Option<Seq<char>>)| p.0) =~= prev.map_values(
                    |p: (Seq<char>, Option<Seq<char>>)| p.0,
                ).push(id@));
            },
            _ => {},
        }
    }
}

proof fn lemma_with_created_appends(start: Seq<Seq<char>>, edits: Seq<UnitEdit>, i: nat)
    requires
        i <= edits.len(),
        start.no_duplicates(),
        with_created(start, edits, i) is Some,
    ensures
        with_created(start, edits, i)->0 == start + created_ids(edits, i),
        with_created(start, edits, i)->0.no_duplicates(),
    decreases i,
{
    if i > 0 {
        lemma_with_created_appends(start, edits, (i - 1) as nat);
        let prev = with_created(start, edits, (i - 1) as nat)->0;
        match edits[i - 1] {
            UnitEdit::Create { id, .. } => {
                assert(!prev.contains(id@));
                assert((start + created_ids(edits, (i - 1) as nat)).push(id@) =~= start + created_ids(
                    edits,
                    (i - 1) as nat,
                ).push(id@));
                assert forall|a: int, b: int| 0 <= a < b < prev.len() + 1 implies prev.push(id@)[a] != prev.push(
                    id@,
                )[b] by {
                    if b == prev.len() {
                        assert(prev[a] != id@);
                    }
                }
            },
            _ => {},
        }
    } else {
        assert(start + Seq::<Seq<char>>::empty() =~= start);
    }
}

proof fn lemma_with_moves_rearranges(start: Seq<Seq<char>>, edits: Seq<UnitEdit>, i: nat)
    requires
        i <= edits.len(),
        with_moves(start, edits, i) is Some,
    ensures
        with_moves(start, edits, i)->0.to_multiset() == start.to_multiset(),
    decreases i,
{
    if i > 0 {
        let prev_r = with_moves(start, edits, (i - 1) as nat);
        if prev_r is None {
            assert(with_moves(start, edits, i) is None);
        }
        lemma_with_moves_rearranges(start, edits, (i - 1) as nat);
        let prev = prev_r->0;
        match edits[i - 1] {
            UnitEdit::Create { id, next_id, .. } => {
                lemma_moved_rearranges(prev, id@, opt_view(next_id));
            },
            UnitEdit::Save { id, next_id, .. } => {
                match next_id {
                    Patch::Skip => {},
                    Patch::Clear => {
                        lemma_moved_rearranges(prev, id@, None);
                    },
                    Patch::Assign(n) => {
                        lemma_moved_rearranges(prev, id@, Some(n@));
                    },
                }
            },
            UnitEdit::Delete { .. } => {},
        }
    }
}

proof fn lemma_same_multiset_no_duplicates(a: Seq<Seq<char>>, b: Seq<Seq<char>>)
    requires
        a.no_duplicates(),
        a.to_multiset() == b.to_multiset(),
    ensures
        b.no_duplicates(),
{
    a.lemma_multiset_has_no_duplicates();
    b.lemma_multiset_has_no_duplicates_conv();
}

/// A planned order holds every persisted Unit and every created one, each
/// once.
pub proof fn lemma_planned_order_rows(orders: Seq<UnitOrder>, edits: Seq<UnitEdit>)
    requires
        order_ids(orders).no_duplicates(),
        planned_order(orders, edits) is Some,
    ensures
        planned_order(orders, edits)->0.no_duplicates(),
        planned_order(orders, edits)->0.to_multiset() == (order_ids(orders) + created_ids(
            edits,
            edits.len(),
        )).to_multiset(),
{
    let start = order_ids(orders);
    lemma_with_created_appends(start, edits, edits.len());
    let created = with_created(start, edits, edits.len())->0;
    lemma_with_moves_rearranges(created, edits, edits.len());
    lemma_same_multiset_no_duplicates(created, planned_order(orders, edits)->0);
}

proof fn lemma_last_successor_from_plan(orders: Seq<UnitOrder>, ids: Seq<Seq<char>>, m: nat, x: Seq<char>)
    requires
        m <= ids.len(),
    ensures
        last_successor(successor_changes(orders, ids, m), x) matches Some(n) ==> exists|j: int|
            0 <= j < m && ids[j] == x && n == next_in(ids, j),
        forall|j: int|
            0 <= j < m && ids[j] == x && persisted_next(orders, x) != Some(next_in(ids, j))
                ==> last_successor(successor_changes(orders, ids, m), x) is Some,
    decreases m,
{
    if m > 0 {
        lemma_last_successor_from_plan(orders, ids, (m - 1) as nat, x);
        let rest = successor_changes(orders, ids, (m - 1) as nat);
        let p = (ids[m - 1], next_in(ids, m - 1));
        if successor_changes(orders, ids, m) != rest {
            assert(successor_changes(orders, ids, m) == rest.push(p));
            assert(rest.push(p).drop_last() =~= rest);
        }
    }
}

/// Reading back what a batch wrote gives its planned order: once the
/// inserts and updates planned for a batch are applied to a Page whose
/// persisted Units have distinct ids, every Unit of the planned order links
/// to the Unit after it and the last to none, the planned order names each
/// Unit once, and the rows are exactly the persisted and the created Units.
pub proof fn lemma_written_rows_follow_plan(orders: Seq<UnitOrder>, edits: Seq<UnitEdit>)
    requires
        order_ids(orders).no_duplicates(),
        planned_order(orders, edits) is Some,
    ensures
        ({
            let ids = planned_order(orders, edits)->0;
            let succ = successor_changes(orders, ids, ids.len());
            &&& ids.no_duplicates()
            &&& ids.to_multiset() == (order_ids(orders) + create_rows(edits, ids, edits.len()).map_values(
                |p: (Seq<char>, Option<Seq<char>>)| p.0,
            )).to_multiset()
            &&& forall|k: int| 0 <= k < ids.len() ==> #[trigger] written_link(orders, edits, ids, succ, ids[k])
                == next_in(ids, k)
        }),
{
    let ids = planned_order(orders, edits)->0;
    let succ = successor_changes(orders, ids, ids.len());
    lemma_planned_order_rows(orders, edits);
    lemma_created_ids_of_rows(edits, ids, edits.len());
    assert forall|k: int| 0 <= k < ids.len() implies #[trigger] written_link(orders, edits, ids, succ, ids[k])
        == next_in(ids, k) by {
        let x = ids[k];
        assert(is_first_pos(ids, x, k));
        lemma_first_pos(ids, x, k);
        lemma_last_successor_from_plan(orders, ids, ids.len(), x);
        match last_successor(succ, x) {
            Some(n) => {
                let j = choose|j: int| 0 <= j < ids.len() && ids[j] == x && n == next_in(ids, j);
                assert(j == k);
            },
            None => {
                assert(persisted_next(orders, x) == Some(next_in(ids, k)));
            },
        }
    }
}

/// Reading back a written batch gives its planned order: when the rows of a
/// Page are the persisted and the created Units, each holding the link the
/// batch wrote for it, the rows can be put in list order, and that order is
/// exactly the planned one.
pub proof fn lemma_read_back_planned_order<T: Linked>(orders: Seq<UnitOrder>, edits: Seq<UnitEdit>, rows: Seq<T>)
    requires
        order_ids(orders).no_duplicates(),
        planned_order(orders, edits) is Some,
        link_ids(rows).to_multiset() == (order_ids(orders) + created_ids(edits, edits.len())).to_multiset(),
        forall|i: int|
            0 <= i < rows.len() ==> #[trigger] rows[i].link_next() == written_link(
                orders,
                edits,
                planned_order(orders, edits)->0,
                successor_changes(orders, planned_order(orders, edits)->0, planned_order(orders, edits)->0.len()),
                rows[i].link_id(),
            ),
    ensures
        chain_orderable(rows),
        forall|t: Seq<T>| is_chain_arrangement(t, rows) ==> link_ids(t) == planned_order(orders, edits)->0,
{
    let ids = planned_order(orders, edits)->0;
    let succ = successor_changes(orders, ids, ids.len());
    lemma_written_rows_follow_plan(orders, edits);
    lemma_planned_order_rows(orders, edits);
    assert forall|i: int, k: int|
        0 <= i < rows.len() && 0 <= k < ids.len() && #[trigger] rows[i].link_id() == #[trigger] ids[k] implies rows[i].link_next()
            == id_after(ids, k) by {
        assert(written_link(orders, edits, ids, succ, ids[k]) == next_in(ids, k));
    }
    lemma_links_read_back(rows, ids);
}

proof fn lemma_persisted_next_of_distinct(orders: Seq<UnitOrder>, j: int)
    requires
        distinct_ids(orders),
        0 <= j < orders.len(),
    ensures
        persisted_next(orders, orders[j].id@) == Some(opt_view(orders[j].next_id)),
    decreases orders.len(),
{
    let x = orders[j].id@;
    let prev = orders.drop_last();
    if j < orders.len() - 1 {
        assert(distinct_ids(prev)) by {
            assert forall|a: int, b: int| 0 <= a < prev.len() && 0 <= b < prev.len() && a != b implies #[trigger] prev[a].link_id()
                != #[trigger] prev[b].link_id() by {
                assert(orders[a].link_id() != orders[b].link_id());
            }
        }
        lemma_persisted_next_of_distinct(prev, j);
        assert(prev[j] == orders[j]);
    } else {
        if persisted_next(prev, x) is Some {
            lemma_persisted_next_some_has_match(prev, x);
            let w = choose|w: int| 0 <= w < prev.len() && prev[w].id@ == x;
            assert(orders[w].link_id() != orders[j].link_id());
        }
    }
}

proof fn lemma_persisted_next_some_has_match(orders: Seq<UnitOrder>, x: Seq<char>)
    requires
        persisted_next(orders, x) is Some,
    ensures
        exists|w: int| 0 <= w < orders.len() && orders[w].id@ == x,
    decreases orders.len(),
{
    let prev = orders.drop_last();
    if persisted_next(prev, x) is Some {
        lemma_persisted_next_some_has_match(prev, x);
        let w = choose|w: int| 0 <= w < prev.len() && prev[w].id@ == x;
        assert(orders[w] == prev[w]);
    } else {
        assert(orders[orders.len() - 1].id@ == x);
    }
}

/// A Page whose Units already stand in their list order needs no link
/// rewritten when the planned order is the persisted one: an edit batch that
/// moves nothing writes no successor link.
pub proof fn lemma_chain_needs_no_relink(orders: Seq<UnitOrder>)
    requires
        is_chain(orders),
    ensures
        successor_changes(orders, order_ids(orders), orders.len()) == Seq::<(Seq<char>, Option<Seq<char>>)>::empty(),
{
    let ids = order_ids(orders);
    assert forall|k: int| 0 <= k < ids.len() implies persisted_next(orders, #[trigger] ids[k]) == Some(next_in(ids, k)) by {
        lemma_persisted_next_of_distinct(orders, k);
        if k + 1 < orders.len() {
            assert(orders[k].link_next() == Some(orders[k + 1].link_id()));
        } else {
            assert(orders.last().link_next() is None);
        }
    }
    lemma_no_relink_prefix(orders, ids, orders.len());
}

proof fn lemma_no_relink_prefix(orders: Seq<UnitOrder>, ids: Seq<Seq<char>>, m: nat)
    requires
        m <= ids.len(),
        forall|k: int| 0 <= k < ids.len() ==> persisted_next(orders, #[trigger] ids[k]) == Some(next_in(ids, k)),
    ensures
        successor_changes(orders, ids, m) == Seq::<(Seq<char>, Option<Seq<char>>)>::empty(),
    decreases m,
{
    if m > 0 {
        lemma_no_relink_prefix(orders, ids, (m - 1) as nat);
        assert(persisted_next(orders, ids[m - 1]) == Some(next_in(ids, m - 1)));
    }
}

} // verus!

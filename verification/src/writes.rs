//! The row inserts and row updates that carry out a planned Unit edit batch.

use vstd::prelude::*;

use crate::error::{BaseRest, ExpectedVariant, fails_expected, fails_unrecoverable};
use crate::model::Duplicate;
use crate::unit::{
    UnitCreateContent, UnitEdit, UnitSaveContent, UnitOrder, apply_order_edits, changed_successors, find_order_pos, first_pos, ids_view,
    invalid_unit_edit_plan_err, invalid_unit_oper_key, lemma_first_pos, link_pairs_view, next_in, opt_view,
    planned_order, successor_changes,
};

verus! {

/// The update of one existing Unit row.
#[derive(Debug)]
pub struct UnitChange {
    /// The updated Unit.
    pub id: String,
    /// The new successor, when the row's link is rewritten.
    pub next_id: Option<Option<String>>,
    /// Whether the row becomes a tombstone.
    pub hide: bool,
    /// The content a save writes to the row, when the Unit is saved.
    pub content: Option<UnitSaveContent>,
}

/// The insert of one created Unit.
#[derive(Debug)]
pub struct UnitCreate {
    /// The created Unit.
    pub id: String,
    /// Its planned successor.
    pub next_id: Option<String>,
    /// What the Unit holds.
    pub content: UnitCreateContent,
}

/// The rows that one edit batch inserts and updates.
#[derive(Debug)]
pub struct UnitWritePlan {
    /// Created Units with their planned successor and content, in edit order.
    pub creates: Vec<UnitCreate>,
    /// Updates of existing rows, one per Unit.
    pub changes: Vec<UnitChange>,
}

/// The id that an edit names.
pub open spec fn edit_id(e: UnitEdit) -> Seq<char> {
    match e {
        UnitEdit::Create { id, .. } => id@,
        UnitEdit::Save { id, .. } => id@,
        UnitEdit::Delete { id } => id@,
    }
}

/// The edit reads its Unit's successor from the plan.
pub open spec fn needs_next(e: UnitEdit) -> bool {
    e is Create || e is Save
}

/// The edit updates an existing row.
pub open spec fn is_row_edit(e: UnitEdit) -> bool {
    e is Save || e is Delete
}

/// The successor of `id` in the planned order.
pub open spec fn planned_next(ids: Seq<Seq<char>>, id: Seq<char>) -> Option<Seq<char>> {
    next_in(ids, first_pos(ids, id))
}

/// Some created or saved Unit is missing from the plan.
pub open spec fn plan_lacks_edit(edits: Seq<UnitEdit>, ids: Seq<Seq<char>>) -> bool {
    exists|k: int| 0 <= k < edits.len() && needs_next(#[trigger] edits[k]) && !ids.contains(edit_id(edits[k]))
}

/// Two save or delete edits name the same Unit.
pub open spec fn edits_one_row_twice(edits: Seq<UnitEdit>) -> bool {
    exists|i: int, j: int|
        0 <= i < j < edits.len() && is_row_edit(#[trigger] edits[i]) && is_row_edit(#[trigger] edits[j])
            && edit_id(edits[i]) == edit_id(edits[j])
}

/// The rows inserted for the Units created by the first `i` edits.
pub open spec fn create_rows(edits: Seq<UnitEdit>, ids: Seq<Seq<char>>, i: nat) -> Seq<(Seq<char>, Option<Seq<char>>)>
    decreases i,
{
    if i == 0 {
        Seq::empty()
    } else {
        let rest = create_rows(edits, ids, (i - 1) as nat);
        match edits[i - 1] {
            UnitEdit::Create { id, .. } => rest.push((id@, planned_next(ids, id@))),
            _ => rest,
        }
    }
}

/// The last successor that `succ` records for `id`.
pub open spec fn last_successor(succ: Seq<(Seq<char>, Option<Seq<char>>)>, id: Seq<char>) -> Option<Option<Seq<char>>>
    decreases succ.len(),
{
    if succ.len() == 0 {
        None
    } else if succ.last().0 == id {
        Some(succ.last().1)
    } else {
        last_successor(succ.drop_last(), id)
    }
}

/// Some edit saves `id`.
pub open spec fn saved_by(edits: Seq<UnitEdit>, id: Seq<char>) -> bool {
    exists|k: int| 0 <= k < edits.len() && #[trigger] edits[k] is Save && edit_id(edits[k]) == id
}

/// Some edit deletes `id`.
pub open spec fn deleted_by(edits: Seq<UnitEdit>, id: Seq<char>) -> bool {
    exists|k: int| 0 <= k < edits.len() && #[trigger] edits[k] is Delete && edit_id(edits[k]) == id
}

/// The row of `id` is updated: it is saved or deleted, or its link changes.
pub open spec fn changed_row(edits: Seq<UnitEdit>, succ: Seq<(Seq<char>, Option<Seq<char>>)>, id: Seq<char>) -> bool {
    saved_by(edits, id) || deleted_by(edits, id) || last_successor(succ, id) is Some
}

/// The update planned for `id`: the rewritten link (a changed successor
/// wins over the saved position) and whether the row is hidden.
pub open spec fn planned_change(
    edits: Seq<UnitEdit>,
    ids: Seq<Seq<char>>,
    succ: Seq<(Seq<char>, Option<Seq<char>>)>,
    id: Seq<char>,
) -> (Option<Option<Seq<char>>>, bool) {
    (
        match last_successor(succ, id) {
            Some(n) => Some(n),
            None => if saved_by(edits, id) {
                Some(planned_next(ids, id))
            } else {
                None
            },
        },
        deleted_by(edits, id),
    )
}

/// The view of an optional link rewrite.
pub open spec fn link_patch_view(o: Option<Option<String>>) -> Option<Option<Seq<char>>> {
    match o {
        Some(n) => Some(opt_view(n)),
        None => None,
    }
}

/// The ids and successors of a list of created rows.
pub open spec fn create_pairs_view(v: Seq<UnitCreate>) -> Seq<(Seq<char>, Option<Seq<char>>)> {
    v.map_values(|c: UnitCreate| (c.id@, opt_view(c.next_id)))
}

/// The contents of a list of created rows.
pub open spec fn create_contents_view(v: Seq<UnitCreate>) -> Seq<UnitCreateContent> {
    v.map_values(|c: UnitCreate| c.content)
}

/// The contents of the Units created by the first `i` edits, in edit order.
pub open spec fn create_contents(edits: Seq<UnitEdit>, i: nat) -> Seq<UnitCreateContent>
    decreases i,
{
    if i == 0 {
        Seq::empty()
    } else {
        let rest = create_contents(edits, (i - 1) as nat);
        match edits[i - 1] {
            UnitEdit::Create { content, .. } => rest.push(content),
            _ => rest,
        }
    }
}

/// The content that edit `e` saves, when it is a save.
pub open spec fn save_content_of(e: UnitEdit) -> Option<UnitSaveContent> {
    match e {
        UnitEdit::Save { content, .. } => Some(content),
        _ => None,
    }
}

/// The content saved for `id`: that of the save naming it, if any.
pub open spec fn saved_content(edits: Seq<UnitEdit>, id: Seq<char>) -> Option<UnitSaveContent> {
    if saved_by(edits, id) {
        save_content_of(edits[choose|k: int| 0 <= k < edits.len() && #[trigger] edits[k] is Save && edit_id(edits[k]) == id])
    } else {
        None
    }
}

/// No two updates name the same Unit.
pub open spec fn distinct_changes(v: Seq<UnitChange>) -> bool {
    forall|a: int, b: int| 0 <= a < b < v.len() ==> (#[trigger] v[a]).id@ != (#[trigger] v[b]).id@
}

/// Looks up the successor of `id` in the plan; `None` when the plan lacks it.
fn plan_next(ordered_ids: &Vec<String>, id: &String) -> (r: Option<Option<String>>)
    ensures
        r is None <==> !ids_view(ordered_ids@).contains(id@),
        r matches Some(n) ==> opt_view(n) == planned_next(ids_view(ordered_ids@), id@),
{
    let ghost ids = ids_view(ordered_ids@);
    match find_order_pos(ordered_ids, id) {
        None => None,
        Some(p) => {
            proof {
                lemma_first_pos(ids, id@, p as int);
                assert(ids[p as int] == id@);
                assert(p < ordered_ids.len());
            }
            if p < ordered_ids.len() - 1 {
                Some(Some(ordered_ids[p + 1].clone()))
            } else {
                Some(None)
            }
        },
    }
}

/// Finds the update that names `id`.
fn find_change(changes: &Vec<UnitChange>, id: &String) -> (r: Option<usize>)
    ensures
        r matches Some(k) ==> k < changes.len() && changes@[k as int].id@ == id@,
        r is None ==> forall|k: int| 0 <= k < changes.len() ==> (#[trigger] changes@[k]).id@ != id@,
{
    let n = changes.len();
    let mut k: usize = 0;
    while k < n
        invariant
            n == changes.len(),
            k <= n,
            forall|j: int| 0 <= j < k ==> (#[trigger] changes@[j]).id@ != id@,
        decreases n - k,
    {
        if changes[k].id.eq(id) {
            return Some(k);
        }
        k += 1;
    }
    None
}

fn dup_link(o: &Option<String>) -> (r: Option<String>)
    ensures
        opt_view(r) == opt_view(*o),
{
    match o {
        Some(s) => Some(s.clone()),
        None => None,
    }
}

proof fn lemma_create_rows_step(edits: Seq<UnitEdit>, ids: Seq<Seq<char>>, i: nat)
    requires
        i < edits.len(),
    ensures
        create_rows(edits, ids, i + 1) == (match edits[i as int] {
            UnitEdit::Create { id, .. } => create_rows(edits, ids, i).push((id@, planned_next(ids, id@))),
            _ => create_rows(edits, ids, i),
        }),
        create_contents(edits, i + 1) == (match edits[i as int] {
            UnitEdit::Create { content, .. } => create_contents(edits, i).push(content),
            _ => create_contents(edits, i),
        }),
{
}

fn dup_save_content(o: &Option<UnitSaveContent>) -> (r: Option<UnitSaveContent>)
    ensures
        r == *o,
{
    match o {
        Some(c) => Some(c.duplicate()),
        None => None,
    }
}

proof fn lemma_last_successor_step(succ: Seq<(Seq<char>, Option<Seq<char>>)>, t: int)
    requires
        0 <= t < succ.len(),
    ensures
        forall|id: Seq<char>| #[trigger] last_successor(succ.take(t + 1), id) == if succ[t].0 == id {
            Some(succ[t].1)
        } else {
            last_successor(succ.take(t), id)
        },
{
    assert(succ.take(t + 1).drop_last() =~= succ.take(t));
    assert(succ.take(t + 1).last() == succ[t]);
}

/// With no Unit saved or deleted twice, a save and a delete never name the
/// same Unit.
proof fn lemma_single_row_edit(edits: Seq<UnitEdit>, id: Seq<char>)
    requires
        !edits_one_row_twice(edits),
    ensures
        !(saved_by(edits, id) && deleted_by(edits, id)),
{
    if saved_by(edits, id) && deleted_by(edits, id) {
        let a = choose|k: int| 0 <= k < edits.len() && #[trigger] edits[k] is Save && edit_id(edits[k]) == id;
        let b = choose|k: int| 0 <= k < edits.len() && #[trigger] edits[k] is Delete && edit_id(edits[k]) == id;
        assert(is_row_edit(edits[a]) && is_row_edit(edits[b]));
        assert(a != b);
        if a < b {
            assert(edits_one_row_twice(edits));
        } else {
            assert(edits_one_row_twice(edits));
        }
    }
}

/// `c` is the update that row edit `j` asks for.
#[verifier::opaque]
pub open spec fn from_row_edit(edits: Seq<UnitEdit>, ids: Seq<Seq<char>>, j: int, c: UnitChange) -> bool {
    &&& 0 <= j < edits.len()
    &&& is_row_edit(edits[j])
    &&& edit_id(edits[j]) == c.id@
    &&& c.hide == (edits[j] is Delete)
    &&& link_patch_view(c.next_id) == if edits[j] is Save {
        Some(planned_next(ids, edit_id(edits[j])))
    } else {
        None
    }
    &&& c.content == save_content_of(edits[j])
}

/// `c` is the update planned for a saved or deleted Unit.
pub open spec fn row_change_planned(edits: Seq<UnitEdit>, ids: Seq<Seq<char>>, c: UnitChange) -> bool {
    &&& saved_by(edits, c.id@) || deleted_by(edits, c.id@)
    &&& c.hide == deleted_by(edits, c.id@)
    &&& link_patch_view(c.next_id) == if saved_by(edits, c.id@) {
        Some(planned_next(ids, c.id@))
    } else {
        None
    }
    &&& c.content == saved_content(edits, c.id@)
}

/// Every Unit saved by the first `i` edits is in the plan.
pub open spec fn saves_planned(edits: Seq<UnitEdit>, ids: Seq<Seq<char>>, i: int) -> bool {
    forall|k: int| 0 <= k < i && (#[trigger] edits[k]) is Save ==> ids.contains(edit_id(edits[k]))
}

/// No two of the first `i` edits save or delete the same Unit.
pub open spec fn row_edits_distinct(edits: Seq<UnitEdit>, i: int) -> bool {
    forall|a: int, b: int|
        0 <= a < b < i && is_row_edit(#[trigger] edits[a]) && is_row_edit(#[trigger] edits[b]) ==> edit_id(edits[a])
            != edit_id(edits[b])
}

proof fn lemma_row_change_planned(edits: Seq<UnitEdit>, ids: Seq<Seq<char>>, j: int, c: UnitChange)
    requires
        from_row_edit(edits, ids, j, c),
        !edits_one_row_twice(edits),
    ensures
        row_change_planned(edits, ids, c),
{
    reveal(from_row_edit);
    lemma_single_row_edit(edits, c.id@);
    if edits[j] is Save {
        assert(saved_by(edits, c.id@));
        let k = choose|k: int| 0 <= k < edits.len() && #[trigger] edits[k] is Save && edit_id(edits[k]) == c.id@;
        if k != j {
            assert(is_row_edit(edits[k]) && is_row_edit(edits[j]));
            if k < j {
                assert(edits_one_row_twice(edits));
            } else {
                assert(edits_one_row_twice(edits));
            }
        }
    } else {
        assert(deleted_by(edits, c.id@));
    }
}

/// Collects the updates that save and delete edits ask for, one per Unit.
#[verifier::rlimit(40)]
fn collect_row_changes(edits: &Vec<UnitEdit>, ordered_ids: &Vec<String>) -> (r: BaseRest<Vec<UnitChange>>)
    ensures
        r is Err <==> !saves_planned(edits@, ids_view(ordered_ids@), edits.len() as int) || edits_one_row_twice(edits@),
        r is Err ==> fails_unrecoverable(r, "normalized Unit edits disagree with edit plan"@),
        r matches Ok(v) ==> {
            &&& distinct_changes(v@)
            &&& forall|k: int| 0 <= k < v.len() ==> row_change_planned(edits@, ids_view(ordered_ids@), #[trigger] v@[k])
            &&& forall|j: int| 0 <= j < edits.len() && is_row_edit(#[trigger] edits@[j]) ==> exists|k: int|
                0 <= k < v.len() && (#[trigger] v@[k]).id@ == edit_id(edits@[j])
        },
{
    let ghost ids = ids_view(ordered_ids@);
    let m = edits.len();
    let mut changes: Vec<UnitChange> = Vec::new();
    let ghost mut w: Seq<int> = Seq::empty();
    let mut i: usize = 0;
    while i < m
        invariant
            m == edits.len(),
            i <= m,
            ids == ids_view(ordered_ids@),
            saves_planned(edits@, ids, i as int),
            row_edits_distinct(edits@, i as int),
            distinct_changes(changes@),
            w.len() == changes.len(),
            forall|k: int| #![trigger w[k]] 0 <= k < changes.len() ==> w[k] < i && from_row_edit(edits@, ids, w[k], changes@[k]),
            forall|j: int| 0 <= j < i && is_row_edit(#[trigger] edits@[j]) ==> exists|k: int|
                0 <= k < changes.len() && (#[trigger] changes@[k]).id@ == edit_id(edits@[j]),
        decreases m - i,
    {
        let row: Option<(&String, Option<Option<String>>, bool, Option<UnitSaveContent>)> = match &edits[i] {
            UnitEdit::Save { id, content, .. } => match plan_next(ordered_ids, id) {
                Some(n) => Some((id, Some(n), false, Some(content.duplicate()))),
                None => {
                    assert(!saves_planned(edits@, ids, m as int));
                    return Err(invalid_unit_edit_plan_err());
                },
            },
            UnitEdit::Delete { id } => Some((id, None, true, None)),
            UnitEdit::Create { .. } => None,
        };
        if let Some((id, next, hide, content)) = row {
            assert(edit_id(edits@[i as int]) == id@);
            assert(is_row_edit(edits@[i as int]));
            if let Some(k) = find_change(&changes, id) {
                proof {
                    let j = w[k as int];
                    assert(from_row_edit(edits@, ids, j, changes@[k as int]));
                    reveal(from_row_edit);
                    assert(is_row_edit(edits@[j]) && is_row_edit(edits@[i as int]));
                    assert(edits_one_row_twice(edits@));
                }
                return Err(invalid_unit_edit_plan_err());
            }
            let ghost before = changes@;
            let change = UnitChange { id: id.clone(), next_id: next, hide, content };
            assert(from_row_edit(edits@, ids, i as int, change)) by {
                reveal(from_row_edit);
            }
            changes.push(change);
            proof {
                let wb = w;
                w = w.push(i as int);
                assert forall|a: int, b: int| 0 <= a < b < i + 1 && is_row_edit(#[trigger] edits@[a]) && is_row_edit(
                    #[trigger] edits@[b],
                ) implies edit_id(edits@[a]) != edit_id(edits@[b]) by {
                    if b == i {
                        let k = choose|k: int| 0 <= k < before.len() && (#[trigger] before[k]).id@ == edit_id(edits@[a]);
                        assert(before[k].id@ != id@);
                    }
                }
                assert forall|k: int| #![trigger w[k]] 0 <= k < changes.len() implies w[k] < i + 1 && from_row_edit(
                    edits@,
                    ids,
                    w[k],
                    changes@[k],
                ) by {
                    if k < before.len() {
                        assert(changes@[k] == before[k]);
                        assert(w[k] == wb[k]);
                        assert(from_row_edit(edits@, ids, wb[k], before[k]));
                        assert(wb[k] < i);
                    } else {
                        assert(w[k] == i);
                        assert(changes@[k] == change);
                    }
                }
                assert forall|j: int| 0 <= j < i + 1 && is_row_edit(#[trigger] edits@[j]) implies exists|k: int|
                    0 <= k < changes.len() && (#[trigger] changes@[k]).id@ == edit_id(edits@[j]) by {
                    if j < i {
                        let k = choose|k: int| 0 <= k < before.len() && (#[trigger] before[k]).id@ == edit_id(edits@[j]);
                        assert(changes@[k] == before[k]);
                    } else {
                        assert(changes@[before.len() as int].id@ == id@);
                    }
                }
            }
        }
        i += 1;
    }
    proof {
        if edits_one_row_twice(edits@) {
            let (a, b) = choose|a: int, b: int|
                0 <= a < b < edits.len() && is_row_edit(#[trigger] edits@[a]) && is_row_edit(#[trigger] edits@[b])
                    && edit_id(edits@[a]) == edit_id(edits@[b]);
        }
        assert(!edits_one_row_twice(edits@));
        assert forall|k: int| 0 <= k < changes.len() implies row_change_planned(edits@, ids, #[trigger] changes@[k]) by {
            lemma_row_change_planned(edits@, ids, w[k], changes@[k]);
        }
    }
    Ok(changes)
}

/// Turns a planned edit batch into its row writes: one insert per created
/// Unit with its planned successor, and one update per saved, deleted or
/// relinked Unit, where a changed successor overrides the saved position.
///
/// The batch disagrees with its plan, an unrecoverable error, when a
/// created or saved Unit is missing from the planned order or two save or
/// delete edits name the same Unit.
#[verifier::rlimit(40)]
pub fn plan_unit_writes(
    edits: &Vec<UnitEdit>,
    ordered_ids: &Vec<String>,
    successors: &Vec<(String, Option<String>)>,
) -> (r: BaseRest<UnitWritePlan>)
    ensures
        r is Err <==> plan_lacks_edit(edits@, ids_view(ordered_ids@)) || edits_one_row_twice(edits@),
        r is Err ==> fails_unrecoverable(r, "normalized Unit edits disagree with edit plan"@),
        r matches Ok(p) ==> {
            let ids = ids_view(ordered_ids@);
            let succ = link_pairs_view(successors@);
            &&& create_pairs_view(p.creates@) == create_rows(edits@, ids, edits.len() as nat)
            &&& create_contents_view(p.creates@) == create_contents(edits@, edits.len() as nat)
            &&& distinct_changes(p.changes@)
            &&& forall|k: int| 0 <= k < p.changes.len() ==> {
                let c = #[trigger] p.changes@[k];
                &&& changed_row(edits@, succ, c.id@)
                &&& (link_patch_view(c.next_id), c.hide) == planned_change(edits@, ids, succ, c.id@)
                &&& c.content == saved_content(edits@, c.id@)
            }
            &&& forall|id: Seq<char>| #[trigger] changed_row(edits@, succ, id) ==> exists|k: int|
                0 <= k < p.changes.len() && (#[trigger] p.changes@[k]).id@ == id
        },
{
    let ghost ids = ids_view(ordered_ids@);
    let ghost succ = link_pairs_view(successors@);
    let m = edits.len();

    // Rows to insert.
    let mut creates: Vec<UnitCreate> = Vec::new();
    let mut i: usize = 0;
    while i < m
        invariant
            m == edits.len(),
            i <= m,
            ids == ids_view(ordered_ids@),
            create_pairs_view(creates@) == create_rows(edits@, ids, i as nat),
            create_contents_view(creates@) == create_contents(edits@, i as nat),
            forall|k: int| 0 <= k < i && needs_next(#[trigger] edits@[k]) && edits@[k] is Create ==> ids.contains(edit_id(edits@[k])),
        decreases m - i,
    {
        proof {
            lemma_create_rows_step(edits@, ids, i as nat);
        }
        if let UnitEdit::Create { id, content, .. } = &edits[i] {
            let next = match plan_next(ordered_ids, id) {
                Some(n) => n,
                None => {
                    assert(needs_next(edits@[i as int]));
                    return Err(invalid_unit_edit_plan_err());
                },
            };
            let ghost before = create_pairs_view(creates@);
            let ghost before_contents = create_contents_view(creates@);
            creates.push(UnitCreate { id: id.clone(), next_id: next, content: content.duplicate() });
            assert(create_pairs_view(creates@) =~= before.push((id@, planned_next(ids, id@))));
            assert(create_contents_view(creates@) =~= before_contents.push(*content));
        }
        i += 1;
    }

    // Updates named by save and delete edits.
    let mut changes = match collect_row_changes(edits, ordered_ids) {
        Ok(changes) => changes,
        Err(e) => {
            proof {
                if !saves_planned(edits@, ids, m as int) {
                    let k = choose|k: int| 0 <= k < m && (#[trigger] edits@[k]) is Save && !ids.contains(edit_id(edits@[k]));
                    assert(needs_next(edits@[k]));
                }
            }
            return Err(e);
        },
    };
    proof {
        assert forall|k: int| 0 <= k < edits.len() && needs_next(#[trigger] edits@[k]) implies ids.contains(
            edit_id(edits@[k]),
        ) by {
            if edits@[k] is Save {
                assert(saves_planned(edits@, ids, m as int));
            }
        }
        assert(!plan_lacks_edit(edits@, ids));
    }
    proof {
        let empty = succ.take(0);
        assert(empty.len() == 0);
        assert forall|k: int| 0 <= k < changes.len() implies {
            let c = #[trigger] changes@[k];
            &&& changed_row(edits@, empty, c.id@)
            &&& (link_patch_view(c.next_id), c.hide) == planned_change(edits@, ids, empty, c.id@)
            &&& c.content == saved_content(edits@, c.id@)
        } by {
            assert(row_change_planned(edits@, ids, changes@[k]));
        }
        assert forall|id: Seq<char>| #[trigger] changed_row(edits@, empty, id) implies exists|k: int|
            0 <= k < changes.len() && (#[trigger] changes@[k]).id@ == id by {
            if saved_by(edits@, id) {
                let j = choose|j: int| 0 <= j < m && #[trigger] edits@[j] is Save && edit_id(edits@[j]) == id;
                assert(is_row_edit(edits@[j]));
            } else {
                let j = choose|j: int| 0 <= j < m && #[trigger] edits@[j] is Delete && edit_id(edits@[j]) == id;
                assert(is_row_edit(edits@[j]));
            }
        }
    }

    // Rewritten successor links, the last one for a Unit winning.
    let n = successors.len();
    let mut t: usize = 0;
    while t < n
        invariant
            n == successors.len(),
            t <= n,
            ids == ids_view(ordered_ids@),
            succ == link_pairs_view(successors@),
            !edits_one_row_twice(edits@),
            distinct_changes(changes@),
            forall|k: int| 0 <= k < changes.len() ==> {
                let c = #[trigger] changes@[k];
                &&& changed_row(edits@, succ.take(t as int), c.id@)
                &&& (link_patch_view(c.next_id), c.hide) == planned_change(edits@, ids, succ.take(t as int), c.id@)
                &&& c.content == saved_content(edits@, c.id@)
            },
            forall|id: Seq<char>| #[trigger] changed_row(edits@, succ.take(t as int), id) ==> exists|k: int|
                0 <= k < changes.len() && (#[trigger] changes@[k]).id@ == id,
        decreases n - t,
    {
        let sid = &successors[t].0;
        let snext = dup_link(&successors[t].1);
        let ghost before = changes@;
        let ghost prev = succ.take(t as int);
        let ghost cur = succ.take(t + 1);
        proof {
            lemma_last_successor_step(succ, t as int);
            assert(succ[t as int] == (sid@, opt_view(successors@[t as int].1)));
            assert(last_successor(cur, sid@) == Some(opt_view(snext)));
            assert forall|id: Seq<char>| id != sid@ implies #[trigger] changed_row(edits@, cur, id) == changed_row(
                edits@,
                prev,
                id,
            ) && planned_change(edits@, ids, cur, id) == planned_change(edits@, ids, prev, id) by {
                assert(last_successor(cur, id) == last_successor(prev, id));
            }
        }
        match find_change(&changes, sid) {
            Some(k) => {
                let hide = changes[k].hide;
                let cid = changes[k].id.clone();
                let content = dup_save_content(&changes[k].content);
                changes.set(k, UnitChange { id: cid, next_id: Some(snext), hide, content });
                proof {
                    assert forall|a: int, b: int| 0 <= a < b < changes.len() implies (#[trigger] changes@[a]).id@
                        != (#[trigger] changes@[b]).id@ by {
                        assert(before[a].id@ != before[b].id@);
                    }
                    assert forall|q: int| 0 <= q < changes.len() implies {
                        let c = #[trigger] changes@[q];
                        &&& changed_row(edits@, cur, c.id@)
                        &&& (link_patch_view(c.next_id), c.hide) == planned_change(edits@, ids, cur, c.id@)
                        &&& c.content == saved_content(edits@, c.id@)
                    } by {
                        if q == k {
                            assert(changes@[q].id@ == sid@);
                            assert(before[q].hide == planned_change(edits@, ids, prev, sid@).1);
                        } else {
                            assert(changes@[q] == before[q]);
                            assert(before[q].id@ != before[k as int].id@);
                        }
                    }
                    assert forall|id: Seq<char>| #[trigger] changed_row(edits@, cur, id) implies exists|q: int|
                        0 <= q < changes.len() && (#[trigger] changes@[q]).id@ == id by {
                        if id == sid@ {
                            assert(changes@[k as int].id@ == id);
                        } else {
                            let q = choose|q: int| 0 <= q < before.len() && (#[trigger] before[q]).id@ == id;
                            assert(changes@[q].id@ == before[q].id@);
                        }
                    }
                }
            },
            None => {
                proof {
                    if deleted_by(edits@, sid@) || saved_by(edits@, sid@) {
                        assert(changed_row(edits@, prev, sid@));
                    }
                }
                changes.push(UnitChange { id: sid.clone(), next_id: Some(snext), hide: false, content: None });
                proof {
                    assert forall|a: int, b: int| 0 <= a < b < changes.len() implies (#[trigger] changes@[a]).id@
                        != (#[trigger] changes@[b]).id@ by {
                        if b < before.len() {
                            assert(before[a].id@ != before[b].id@);
                        } else {
                            assert(before[a].id@ != sid@);
                        }
                    }
                    assert forall|q: int| 0 <= q < changes.len() implies {
                        let c = #[trigger] changes@[q];
                        &&& changed_row(edits@, cur, c.id@)
                        &&& (link_patch_view(c.next_id), c.hide) == planned_change(edits@, ids, cur, c.id@)
                        &&& c.content == saved_content(edits@, c.id@)
                    } by {
                        if q < before.len() {
                            assert(changes@[q] == before[q]);
                            assert(before[q].id@ != sid@);
                        } else {
                            assert(changes@[q].id@ == sid@);
                        }
                    }
                    assert forall|id: Seq<char>| #[trigger] changed_row(edits@, cur, id) implies exists|q: int|
                        0 <= q < changes.len() && (#[trigger] changes@[q]).id@ == id by {
                        if id == sid@ {
                            assert(changes@[before.len() as int].id@ == id);
                        } else {
                            let q = choose|q: int| 0 <= q < before.len() && (#[trigger] before[q]).id@ == id;
                            assert(changes@[q] == before[q]);
                        }
                    }
                }
            },
        }
        t += 1;
    }
    assert(succ.take(n as int) =~= succ);
    Ok(UnitWritePlan { creates, changes })
}

/// Plans a whole edit batch against the locked order list: the final order,
/// the successor links that change, and the resulting row writes.
///
/// An invalid batch is refused with the expected error of a Unit
/// operation; a batch whose saved or created Units are missing from the
/// final order, or that saves or deletes one Unit twice, is unrecoverable.
pub fn plan_unit_edits(orders: &Vec<UnitOrder>, edits: &Vec<UnitEdit>) -> (r: BaseRest<UnitWritePlan>)
    ensures
        planned_order(orders@, edits@) is None ==> fails_expected(r, ExpectedVariant::Args, invalid_unit_oper_key()),
        planned_order(orders@, edits@) matches Some(ids) ==> {
            let succ = successor_changes(orders@, ids, ids.len());
            &&& (r is Err <==> plan_lacks_edit(edits@, ids) || edits_one_row_twice(edits@))
            &&& (r is Err ==> fails_unrecoverable(r, "normalized Unit edits disagree with edit plan"@))
            &&& (r matches Ok(p) ==> {
                &&& create_pairs_view(p.creates@) == create_rows(edits@, ids, edits.len() as nat)
                &&& create_contents_view(p.creates@) == create_contents(edits@, edits.len() as nat)
                &&& distinct_changes(p.changes@)
                &&& forall|k: int| 0 <= k < p.changes.len() ==> {
                    let c = #[trigger] p.changes@[k];
                    &&& changed_row(edits@, succ, c.id@)
                    &&& (link_patch_view(c.next_id), c.hide) == planned_change(edits@, ids, succ, c.id@)
                    &&& c.content == saved_content(edits@, c.id@)
                }
                &&& forall|id: Seq<char>| #[trigger] changed_row(edits@, succ, id) ==> exists|k: int|
                    0 <= k < p.changes.len() && (#[trigger] p.changes@[k]).id@ == id
            })
        },
{
    let ordered = match apply_order_edits(orders, edits) {
        Ok(ordered) => ordered,
        Err(e) => return Err(e),
    };
    let successors = changed_successors(orders, &ordered);
    plan_unit_writes(edits, &ordered, &successors)
}

} // verus!

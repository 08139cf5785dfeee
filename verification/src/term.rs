//! Checks guarding batched Term imports.

use vstd::prelude::*;

use crate::error::{BaseRest, fails_unrecoverable, unrecoverable};

verus! {

/// A new Term.
pub struct TermEntry {
    pub id: String,
    pub termbase_id: String,
    pub source: String,
    pub targets: Vec<String>,
    pub comment: Option<String>,
}

/// A replacement of one Term's content.
pub struct TermRepl {
    pub id: String,
    pub source: String,
    pub targets: Vec<String>,
    pub comment: Option<String>,
}

/// The ids of a batch: inserted ids first, then replaced ids.
pub open spec fn batch_ids(entries: Seq<TermEntry>, updates: Seq<TermRepl>) -> Seq<Seq<char>> {
    entries.map_values(|e: TermEntry| e.id@) + updates.map_values(|u: TermRepl| u.id@)
}

/// Every inserted Term belongs to `termbase_id` and no id occurs twice.
pub open spec fn upsert_ids_valid(termbase_id: Seq<char>, entries: Seq<TermEntry>, updates: Seq<TermRepl>) -> bool {
    &&& forall|i: int| 0 <= i < entries.len() ==> #[trigger] entries[i].termbase_id@ == termbase_id
    &&& batch_ids(entries, updates).no_duplicates()
}

/// The message of a rejected batch scope.
pub open spec fn invalid_upsert_message() -> Seq<char> {
    "invalid Term upsert scope or duplicate id"@
}

/// Validates Termbase scope and id uniqueness before executing a batch.
pub fn ensure_upsert_ids(termbase_id: &String, entries: &Vec<TermEntry>, updates: &Vec<TermRepl>) -> (r: BaseRest<()>)
    ensures
        r is Ok <==> upsert_ids_valid(termbase_id@, entries@, updates@),
        r is Err ==> fails_unrecoverable(r, invalid_upsert_message()),
{
    let mut in_scope = true;
    let mut i: usize = 0;
    while i < entries.len()
        invariant
            i <= entries.len(),
            in_scope <==> forall|k: int| 0 <= k < i ==> #[trigger] entries@[k].termbase_id@ == termbase_id@,
        decreases entries.len() - i,
    {
        if !entries[i].termbase_id.eq(termbase_id) {
            in_scope = false;
        }
        i += 1;
    }
    let mut ids: Vec<String> = Vec::new();
    let mut i: usize = 0;
    while i < entries.len()
        invariant
            i <= entries.len(),
            ids@.map_values(|s: String| s@) == entries@.map_values(|e: TermEntry| e.id@).take(i as int),
        decreases entries.len() - i,
    {
        let ghost before = ids@.map_values(|s: String| s@);
        ids.push(entries[i].id.clone());
        assert(ids@.map_values(|s: String| s@) =~= before.push(entries@[i as int].id@));
        assert(entries@.map_values(|e: TermEntry| e.id@).take(i + 1) =~= entries@.map_values(
            |e: TermEntry| e.id@,
        ).take(i as int).push(entries@[i as int].id@));
        i += 1;
    }
    let mut i: usize = 0;
    while i < updates.len()
        invariant
            i <= updates.len(),
            ids@.map_values(|s: String| s@) == entries@.map_values(|e: TermEntry| e.id@)
                + updates@.map_values(|u: TermRepl| u.id@).take(i as int),
        decreases updates.len() - i,
    {
        let ghost before = ids@.map_values(|s: String| s@);
        ids.push(updates[i].id.clone());
        assert(ids@.map_values(|s: String| s@) =~= before.push(updates@[i as int].id@));
        assert(entries@.map_values(|e: TermEntry| e.id@) + updates@.map_values(|u: TermRepl| u.id@).take(i + 1)
            =~= (entries@.map_values(|e: TermEntry| e.id@) + updates@.map_values(
            |u: TermRepl| u.id@,
        ).take(i as int)).push(updates@[i as int].id@));
        i += 1;
    }
    let ghost all = batch_ids(entries@, updates@);
    assert(ids@.map_values(|s: String| s@) =~= all);
    let n = ids.len();
    let mut unique = true;
    let mut a: usize = 0;
    while a < n
        invariant
            n == ids.len(),
            a <= n,
            ids@.map_values(|s: String| s@) == all,
            unique <==> forall|x: int, y: int|
                0 <= x < a && 0 <= y < n && x != y ==> #[trigger] all[x] != #[trigger] all[y],
        decreases n - a,
    {
        let mut b: usize = 0;
        let mut clash = false;
        while b < n
            invariant
                n == ids.len(),
                a < n,
                b <= n,
                ids@.map_values(|s: String| s@) == all,
                clash <==> exists|y: int| 0 <= y < b && y != a && #[trigger] all[y] == all[a as int],
            decreases n - b,
        {
            if b != a && ids[b].eq(&ids[a]) {
                assert(all[b as int] == all[a as int]);
                clash = true;
            }
            b += 1;
        }
        if clash {
            unique = false;
        }
        proof {
            if !clash && unique {
                assert forall|x: int, y: int|
                    0 <= x < a + 1 && 0 <= y < n && x != y implies #[trigger] all[x] != #[trigger] all[y] by {
                    if x == a {
                        assert(all[y] != all[a as int]);
                    }
                }
            }
            if clash {
                let y = choose|y: int| 0 <= y < n && y != a && #[trigger] all[y] == all[a as int];
                assert(all[a as int] == all[y]);
            }
        }
        a += 1;
    }
    if in_scope && unique {
        Ok(())
    } else {
        Err(unrecoverable("invalid Term upsert scope or duplicate id"))
    }
}

/// Verifies that a batch operation changed exactly the requested rows.
pub fn ensure_upsert_affected(operation: &str, affected: usize, expected: usize) -> (r: BaseRest<()>)
    ensures
        r is Ok <==> affected == expected,
        r is Err ==> fails_unrecoverable(r, "Term batch affected an unexpected row count"@),
{
    if affected == expected {
        return Ok(());
    }
    Err(unrecoverable("Term batch affected an unexpected row count"))
}

/// A batch is accepted only when every inserted Term belongs to the
/// requested termbase and no id occurs twice among the inserted and the
/// replaced Terms: one inserted Term of another termbase, wherever it stands,
/// or one id shared by two Terms makes the whole batch fail.
pub proof fn lemma_upsert_scope(termbase_id: Seq<char>, entries: Seq<TermEntry>, updates: Seq<TermRepl>)
    ensures
        upsert_ids_valid(termbase_id, entries, updates) ==> forall|i: int|
            0 <= i < entries.len() ==> #[trigger] entries[i].termbase_id@ == termbase_id,
        (exists|i: int| 0 <= i < entries.len() && #[trigger] entries[i].termbase_id@ != termbase_id)
            ==> !upsert_ids_valid(termbase_id, entries, updates),
        (exists|i: int, j: int| 0 <= i < j < entries.len() && #[trigger] entries[i].id@ == #[trigger] entries[j].id@)
            ==> !upsert_ids_valid(termbase_id, entries, updates),
        (exists|i: int, j: int| 0 <= i < entries.len() && 0 <= j < updates.len() && #[trigger] entries[i].id@
            == #[trigger] updates[j].id@) ==> !upsert_ids_valid(termbase_id, entries, updates),
        (exists|i: int, j: int| 0 <= i < j < updates.len() && #[trigger] updates[i].id@ == #[trigger] updates[j].id@)
            ==> !upsert_ids_valid(termbase_id, entries, updates),
{
    let ids = batch_ids(entries, updates);
    let n = entries.len();
    if exists|i: int, j: int| 0 <= i < j < entries.len() && #[trigger] entries[i].id@ == #[trigger] entries[j].id@ {
        let (i, j) = choose|i: int, j: int| 0 <= i < j < entries.len() && #[trigger] entries[i].id@ == #[trigger] entries[j].id@;
        assert(ids[i] == ids[j]);
    }
    if exists|i: int, j: int| 0 <= i < entries.len() && 0 <= j < updates.len() && #[trigger] entries[i].id@
        == #[trigger] updates[j].id@ {
        let (i, j) = choose|i: int, j: int| 0 <= i < entries.len() && 0 <= j < updates.len() && #[trigger] entries[i].id@
            == #[trigger] updates[j].id@;
        assert(ids[i] == ids[n + j]);
    }
    if exists|i: int, j: int| 0 <= i < j < updates.len() && #[trigger] updates[i].id@ == #[trigger] updates[j].id@ {
        let (i, j) = choose|i: int, j: int| 0 <= i < j < updates.len() && #[trigger] updates[i].id@ == #[trigger] updates[j].id@;
        assert(ids[n + i] == ids[n + j]);
    }
}

} // verus!

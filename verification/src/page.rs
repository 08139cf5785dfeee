//! Decisions taken around Page queries.

use vstd::prelude::*;

use crate::error::{BaseRest, fails_unrecoverable, unrecoverable};

verus! {

/// The message of a Chapter holding too many Pages.
pub open spec fn page_count_message() -> Seq<char> {
    "persisted Chapter Page count exceeds the business maximum"@
}

/// Rejects a persisted Chapter whose Page count exceeds `max_page_count`.
pub fn ensure_chapter_page_count<T>(rows: Vec<T>, chapter_id: &str, operation: &str, max_page_count: usize) -> (r: BaseRest<Vec<T>>)
    ensures
        rows.len() <= max_page_count ==> r == Ok::<Vec<T>, crate::error::BaseError>(rows),
        rows.len() > max_page_count ==> fails_unrecoverable(r, page_count_message()),
{
    if rows.len() > max_page_count {
        return Err(unrecoverable("persisted Chapter Page count exceeds the business maximum"));
    }
    Ok(rows)
}

/// The ids of the Pages flagged as holding an edited text difference, in order.
pub open spec fn flagged_ids(matches: Seq<(String, bool)>) -> Seq<Seq<char>>
    decreases matches.len(),
{
    if matches.len() == 0 {
        Seq::empty()
    } else {
        let rest = flagged_ids(matches.drop_last());
        if matches.last().1 {
            rest.push(matches.last().0@)
        } else {
            rest
        }
    }
}

/// Keeps the ids of the Pages whose flag is set, in order.
pub fn edited_page_ids(matches: Vec<(String, bool)>) -> (ids: Vec<String>)
    ensures
        ids@.map_values(|s: String| s@) == flagged_ids(matches@),
{
    let n = matches.len();
    let mut ids: Vec<String> = Vec::new();
    let mut i: usize = 0;
    while i < n
        invariant
            n == matches.len(),
            i <= n,
            ids@.map_values(|s: String| s@) == flagged_ids(matches@.take(i as int)),
        decreases n - i,
    {
        proof {
            assert(matches@.take(i + 1).drop_last() =~= matches@.take(i as int));
        }
        let ghost before = ids@.map_values(|s: String| s@);
        if matches[i].1 {
            ids.push(matches[i].0.clone());
            assert(ids@.map_values(|s: String| s@) =~= before.push(matches@[i as int].0@));
        }
        i += 1;
    }
    assert(matches@.take(n as int) =~= matches@);
    ids
}

/// The Pages whose source filename is cleared.
pub open spec fn cleared_pages(idents: Seq<(String, Option<String>)>) -> Seq<Seq<char>>
    decreases idents.len(),
{
    if idents.len() == 0 {
        Seq::empty()
    } else {
        let rest = cleared_pages(idents.drop_last());
        if idents.last().1 is None {
            rest.push(idents.last().0@)
        } else {
            rest
        }
    }
}

/// The Pages whose source filename is set, with the new filename.
pub open spec fn named_pages(idents: Seq<(String, Option<String>)>) -> Seq<(Seq<char>, Seq<char>)>
    decreases idents.len(),
{
    if idents.len() == 0 {
        Seq::empty()
    } else {
        let rest = named_pages(idents.drop_last());
        match idents.last().1 {
            Some(name) => rest.push((idents.last().0@, name@)),
            None => rest,
        }
    }
}

/// Splits a filename replacement into the Pages to clear and the Pages to
/// name, both in request order.
pub fn split_raw_idents(idents: &Vec<(String, Option<String>)>) -> (r: (Vec<String>, Vec<(String, String)>))
    ensures
        r.0@.map_values(|s: String| s@) == cleared_pages(idents@),
        r.1@.map_values(|p: (String, String)| (p.0@, p.1@)) == named_pages(idents@),
{
    let n = idents.len();
    let mut cleared: Vec<String> = Vec::new();
    let mut named: Vec<(String, String)> = Vec::new();
    let mut i: usize = 0;
    while i < n
        invariant
            n == idents.len(),
            i <= n,
            cleared@.map_values(|s: String| s@) == cleared_pages(idents@.take(i as int)),
            named@.map_values(|p: (String, String)| (p.0@, p.1@)) == named_pages(idents@.take(i as int)),
        decreases n - i,
    {
        proof {
            assert(idents@.take(i + 1).drop_last() =~= idents@.take(i as int));
        }
        let ghost c0 = cleared@.map_values(|s: String| s@);
        let ghost n0 = named@.map_values(|p: (String, String)| (p.0@, p.1@));
        let page_id = idents[i].0.clone();
        match &idents[i].1 {
            None => {
                cleared.push(page_id);
                assert(cleared@.map_values(|s: String| s@) =~= c0.push(idents@[i as int].0@));
                assert(named@.map_values(|p: (String, String)| (p.0@, p.1@)) =~= n0);
            },
            Some(name) => {
                named.push((page_id, name.clone()));
                assert(named@.map_values(|p: (String, String)| (p.0@, p.1@)) =~= n0.push(
                    (idents@[i as int].0@, name@),
                ));
                assert(cleared@.map_values(|s: String| s@) =~= c0);
            },
        }
        i += 1;
    }
    assert(idents@.take(n as int) =~= idents@);
    (cleared, named)
}

/// Rejects a manifest upsert that returned a different number of rows than
/// it was given.
pub fn ensure_manifest_rows(returned: usize, expected: usize) -> (r: BaseRest<()>)
    ensures
        r is Ok <==> returned == expected,
        r is Err ==> fails_unrecoverable(r, "page manifest upsert returned an unexpected row count"@),
{
    if returned != expected {
        return Err(unrecoverable("page manifest upsert returned an unexpected row count"));
    }
    Ok(())
}

} // verus!

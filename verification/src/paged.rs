//! Ordering the Units of several Pages at once, and ranking Units in
//! Chapter order.

use vstd::prelude::*;

use crate::chain::{Linked, chain_orderable, is_chain_arrangement, lemma_chain_arrangement_unique, order_units};
use crate::chain::{corrupt_chain_message, corrupt_unit_chain_err};
use crate::error::{BaseRest, fails_unrecoverable};
use crate::unit::{UnitInfo, ids_view, opt_view};

verus! {

/// A record that belongs to one Page.
pub trait OnPage {
    /// The Page of the record.
    spec fn on_page(&self) -> Seq<char>;

    /// Borrows the Page id.
    fn page_ref(&self) -> (r: &String)
        ensures
            r@ == self.on_page(),
    ;
}

impl OnPage for UnitInfo {
    open spec fn on_page(&self) -> Seq<char> {
        self.page_id@
    }

    fn page_ref(&self) -> (r: &String) {
        &self.page_id
    }
}

/// The list link of one Unit together with its Page.
#[derive(Debug)]
pub struct PageLink {
    pub page_id: String,
    pub id: String,
    pub next_id: Option<String>,
}

impl OnPage for PageLink {
    open spec fn on_page(&self) -> Seq<char> {
        self.page_id@
    }

    fn page_ref(&self) -> (r: &String) {
        &self.page_id
    }
}

impl Linked for PageLink {
    open spec fn link_id(&self) -> Seq<char> {
        self.id@
    }

    open spec fn link_next(&self) -> Option<Seq<char>> {
        opt_view(self.next_id)
    }

    fn id_ref(&self) -> (r: &String) {
        &self.id
    }

    fn next_ref(&self) -> (r: Option<&String>) {
        match &self.next_id {
            Some(n) => Some(n),
            None => None,
        }
    }
}

// ---------------------------------------------------------------------------
// Ordering the Units of several Pages.

/// The Units of `rows` that belong to Page `page_id`, in row order.
pub open spec fn rows_of_page<T: Linked + OnPage>(rows: Seq<T>, page_id: Seq<char>) -> Seq<T>
    decreases rows.len(),
{
    if rows.len() == 0 {
        Seq::empty()
    } else if rows.last().on_page() == page_id {
        rows_of_page(rows.drop_last(), page_id).push(rows.last())
    } else {
        rows_of_page(rows.drop_last(), page_id)
    }
}

/// The Units of `rows` whose Page is not `page_id`, in row order.
pub open spec fn rows_not_of_page<T: Linked + OnPage>(rows: Seq<T>, page_id: Seq<char>) -> Seq<T>
    decreases rows.len(),
{
    if rows.len() == 0 {
        Seq::empty()
    } else if rows.last().on_page() != page_id {
        rows_not_of_page(rows.drop_last(), page_id).push(rows.last())
    } else {
        rows_not_of_page(rows.drop_last(), page_id)
    }
}

/// The rows left after the groups of the first `k` requested Pages are taken out.
pub open spec fn rows_left<T: Linked + OnPage>(rows: Seq<T>, page_ids: Seq<Seq<char>>, k: nat) -> Seq<T>
    decreases k,
{
    if k == 0 {
        rows
    } else {
        rows_not_of_page(rows_left(rows, page_ids, (k - 1) as nat), page_ids[k - 1])
    }
}

/// The group of the `k`-th requested Page: its rows, or nothing when the
/// Page was already requested earlier.
pub open spec fn page_group<T: Linked + OnPage>(rows: Seq<T>, page_ids: Seq<Seq<char>>, k: nat) -> Seq<T> {
    rows_of_page(rows_left(rows, page_ids, k), page_ids[k as int])
}

/// The list order of a group that can be ordered.
pub open spec fn arranged<T: Linked + OnPage>(group: Seq<T>) -> Seq<T> {
    choose|t: Seq<T>| is_chain_arrangement(t, group)
}

/// The groups of the first `k` requested Pages can all be ordered.
pub open spec fn pages_orderable<T: Linked + OnPage>(rows: Seq<T>, page_ids: Seq<Seq<char>>, k: nat) -> bool {
    forall|j: nat| j < k ==> chain_orderable(#[trigger] page_group(rows, page_ids, j))
}

/// The groups of the first `k` requested Pages, each in list order, one
/// after the other.
pub open spec fn paged_order<T: Linked + OnPage>(rows: Seq<T>, page_ids: Seq<Seq<char>>, k: nat) -> Seq<T>
    decreases k,
{
    if k == 0 {
        Seq::empty()
    } else {
        paged_order(rows, page_ids, (k - 1) as nat) + arranged(page_group(rows, page_ids, (k - 1) as nat))
    }
}

/// Takes the rows of one Page out of `rows`, keeping row order on both sides.
fn take_page_rows<T: Linked + OnPage>(rows: Vec<T>, page_id: &String) -> (r: (Vec<T>, Vec<T>))
    ensures
        r.0@ == rows_of_page(rows@, page_id@),
        r.1@ == rows_not_of_page(rows@, page_id@),
{
    let ghost s = rows@;
    let total = rows.len();
    let mut rows = rows;
    let mut taken: Vec<T> = Vec::new();
    let mut rest: Vec<T> = Vec::new();
    let mut k: usize = 0;
    while rows.len() > 0
        invariant
            s.len() <= usize::MAX,
            s.len() == k + rows@.len(),
            rows@ == s.skip(k as int),
            taken@ == rows_of_page(s.take(k as int), page_id@),
            rest@ == rows_not_of_page(s.take(k as int), page_id@),
        decreases rows@.len(),
    {
        let u = rows.remove(0);
        proof {
            assert(s.take(k + 1).drop_last() =~= s.take(k as int));
            assert(s.take(k + 1).last() == u);
            assert(rows@ =~= s.skip(k + 1));
        }
        if u.page_ref().eq(page_id) {
            taken.push(u);
        } else {
            rest.push(u);
        }
        k += 1;
    }
    assert(s.take(k as int) =~= s);
    (taken, rest)
}

/// Orders the Units of several Pages: the rows of each requested Page, in
/// list order, one Page after the other; rows of other Pages are dropped.
pub fn order_units_by_page<T: Linked + OnPage>(rows: Vec<T>, page_ids: &Vec<String>) -> (r: BaseRest<Vec<T>>)
    ensures
        r is Ok <==> pages_orderable(rows@, ids_view(page_ids@), page_ids.len() as nat),
        r matches Ok(v) ==> v@ == paged_order(rows@, ids_view(page_ids@), page_ids.len() as nat),
        r is Err ==> fails_unrecoverable(r, crate::chain::corrupt_chain_message()),
{
    let ghost s = rows@;
    let ghost pids = ids_view(page_ids@);
    let m = page_ids.len();
    let mut remaining = rows;
    let mut out: Vec<T> = Vec::new();
    let mut k: usize = 0;
    while k < m
        invariant
            k <= m,
            m == page_ids.len(),
            pids == ids_view(page_ids@),
            s == rows@,
            remaining@ == rows_left(s, pids, k as nat),
            pages_orderable(s, pids, k as nat),
            out@ == paged_order(s, pids, k as nat),
        decreases m - k,
    {
        let (mut group, rest) = take_page_rows(remaining, &page_ids[k]);
        let ghost g = group@;
        assert(g == page_group(s, pids, k as nat));
        match order_units(&mut group) {
            Err(e) => {
                proof {
                    assert(!chain_orderable(page_group(s, pids, k as nat)));
                    assert((k as nat) < (m as nat));
                    assert(!pages_orderable(s, pids, m as nat));
                }
                return Err(e);
            },
            Ok(()) => {},
        }
        proof {
            lemma_chain_arrangement_unique(g, group@, arranged(g));
            assert forall|j: nat| j < k + 1 implies chain_orderable(#[trigger] page_group(s, pids, j)) by {
                if j < k {
                    assert(pages_orderable(s, pids, k as nat));
                }
            }
        }
        let ghost before = out@;
        out.append(&mut group);
        remaining = rest;
        k += 1;
    }
    Ok(out)
}


// ---------------------------------------------------------------------------
// Ranks of Units inside their Page.

/// How many records among the first `k` of `s` belong to Page `page`.
pub open spec fn page_count_before<T: OnPage>(s: Seq<T>, page: Seq<char>, k: int) -> nat
    decreases k,
{
    if k <= 0 {
        0
    } else {
        page_count_before(s, page, k - 1) + if s[k - 1].on_page() == page {
            1nat
        } else {
            0nat
        }
    }
}

/// The rank of the `k`-th record of a list: how many records of its Page
/// come before it.
pub open spec fn rank_at<T: OnPage>(s: Seq<T>, k: int) -> nat {
    page_count_before(s, s[k].on_page(), k)
}

proof fn lemma_page_count_bound<T: OnPage>(s: Seq<T>, page: Seq<char>, k: int)
    requires
        0 <= k,
    ensures
        page_count_before(s, page, k) <= k,
    decreases k,
{
    if k > 0 {
        lemma_page_count_bound(s, page, k - 1);
    }
}

/// Orders the links of the requested Pages and ranks every Unit by its
/// position in its Page's list.
pub fn rank_units(links: Vec<PageLink>, page_ids: &Vec<String>) -> (r: BaseRest<Vec<(String, usize)>>)
    ensures
        r is Ok <==> pages_orderable(links@, ids_view(page_ids@), page_ids.len() as nat),
        r matches Ok(ranks) ==> {
            let ordered = paged_order(links@, ids_view(page_ids@), page_ids.len() as nat);
            &&& ranks@.len() == ordered.len()
            &&& forall|k: int|
                0 <= k < ranks@.len() ==> #[trigger] ranks@[k].0@ == ordered[k].id@ && ranks@[k].1
                    == rank_at(ordered, k)
        },
        r is Err ==> fails_unrecoverable(r, corrupt_chain_message()),
{
    let ordered = order_units_by_page(links, page_ids)?;
    let n = ordered.len();
    let mut ranks: Vec<(String, usize)> = Vec::new();
    let mut k: usize = 0;
    while k < n
        invariant
            n == ordered.len(),
            k <= n,
            ranks@.len() == k,
            forall|q: int|
                0 <= q < k ==> #[trigger] ranks@[q].0@ == ordered@[q].id@ && ranks@[q].1 == rank_at(
                    ordered@,
                    q,
                ),
        decreases n - k,
    {
        let page = ordered[k].page_ref();
        let mut count: usize = 0;
        let mut j: usize = 0;
        while j < k
            invariant
                n == ordered.len(),
                k < n,
                j <= k,
                page@ == ordered@[k as int].on_page(),
                count == page_count_before(ordered@, page@, j as int),
                count <= j,
            decreases k - j,
        {
            if ordered[j].page_id.eq(page) {
                count += 1;
            }
            j += 1;
        }
        ranks.push((ordered[k].id.clone(), count));
        k += 1;
    }
    Ok(ranks)
}

// ---------------------------------------------------------------------------
// Chapter order of selected Units.

/// One selected Unit with the index of its Page.
#[derive(Debug)]
pub struct RankedUnitInfo {
    pub page_index: usize,
    pub unit_info: UnitInfo,
}

/// The rank recorded for `id`: the first entry with that id.
pub open spec fn rank_of(ranks: Seq<(String, usize)>, id: Seq<char>) -> Option<usize>
    decreases ranks.len(),
{
    if ranks.len() == 0 {
        None
    } else {
        match rank_of(ranks.drop_last(), id) {
            Some(r) => Some(r),
            None => if ranks.last().0@ == id {
                Some(ranks.last().1)
            } else {
                None
            },
        }
    }
}

/// Every selected Unit has a recorded rank.
pub open spec fn all_ranked(cands: Seq<RankedUnitInfo>, ranks: Seq<(String, usize)>) -> bool {
    forall|k: int| 0 <= k < cands.len() ==> rank_of(ranks, #[trigger] cands[k].unit_info.id@) is Some
}

/// The sort key of a selected Unit: its Page index, then its rank.
pub open spec fn key_of(c: RankedUnitInfo, ranks: Seq<(String, usize)>) -> (usize, usize) {
    (c.page_index, rank_of(ranks, c.unit_info.id@)->0)
}

/// `a` sorts strictly before `b`.
pub open spec fn key_lt(a: (usize, usize), b: (usize, usize)) -> bool {
    a.0 < b.0 || (a.0 == b.0 && a.1 < b.1)
}

/// `p` is the position after every element of `s` whose key is not greater
/// than `key`, scanning from the front.
pub open spec fn is_upper_bound(s: Seq<((usize, usize), UnitInfo)>, key: (usize, usize), p: int) -> bool {
    &&& 0 <= p <= s.len()
    &&& forall|q: int| 0 <= q < p ==> !key_lt(key, #[trigger] s[q].0)
    &&& p < s.len() ==> key_lt(key, s[p].0)
}

/// Where a stable insertion puts an element with `key`.
pub open spec fn upper_bound(s: Seq<((usize, usize), UnitInfo)>, key: (usize, usize)) -> int {
    choose|p: int| is_upper_bound(s, key, p)
}

proof fn lemma_upper_bound(s: Seq<((usize, usize), UnitInfo)>, key: (usize, usize), p: int)
    requires
        is_upper_bound(s, key, p),
    ensures
        upper_bound(s, key) == p,
{
    let c = upper_bound(s, key);
    assert(is_upper_bound(s, key, c));
    if c < p {
        assert(key_lt(key, s[c].0));
    } else if p < c {
        assert(key_lt(key, s[p].0));
    }
}

/// The keyed Units, stably sorted by key: the first `k` inserted one by one
/// after every element that does not sort after them.
pub open spec fn stable_sorted(s: Seq<((usize, usize), UnitInfo)>, k: nat) -> Seq<((usize, usize), UnitInfo)>
    decreases k,
{
    if k == 0 {
        Seq::empty()
    } else {
        let prev = stable_sorted(s, (k - 1) as nat);
        prev.insert(upper_bound(prev, s[k - 1].0), s[k - 1])
    }
}

/// The selected Units paired with their keys.
pub open spec fn keyed(cands: Seq<RankedUnitInfo>, ranks: Seq<(String, usize)>) -> Seq<((usize, usize), UnitInfo)> {
    cands.map_values(|c: RankedUnitInfo| (key_of(c, ranks), c.unit_info))
}

/// The selected Units in Chapter order: by Page index, then by rank inside
/// the Page, keeping selection order among equal keys.
pub open spec fn chapter_order(cands: Seq<RankedUnitInfo>, ranks: Seq<(String, usize)>) -> Seq<UnitInfo> {
    stable_sorted(keyed(cands, ranks), cands.len()).map_values(|p: ((usize, usize), UnitInfo)| p.1)
}

/// A key sequence is sorted.
pub open spec fn keys_sorted(s: Seq<((usize, usize), UnitInfo)>) -> bool {
    forall|i: int, j: int| 0 <= i < j < s.len() ==> !key_lt(#[trigger] s[j].0, #[trigger] s[i].0)
}

/// Inserting at the upper bound keeps a sorted sequence sorted.
proof fn lemma_insert_keeps_sorted(s: Seq<((usize, usize), UnitInfo)>, x: ((usize, usize), UnitInfo))
    requires
        keys_sorted(s),
    ensures
        keys_sorted(s.insert(upper_bound(s, x.0), x)),
{
    let p = upper_bound(s, x.0);
    assert(is_upper_bound(s, x.0, p)) by {
        lemma_upper_bound_exists(s, x.0);
    }
    let t = s.insert(p, x);
    assert forall|i: int, j: int| 0 <= i < j < t.len() implies !key_lt(#[trigger] t[j].0, #[trigger] t[i].0) by {
        if i < p && j == p {
        } else if i == p && j > p {
            assert(t[j] == s[j - 1]);
            if j - 1 > p {
                assert(!key_lt(s[j - 1].0, s[p].0));
            }
        } else if i < p && j > p {
            assert(t[j] == s[j - 1]);
        } else if i > p {
            assert(t[i] == s[i - 1]);
            assert(t[j] == s[j - 1]);
        }
    }
}

proof fn lemma_upper_bound_exists(s: Seq<((usize, usize), UnitInfo)>, key: (usize, usize))
    ensures
        is_upper_bound(s, key, upper_bound(s, key)),
{
    if exists|p: int| 0 <= p < s.len() && key_lt(key, #[trigger] s[p].0) {
        let w = choose|p: int| 0 <= p < s.len() && key_lt(key, #[trigger] s[p].0);
        lemma_first_above(s, key, w);
    } else {
        assert(is_upper_bound(s, key, s.len() as int));
    }
}

proof fn lemma_first_above(s: Seq<((usize, usize), UnitInfo)>, key: (usize, usize), w: int)
    requires
        0 <= w < s.len(),
        key_lt(key, s[w].0),
    ensures
        is_upper_bound(s, key, upper_bound(s, key)),
    decreases w,
{
    if exists|q: int| 0 <= q < w && key_lt(key, #[trigger] s[q].0) {
        let q = choose|q: int| 0 <= q < w && key_lt(key, #[trigger] s[q].0);
        lemma_first_above(s, key, q);
    } else {
        assert(is_upper_bound(s, key, w));
    }
}

/// The Chapter order is sorted by Page index, then by rank.
pub proof fn lemma_stable_sorted_is_sorted(s: Seq<((usize, usize), UnitInfo)>, k: nat)
    requires
        k <= s.len(),
    ensures
        keys_sorted(stable_sorted(s, k)),
        stable_sorted(s, k).len() == k,
    decreases k,
{
    if k > 0 {
        lemma_stable_sorted_is_sorted(s, (k - 1) as nat);
        let prev = stable_sorted(s, (k - 1) as nat);
        lemma_upper_bound_exists(prev, s[k - 1].0);
        lemma_insert_keeps_sorted(prev, s[k - 1]);
    }
}

fn find_rank(ranks: &Vec<(String, usize)>, id: &String) -> (r: Option<usize>)
    ensures
        r == rank_of(ranks@, id@),
{
    let n = ranks.len();
    let mut k: usize = 0;
    while k < n
        invariant
            n == ranks.len(),
            k <= n,
            rank_of(ranks@.take(k as int), id@) is None,
        decreases n - k,
    {
        proof {
            assert(ranks@.take(k + 1).drop_last() =~= ranks@.take(k as int));
        }
        if ranks[k].0.eq(id) {
            proof {
                lemma_rank_of_prefix(ranks@, id@, k + 1);
            }
            return Some(ranks[k].1);
        }
        k += 1;
    }
    assert(ranks@.take(n as int) =~= ranks@);
    None
}

proof fn lemma_rank_of_prefix(ranks: Seq<(String, usize)>, id: Seq<char>, k: int)
    requires
        0 <= k <= ranks.len(),
        rank_of(ranks.take(k), id) is Some,
    ensures
        rank_of(ranks, id) == rank_of(ranks.take(k), id),
    decreases ranks.len() - k,
{
    if k < ranks.len() {
        assert(ranks.take(k + 1).drop_last() =~= ranks.take(k));
        lemma_rank_of_prefix(ranks, id, k + 1);
    } else {
        assert(ranks.take(k) =~= ranks);
    }
}

/// Orders selected Units in Chapter order; a selected Unit without a rank
/// means its Page's chain is corrupt.
pub fn order_in_chapter(candidates: Vec<RankedUnitInfo>, ranks: &Vec<(String, usize)>) -> (r: BaseRest<Vec<UnitInfo>>)
    ensures
        r is Ok <==> all_ranked(candidates@, ranks@),
        r matches Ok(v) ==> v@ == chapter_order(candidates@, ranks@),
        r is Err ==> fails_unrecoverable(r, corrupt_chain_message()),
{
    let ghost cands = candidates@;
    let n = candidates.len();
    let mut k: usize = 0;
    while k < n
        invariant
            n == candidates.len(),
            k <= n,
            forall|q: int| 0 <= q < k ==> rank_of(ranks@, #[trigger] candidates@[q].unit_info.id@) is Some,
        decreases n - k,
    {
        if find_rank(ranks, &candidates[k].unit_info.id).is_none() {
            return Err(corrupt_unit_chain_err());
        }
        k += 1;
    }
    let ghost ks = keyed(cands, ranks@);
    let mut rest = candidates;
    let mut sorted: Vec<((usize, usize), UnitInfo)> = Vec::new();
    let mut k: usize = 0;
    while rest.len() > 0
        invariant
            n == cands.len(),
            ks == keyed(cands, ranks@),
            all_ranked(cands, ranks@),
            k + rest@.len() == n,
            rest@ == cands.skip(k as int),
            sorted@ == stable_sorted(ks, k as nat),
        decreases rest@.len(),
    {
        let c = rest.remove(0);
        proof {
            assert(cands[k as int] == c);
            assert(rest@ =~= cands.skip(k + 1));
        }
        let rank = match find_rank(ranks, &c.unit_info.id) {
            Some(rank) => rank,
            None => {
                proof {
                    assert(rank_of(ranks@, cands[k as int].unit_info.id@) is Some);
                }
                return Err(corrupt_unit_chain_err());
            },
        };
        let key = (c.page_index, rank);
        assert(ks[k as int] == (key, c.unit_info));
        let len = sorted.len();
        let mut p: usize = 0;
        while p < len && !(key.0 < sorted[p].0.0 || (key.0 == sorted[p].0.0 && key.1 < sorted[p].0.1))
            invariant
                len == sorted.len(),
                p <= len,
                forall|q: int| 0 <= q < p ==> !key_lt(key, #[trigger] sorted@[q].0),
            decreases len - p,
        {
            p += 1;
        }
        proof {
            lemma_upper_bound(sorted@, key, p as int);
        }
        sorted.insert(p, (key, c.unit_info));
        k += 1;
    }
    let mut out: Vec<UnitInfo> = Vec::new();
    let ghost final_sorted = sorted@;
    proof {
        lemma_stable_sorted_is_sorted(ks, n as nat);
    }
    while sorted.len() > 0
        invariant
            final_sorted.len() == out@.len() + sorted@.len(),
            sorted@ == final_sorted.skip(out@.len() as int),
            out@ == final_sorted.take(out@.len() as int).map_values(|p: ((usize, usize), UnitInfo)| p.1),
        decreases sorted@.len(),
    {
        let ghost j: int = out@.len() as int;
        let (_, info) = sorted.remove(0);
        proof {
            assert(final_sorted[j as int].1 == info);
        }
        out.push(info);
        proof {
            assert(sorted@ =~= final_sorted.skip(j + 1));
            assert(out@ =~= final_sorted.take(j + 1).map_values(|p: ((usize, usize), UnitInfo)| p.1));
        }
    }
    assert(final_sorted.take(final_sorted.len() as int) =~= final_sorted);
    Ok(out)
}

/// The distinct Pages of the selected Units, in first-selection order.
pub open spec fn distinct_pages(cands: Seq<RankedUnitInfo>) -> Seq<Seq<char>>
    decreases cands.len(),
{
    if cands.len() == 0 {
        Seq::empty()
    } else {
        let prev = distinct_pages(cands.drop_last());
        if prev.contains(cands.last().unit_info.page_id@) {
            prev
        } else {
            prev.push(cands.last().unit_info.page_id@)
        }
    }
}

/// Collects the distinct Pages of the selected Units.
pub fn distinct_page_ids(candidates: &Vec<RankedUnitInfo>) -> (r: Vec<String>)
    ensures
        ids_view(r@) == distinct_pages(candidates@),
{
    let n = candidates.len();
    let mut pages: Vec<String> = Vec::new();
    let mut k: usize = 0;
    while k < n
        invariant
            n == candidates.len(),
            k <= n,
            ids_view(pages@) == distinct_pages(candidates@.take(k as int)),
        decreases n - k,
    {
        proof {
            assert(candidates@.take(k + 1).drop_last() =~= candidates@.take(k as int));
        }
        let page = &candidates[k].unit_info.page_id;
        let ghost before = ids_view(pages@);
        match crate::unit::find_order_pos(&pages, page) {
            Some(p) => {
                assert(before[p as int] == page@);
            },
            None => {
                pages.push(page.clone());
                assert(ids_view(pages@) =~= before.push(page@));
            },
        }
        k += 1;
    }
    assert(candidates@.take(n as int) =~= candidates@);
    pages
}

/// Rejects a selection when some requested Unit was not found visible.
pub fn ensure_all_selected(found: usize, requested: usize) -> (r: BaseRest<()>)
    ensures
        r is Ok <==> found == requested,
        r is Err ==> fails_unrecoverable(r, corrupt_chain_message()),
{
    if found != requested {
        return Err(corrupt_unit_chain_err());
    }
    Ok(())
}

proof fn lemma_page_count_monotone<T: OnPage>(s: Seq<T>, page: Seq<char>, j: int, k: int)
    requires
        0 <= j <= k,
    ensures
        page_count_before(s, page, j) <= page_count_before(s, page, k),
    decreases k - j,
{
    if j < k {
        lemma_page_count_monotone(s, page, j, k - 1);
    }
}

/// Within one Page the ranks follow the list: the first record of a Page
/// has rank 0, each later record of the same Page has a strictly greater
/// rank, and the next record of a Page ranks exactly one above the one
/// before it, so no two records of a Page share a rank and a rank never
/// exceeds the record's position.
pub proof fn lemma_ranks_follow_page_order<T: OnPage>(s: Seq<T>)
    ensures
        forall|k: int|
            0 <= k < s.len() && (forall|i: int| 0 <= i < k ==> (#[trigger] s[i]).on_page() != s[k].on_page())
                ==> #[trigger] rank_at(s, k) == 0,
        forall|j: int, k: int|
            0 <= j < k < s.len() && s[j].on_page() == s[k].on_page() ==> #[trigger] rank_at(s, j) < #[trigger] rank_at(s, k),
        forall|j: int, k: int|
            0 <= j < k < s.len() && s[j].on_page() == s[k].on_page() && (forall|i: int|
                j < i < k ==> (#[trigger] s[i]).on_page() != s[k].on_page()) ==> #[trigger] rank_at(s, k) == #[trigger] rank_at(
                s,
                j,
            ) + 1,
        forall|k: int| 0 <= k < s.len() ==> #[trigger] rank_at(s, k) <= k,
{
    assert forall|k: int|
        0 <= k < s.len() && (forall|i: int| 0 <= i < k ==> (#[trigger] s[i]).on_page() != s[k].on_page()) implies #[trigger] rank_at(
        s,
        k,
    ) == 0 by {
        lemma_no_page_before(s, s[k].on_page(), k);
    }
    assert forall|j: int, k: int|
        0 <= j < k < s.len() && s[j].on_page() == s[k].on_page() implies #[trigger] rank_at(s, j) < #[trigger] rank_at(s, k) by {
        let p = s[k].on_page();
        assert(page_count_before(s, p, j + 1) == page_count_before(s, p, j) + 1);
        lemma_page_count_monotone(s, p, j + 1, k);
    }
    assert forall|j: int, k: int|
        0 <= j < k < s.len() && s[j].on_page() == s[k].on_page() && (forall|i: int|
            j < i < k ==> (#[trigger] s[i]).on_page() != s[k].on_page()) implies #[trigger] rank_at(s, k) == #[trigger] rank_at(
        s,
        j,
    ) + 1 by {
        let p = s[k].on_page();
        assert(page_count_before(s, p, j + 1) == page_count_before(s, p, j) + 1);
        lemma_no_page_between(s, p, j + 1, k);
    }
    assert forall|k: int| 0 <= k < s.len() implies #[trigger] rank_at(s, k) <= k by {
        lemma_page_count_bound(s, s[k].on_page(), k);
    }
}

proof fn lemma_no_page_before<T: OnPage>(s: Seq<T>, page: Seq<char>, k: int)
    requires
        0 <= k <= s.len(),
        forall|i: int| 0 <= i < k ==> (#[trigger] s[i]).on_page() != page,
    ensures
        page_count_before(s, page, k) == 0,
    decreases k,
{
    if k > 0 {
        lemma_no_page_before(s, page, k - 1);
    }
}

proof fn lemma_no_page_between<T: OnPage>(s: Seq<T>, page: Seq<char>, j: int, k: int)
    requires
        0 <= j <= k <= s.len(),
        forall|i: int| j <= i < k ==> (#[trigger] s[i]).on_page() != page,
    ensures
        page_count_before(s, page, k) == page_count_before(s, page, j),
    decreases k - j,
{
    if j < k {
        lemma_no_page_between(s, page, j, k - 1);
    }
}

} // verus!

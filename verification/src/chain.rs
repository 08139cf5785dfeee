//! Linked-list ordering of persisted Units.
//!
//! Every Unit of a Page names its successor by id; the persisted rows come
//! back in arbitrary order.  `order_units` validates the links and rearranges
//! the rows into list order.

use vstd::prelude::*;
use vstd::multiset::*;
use vstd::seq_lib::*;

use crate::error::{BaseError, BaseRest, is_unrecoverable, unrecoverable};

verus! {

broadcast use {
    vstd::seq_lib::group_seq_properties,
    vstd::seq_lib::group_to_multiset_ensures,
    vstd::multiset::group_multiset_axioms,
};

/// A record that carries its own id and the id of its list successor.
pub trait Linked {
    /// The record's id.
    spec fn link_id(&self) -> Seq<char>;

    /// The id of the record's successor, if any.
    spec fn link_next(&self) -> Option<Seq<char>>;

    /// Borrows the record's id.
    fn id_ref(&self) -> (r: &String)
        ensures
            r@ == self.link_id(),
    ;

    /// Borrows the successor id.
    fn next_ref(&self) -> (r: Option<&String>)
        ensures
            match r {
                Some(n) => self.link_next() == Some(n@),
                None => self.link_next() is None,
            },
    ;
}

/// No two records of `s` share an id.
pub open spec fn distinct_ids<T: Linked>(s: Seq<T>) -> bool {
    forall|i: int, j: int|
        0 <= i < s.len() && 0 <= j < s.len() && i != j ==> #[trigger] s[i].link_id()
            != #[trigger] s[j].link_id()
}

/// `s` is a well-formed list in list order: ids are distinct, each record
/// names the next one as its successor, and the last names none.
pub open spec fn is_chain<T: Linked>(s: Seq<T>) -> bool {
    &&& distinct_ids(s)
    &&& forall|k: int|
        0 <= k < s.len() - 1 ==> #[trigger] s[k].link_next() == Some(s[k + 1].link_id())
    &&& s.len() > 0 ==> s.last().link_next() is None
}

/// `t` holds exactly the records of `s` and is in list order.
pub open spec fn is_chain_arrangement<T: Linked>(t: Seq<T>, s: Seq<T>) -> bool {
    &&& t.to_multiset() == s.to_multiset()
    &&& is_chain(t)
}

/// The records of `s` can be arranged into one well-formed list.
pub open spec fn chain_orderable<T: Linked>(s: Seq<T>) -> bool {
    exists|t: Seq<T>| is_chain_arrangement(t, s)
}

/// The message of the error reported for a corrupt chain.
pub open spec fn corrupt_chain_message() -> Seq<char> {
    "persisted Unit chain is corrupt"@
}

/// Returns an unrecoverable error for a corrupt Unit chain.
pub fn corrupt_unit_chain_err() -> (e: BaseError)
    ensures
        is_unrecoverable(e, corrupt_chain_message()),
{
    unrecoverable("persisted Unit chain is corrupt")
}

// ---------------------------------------------------------------------------
// Facts about arrangements.

/// Position of `x` in `t`, given that `t` contains it.
spec fn pos_of<T>(t: Seq<T>, x: T) -> int {
    choose|p: int| 0 <= p < t.len() && t[p] == x
}

proof fn lemma_pos_of<T>(t: Seq<T>, x: T)
    requires
        t.contains(x),
    ensures
        0 <= pos_of(t, x) < t.len(),
        t[pos_of(t, x)] == x,
{
}

/// Basic consequences of `t` being a chain arrangement of `s`.
proof fn lemma_arrangement_basics<T: Linked>(t: Seq<T>, s: Seq<T>)
    requires
        is_chain_arrangement(t, s),
    ensures
        t.len() == s.len(),
        t.no_duplicates(),
        s.no_duplicates(),
        forall|x: T| #[trigger] s.contains(x) <==> t.contains(x),
        distinct_ids(s),
{
    assert(t.to_multiset().len() == t.len());
    assert(s.to_multiset().len() == s.len());
    assert forall|x: T| #[trigger] s.contains(x) <==> t.contains(x) by {
        assert(s.contains(x) <==> s.to_multiset().count(x) > 0);
        assert(t.contains(x) <==> t.to_multiset().count(x) > 0);
    }
    assert(t.no_duplicates()) by {
        assert forall|i: int, j: int|
            0 <= i < t.len() && 0 <= j < t.len() && i != j implies t[i] != t[j] by {
            assert(t[i].link_id() != t[j].link_id());
        }
    }
    t.lemma_multiset_has_no_duplicates();
    assert forall|x: T| s.to_multiset().contains(x) implies s.to_multiset().count(x) == 1 by {
        assert(t.to_multiset().contains(x));
    }
    s.lemma_multiset_has_no_duplicates_conv();
    assert forall|i: int, j: int|
        0 <= i < s.len() && 0 <= j < s.len() && i != j implies #[trigger] s[i].link_id()
        != #[trigger] s[j].link_id() by {
        assert(s.contains(s[i]));
        assert(s.contains(s[j]));
        lemma_pos_of(t, s[i]);
        lemma_pos_of(t, s[j]);
        let p = pos_of(t, s[i]);
        let q = pos_of(t, s[j]);
        assert(p != q);
        assert(t[p].link_id() != t[q].link_id());
    }
}

/// In a chain, nothing names the first record as its successor.
proof fn lemma_chain_first_has_no_predecessor<T: Linked>(t: Seq<T>, m: int)
    requires
        is_chain(t),
        t.len() > 0,
        0 <= m < t.len(),
    ensures
        t[m].link_next() != Some(t[0].link_id()),
{
    if m < t.len() - 1 {
        assert(t[m].link_next() == Some(t[m + 1].link_id()));
        assert(t[m + 1].link_id() != t[0].link_id());
    }
}

/// In a chain, a record whose successor id is `Some(x)` is followed by the
/// record with id `x`.
proof fn lemma_chain_successor<T: Linked>(t: Seq<T>, m: int, x: Seq<char>)
    requires
        is_chain(t),
        0 <= m < t.len(),
        t[m].link_next() == Some(x),
    ensures
        m + 1 < t.len(),
        t[m + 1].link_id() == x,
{
}

/// If `s` can be arranged, every successor id of `s` is the id of a record of `s`.
proof fn lemma_orderable_successor_exists<T: Linked>(t: Seq<T>, s: Seq<T>, i: int, x: Seq<char>)
    requires
        is_chain_arrangement(t, s),
        0 <= i < s.len(),
        s[i].link_next() == Some(x),
    ensures
        exists|j: int| 0 <= j < s.len() && #[trigger] s[j].link_id() == x,
{
    lemma_arrangement_basics(t, s);
    assert(s.contains(s[i]));
    lemma_pos_of(t, s[i]);
    let m = pos_of(t, s[i]);
    lemma_chain_successor(t, m, x);
    assert(t.contains(t[m + 1]));
    lemma_pos_of(s, t[m + 1]);
    let j = pos_of(s, t[m + 1]);
    assert(s[j].link_id() == x);
}

/// If `s` can be arranged, no two records of `s` name the same successor.
proof fn lemma_orderable_single_predecessor<T: Linked>(t: Seq<T>, s: Seq<T>, i: int, j: int)
    requires
        is_chain_arrangement(t, s),
        0 <= i < s.len(),
        0 <= j < s.len(),
        i != j,
        s[i].link_next() is Some,
    ensures
        s[i].link_next() != s[j].link_next(),
{
    lemma_arrangement_basics(t, s);
    if s[i].link_next() == s[j].link_next() {
        let x = s[i].link_next()->0;
        assert(s.contains(s[i]));
        assert(s.contains(s[j]));
        lemma_pos_of(t, s[i]);
        lemma_pos_of(t, s[j]);
        let p = pos_of(t, s[i]);
        let q = pos_of(t, s[j]);
        assert(s[i] != s[j]);
        assert(p != q);
        lemma_chain_successor(t, p, x);
        lemma_chain_successor(t, q, x);
        assert(t[p + 1].link_id() == t[q + 1].link_id());
    }
}

/// `s[h]` is a head of `s`: no record of `s` names it as its successor.
pub open spec fn is_head<T: Linked>(s: Seq<T>, h: int) -> bool {
    forall|i: int| 0 <= i < s.len() ==> #[trigger] s[i].link_next() != Some(s[h].link_id())
}

/// If `s` can be arranged and is not empty, the first record of the
/// arrangement is a head of `s`.
proof fn lemma_orderable_first_is_head<T: Linked>(t: Seq<T>, s: Seq<T>)
    requires
        is_chain_arrangement(t, s),
        s.len() > 0,
    ensures
        s.contains(t[0]),
        is_head(s, pos_of(s, t[0])),
{
    lemma_arrangement_basics(t, s);
    assert(t.contains(t[0]));
    lemma_pos_of(s, t[0]);
    let h = pos_of(s, t[0]);
    assert forall|i: int| 0 <= i < s.len() implies #[trigger] s[i].link_next() != Some(
        s[h].link_id(),
    ) by {
        assert(s.contains(s[i]));
        lemma_pos_of(t, s[i]);
        lemma_chain_first_has_no_predecessor(t, pos_of(t, s[i]));
    }
}

/// If `s` can be arranged, it has at most one head.
proof fn lemma_orderable_head_unique<T: Linked>(t: Seq<T>, s: Seq<T>, h1: int, h2: int)
    requires
        is_chain_arrangement(t, s),
        0 <= h1 < s.len(),
        0 <= h2 < s.len(),
        is_head(s, h1),
        is_head(s, h2),
    ensures
        h1 == h2,
{
    lemma_arrangement_basics(t, s);
    lemma_orderable_first_is_head(t, s);
    let h = pos_of(s, t[0]);
    assert forall|g: int| 0 <= g < s.len() && is_head(s, g) implies g == h by {
        assert(s.contains(s[g]));
        lemma_pos_of(t, s[g]);
        let p = pos_of(t, s[g]);
        if p > 0 {
            assert(t[p - 1].link_next() == Some(t[p].link_id()));
            assert(t.contains(t[p - 1]));
            lemma_pos_of(s, t[p - 1]);
            let i = pos_of(s, t[p - 1]);
            assert(s[i].link_next() != Some(s[g].link_id()));
        }
        assert(s[g] == t[0]);
    }
}

// ---------------------------------------------------------------------------
// Uniqueness of the arrangement.

/// A chain arrangement of the same records is unique: any two lists that hold
/// the same records and are both in list order are equal.
pub proof fn lemma_chain_arrangement_unique<T: Linked>(s: Seq<T>, t1: Seq<T>, t2: Seq<T>)
    requires
        is_chain_arrangement(t1, s),
        is_chain_arrangement(t2, s),
    ensures
        t1 == t2,
{
    lemma_arrangement_basics(t1, s);
    lemma_arrangement_basics(t2, s);
    if t1.len() > 0 {
        lemma_orderable_first_is_head(t1, s);
        lemma_orderable_first_is_head(t2, s);
        lemma_orderable_head_unique(t1, s, pos_of(s, t1[0]), pos_of(s, t2[0]));
        assert(t1[0] == t2[0]);
        assert forall|k: int| 0 <= k < t1.len() implies t1[k] == t2[k] by {
            lemma_chain_arrangement_unique_prefix(s, t1, t2, k);
        }
    }
    assert(t1 =~= t2);
}

proof fn lemma_chain_arrangement_unique_prefix<T: Linked>(
    s: Seq<T>,
    t1: Seq<T>,
    t2: Seq<T>,
    k: int,
)
    requires
        is_chain_arrangement(t1, s),
        is_chain_arrangement(t2, s),
        t1.len() > 0,
        t2.len() > 0,
        t1[0] == t2[0],
        0 <= k < t1.len(),
    ensures
        t1[k] == t2[k],
    decreases k,
{
    lemma_arrangement_basics(t1, s);
    lemma_arrangement_basics(t2, s);
    if k > 0 {
        lemma_chain_arrangement_unique_prefix(s, t1, t2, k - 1);
        let x = t1[k].link_id();
        assert(t1[k - 1].link_next() == Some(x));
        assert(t2[k - 1].link_next() == Some(t2[k].link_id()));
        assert(t2[k].link_id() == x);
        assert(t2.contains(t2[k]));
        assert(s.contains(t2[k]));
        assert(t1.contains(t2[k]));
        lemma_pos_of(t1, t2[k]);
        let p = pos_of(t1, t2[k]);
        assert(t1[p].link_id() == t1[k].link_id());
    }
}

/// A list that is already in list order is its own (and only) arrangement.
pub proof fn lemma_chain_is_own_arrangement<T: Linked>(s: Seq<T>)
    requires
        is_chain(s),
    ensures
        chain_orderable(s),
        forall|t: Seq<T>| is_chain_arrangement(t, s) ==> t == s,
{
    assert(is_chain_arrangement(s, s));
    assert forall|t: Seq<T>| is_chain_arrangement(t, s) implies t == s by {
        lemma_chain_arrangement_unique(s, t, s);
    }
}

// ---------------------------------------------------------------------------
// Records whose links follow a given order.

/// The ids of `s`, in order.
pub open spec fn link_ids<T: Linked>(s: Seq<T>) -> Seq<Seq<char>> {
    s.map_values(|r: T| r.link_id())
}

/// The id after position `k` of `ids`, or none after the last.
pub open spec fn id_after(ids: Seq<Seq<char>>, k: int) -> Option<Seq<char>> {
    if k + 1 < ids.len() {
        Some(ids[k + 1])
    } else {
        None
    }
}

/// Every record of `s` links to the id after its own in `ids`.
pub open spec fn links_follow<T: Linked>(s: Seq<T>, ids: Seq<Seq<char>>) -> bool {
    forall|i: int, k: int|
        0 <= i < s.len() && 0 <= k < ids.len() && #[trigger] s[i].link_id() == #[trigger] ids[k]
            ==> s[i].link_next() == id_after(ids, k)
}

proof fn lemma_no_dup_same_set_multiset<T>(a: Seq<T>, b: Seq<T>)
    requires
        a.no_duplicates(),
        b.no_duplicates(),
        a.len() == b.len(),
        forall|x: T| a.contains(x) ==> b.contains(x),
    ensures
        a.to_multiset() == b.to_multiset(),
{
    a.unique_seq_to_set();
    b.unique_seq_to_set();
    assert(a.to_set().subset_of(b.to_set()));
    vstd::set_lib::lemma_subset_equality(a.to_set(), b.to_set());
    a.lemma_multiset_has_no_duplicates();
    b.lemma_multiset_has_no_duplicates();
    assert forall|x: T| a.to_multiset().count(x) == b.to_multiset().count(x) by {
        if a.contains(x) {
            assert(a.to_set().contains(x));
            assert(b.to_set().contains(x));
        } else {
            assert(!a.to_set().contains(x));
            assert(!b.to_set().contains(x));
        }
    }
    assert(a.to_multiset() =~= b.to_multiset());
}

/// Records whose links follow an order read back in that order: when `ids`
/// names every record of `s` exactly once and each record links to the id
/// after its own, the records can be put in list order, and every list
/// order of them has exactly the ids of `ids`, in that order.
pub proof fn lemma_links_read_back<T: Linked>(s: Seq<T>, ids: Seq<Seq<char>>)
    requires
        ids.no_duplicates(),
        link_ids(s).to_multiset() == ids.to_multiset(),
        links_follow(s, ids),
    ensures
        chain_orderable(s),
        forall|t: Seq<T>| is_chain_arrangement(t, s) ==> link_ids(t) == ids,
{
    let sids = link_ids(s);
    ids.lemma_multiset_has_no_duplicates();
    sids.lemma_multiset_has_no_duplicates_conv();
    assert(sids.to_multiset().len() == s.len());
    assert(ids.to_multiset().len() == ids.len());
    assert forall|k: int| 0 <= k < ids.len() implies sids.contains(#[trigger] ids[k]) by {
        assert(ids.to_multiset().count(ids[k]) > 0);
    }
    let t = Seq::new(ids.len(), |k: int| s[choose|i: int| 0 <= i < s.len() && s[i].link_id() == ids[k]]);
    assert forall|k: int| 0 <= k < ids.len() implies t[k].link_id() == ids[k] && s.contains(#[trigger] t[k]) by {
        assert(sids.contains(ids[k]));
        let w = choose|w: int| 0 <= w < sids.len() && sids[w] == ids[k];
        assert(s[w].link_id() == ids[k]);
        let i = choose|i: int| 0 <= i < s.len() && s[i].link_id() == ids[k];
        assert(t[k] == s[i]);
    }
    assert(link_ids(t) =~= ids);
    assert(distinct_ids(t)) by {
        assert forall|i: int, j: int| 0 <= i < t.len() && 0 <= j < t.len() && i != j implies #[trigger] t[i].link_id()
            != #[trigger] t[j].link_id() by {
            assert(t[i].link_id() == ids[i]);
            assert(t[j].link_id() == ids[j]);
        }
    }
    assert forall|k: int| 0 <= k < t.len() - 1 implies #[trigger] t[k].link_next() == Some(t[k + 1].link_id()) by {
        assert(t[k].link_id() == ids[k]);
        assert(t[k + 1].link_id() == ids[k + 1]);
        let i = choose|i: int| 0 <= i < s.len() && s[i] == t[k];
        assert(s[i].link_id() == ids[k]);
    }
    if t.len() > 0 {
        let k = t.len() - 1;
        assert(t[k].link_id() == ids[k]);
        let i = choose|i: int| 0 <= i < s.len() && s[i] == t[k];
        assert(s[i].link_id() == ids[k]);
    }
    assert(is_chain(t));
    assert(t.no_duplicates()) by {
        assert forall|i: int, j: int| 0 <= i < t.len() && 0 <= j < t.len() && i != j implies t[i] != t[j] by {
            assert(t[i].link_id() != t[j].link_id());
        }
    }
    assert(s.no_duplicates()) by {
        assert forall|i: int, j: int| 0 <= i < s.len() && 0 <= j < s.len() && i != j implies s[i] != s[j] by {
            assert(sids[i] != sids[j]);
        }
    }
    assert forall|x: T| t.contains(x) implies s.contains(x) by {
        let k = choose|k: int| 0 <= k < t.len() && t[k] == x;
        assert(s.contains(t[k]));
    }
    lemma_no_dup_same_set_multiset(t, s);
    assert(is_chain_arrangement(t, s));
    assert forall|u: Seq<T>| is_chain_arrangement(u, s) implies link_ids(u) == ids by {
        lemma_chain_arrangement_unique(s, u, t);
    }
}

// ---------------------------------------------------------------------------
// Executable helpers.

/// Swaps two positions of a vector.
fn swap_items<T>(v: &mut Vec<T>, i: usize, j: usize)
    requires
        i < old(v).len(),
        j < old(v).len(),
    ensures
        final(v)@ == old(v)@.update(i as int, old(v)@[j as int]).update(j as int, old(v)@[i as int]),
{
    if i == j {
        assert(old(v)@.update(i as int, old(v)@[j as int]).update(j as int, old(v)@[i as int])
            =~= old(v)@);
        return ;
    }
    let (lo, hi) = if i < j {
        (i, j)
    } else {
        (j, i)
    };
    let ghost s0 = v@;
    let mut taken = v.remove(hi);
    v.set_and_swap(lo, &mut taken);
    v.insert(hi, taken);
    assert(v@ =~= s0.update(i as int, s0[j as int]).update(j as int, s0[i as int]));
}

/// Swapping two positions keeps the multiset of a sequence.
proof fn lemma_swap_multiset<T>(s: Seq<T>, i: int, j: int)
    requires
        0 <= i < s.len(),
        0 <= j < s.len(),
    ensures
        s.update(i, s[j]).update(j, s[i]).to_multiset() == s.to_multiset(),
{
    let s1 = s.update(i, s[j]);
    to_multiset_update(s, i, s[j]);
    to_multiset_update(s1, j, s[i]);
    assert(s1[j] == s[j] || i == j);
    if i == j {
        assert(s.update(i, s[j]).update(j, s[i]) =~= s);
    } else {
        assert(s.to_multiset().insert(s[j]).remove(s[i]).insert(s[i]).remove(s[j])
            =~= s.to_multiset());
    }
}

/// Index of the record of `units` whose id equals `id`, if any.
fn find_by_id<T: Linked>(units: &Vec<T>, id: &String) -> (r: Option<usize>)
    ensures
        match r {
            Some(j) => j < units.len() && units@[j as int].link_id() == id@,
            None => forall|j: int| 0 <= j < units.len() ==> #[trigger] units@[j].link_id() != id@,
        },
{
    let n = units.len();
    let mut j: usize = 0;
    while j < n
        invariant
            n == units.len(),
            j <= n,
            forall|k: int| 0 <= k < j ==> #[trigger] units@[k].link_id() != id@,
        decreases n - j,
    {
        if units[j].id_ref().eq(id) {
            return Some(j);
        }
        j += 1;
    }
    None
}

/// Index-level well-formedness of the successor table `nx` for `s`.
spec fn successors_resolved<T: Linked>(s: Seq<T>, nx: Seq<Option<usize>>) -> bool {
    &&& nx.len() == s.len()
    &&& forall|i: int|
        0 <= i < s.len() ==> match #[trigger] nx[i] {
            Some(j) => j < s.len() && s[i].link_next() == Some(s[j as int].link_id()),
            None => s[i].link_next() is None,
        }
}

/// No index appears as the successor of two indexes.
spec fn successors_injective(nx: Seq<Option<usize>>) -> bool {
    forall|a: int, b: int|
        0 <= a < nx.len() && 0 <= b < nx.len() && #[trigger] nx[a] == #[trigger] nx[b] && nx[a] is Some
            ==> a == b
}

/// `hp[j]` records whether some index names `j` as its successor.
spec fn predecessors_marked(nx: Seq<Option<usize>>, hp: Seq<bool>, upto: int) -> bool {
    &&& hp.len() == nx.len()
    &&& forall|j: int|
        0 <= j < hp.len() ==> (#[trigger] hp[j] <==> exists|i: int|
            0 <= i < upto && #[trigger] nx[i] == Some(j as usize))
}

/// `order` is a path through the successor table starting at `head`.
spec fn is_walk(nx: Seq<Option<usize>>, head: usize, order: Seq<usize>) -> bool {
    &&& order.len() > 0 ==> order[0] == head
    &&& forall|k: int| 0 <= k < order.len() - 1 ==> nx[#[trigger] order[k] as int] == Some(order[k + 1])
    &&& forall|k: int| 0 <= k < order.len() ==> #[trigger] order[k] < nx.len()
    &&& order.no_duplicates()
}

/// Orders Units in linked-list order, detecting duplicates, dangling links,
/// forks, cycles and multiple heads.
///
/// On success `units` holds the same records rearranged into list order; on
/// failure `units` is left untouched.
pub fn order_units<T: Linked>(units: &mut Vec<T>) -> (r: BaseRest<()>)
    ensures
        r is Ok <==> chain_orderable(old(units)@),
        r is Ok ==> is_chain_arrangement(final(units)@, old(units)@),
        r matches Err(e) ==> final(units)@ == old(units)@ && is_unrecoverable(
            e,
            corrupt_chain_message(),
        ),
{
    let ghost s = units@;
    let n = units.len();
    if n == 0 {
        assert(is_chain_arrangement(s, s));
        return Ok(());
    }

    let ghost orderable = chain_orderable(s);
    let ghost w: Seq<T> = choose|t: Seq<T>| is_chain_arrangement(t, s);
    proof {
        if orderable {
            lemma_arrangement_basics(w, s);
        }
    }
    // Ids must be distinct.

    let mut i: usize = 0;
    while i < n
        invariant
            n == units.len(),
            units@ == s,
            orderable == chain_orderable(s),
            orderable ==> is_chain_arrangement(w, s),
            i <= n,
            forall|a: int, b: int|
                0 <= a < i && 0 <= b < n && a != b ==> #[trigger] s[a].link_id()
                    != #[trigger] s[b].link_id(),
        decreases n - i,
    {
        let mut j: usize = i + 1;
        while j < n
            invariant
                n == units.len(),
                units@ == s,
            orderable == chain_orderable(s),
            orderable ==> is_chain_arrangement(w, s),
                i < n,
                i + 1 <= j <= n,
                forall|a: int, b: int|
                    0 <= a < i && 0 <= b < n && a != b ==> #[trigger] s[a].link_id()
                        != #[trigger] s[b].link_id(),
                forall|b: int| i < b < j ==> #[trigger] s[b].link_id() != s[i as int].link_id(),
            decreases n - j,
        {
            if units[i].id_ref().eq(units[j].id_ref()) {
                proof {
                    if orderable {
                        lemma_arrangement_basics(w, s);
                        assert(s[i as int].link_id() == s[j as int].link_id());
                    }
                }
                return Err(corrupt_unit_chain_err());
            }
            j += 1;
        }
        i += 1;
    }
    assert(distinct_ids(s));
    // Resolve every successor id to an index.

    let mut nx: Vec<Option<usize>> = Vec::new();
    let mut i: usize = 0;
    while i < n
        invariant
            n == units.len(),
            units@ == s,
            orderable == chain_orderable(s),
            orderable ==> is_chain_arrangement(w, s),
            i <= n,
            nx.len() == i,
            forall|k: int|
                0 <= k < i ==> match #[trigger] nx@[k] {
                    Some(j) => j < n && s[k].link_next() == Some(s[j as int].link_id()),
                    None => s[k].link_next() is None,
                },
        decreases n - i,
    {
        match units[i].next_ref() {
            Some(next_id) => {
                match find_by_id(units, next_id) {
                    Some(j) => {
                        nx.push(Some(j));
                    },
                    None => {
                        proof {
                            if orderable {
                                lemma_orderable_successor_exists(w, s, i as int, next_id@);
                            }
                        }
                        return Err(corrupt_unit_chain_err());
                    },
                }
            },
            None => {
                nx.push(None);
            },
        }
        i += 1;
    }
    assert(successors_resolved(s, nx@));
    // Mark predecessors, rejecting forks.

    let mut hp: Vec<bool> = Vec::new();
    let mut k: usize = 0;
    while k < n
        invariant
            hp.len() == k,
            k <= n,
            forall|j: int| 0 <= j < k ==> !#[trigger] hp@[j],
        decreases n - k,
    {
        hp.push(false);
        k += 1;
    }
    let mut i: usize = 0;
    while i < n
        invariant
            n == units.len(),
            units@ == s,
            orderable == chain_orderable(s),
            orderable ==> is_chain_arrangement(w, s),
            i <= n,
            successors_resolved(s, nx@),
            distinct_ids(s),
            predecessors_marked(nx@, hp@, i as int),
            forall|a: int, b: int|
                0 <= a < i && 0 <= b < i && #[trigger] nx@[a] == #[trigger] nx@[b] && nx@[a] is Some
                    ==> a == b,
        decreases n - i,
    {
        match nx[i] {
            Some(j) => {
                if hp[j] {
                    proof {
                        let a = choose|a: int| 0 <= a < i && #[trigger] nx@[a] == Some(j);
                        if orderable {
                            lemma_orderable_single_predecessor(w, s, a, i as int);
                        }
                    }
                    return Err(corrupt_unit_chain_err());
                }
                hp.set(j, true);
                proof {
                    assert forall|q: int| 0 <= q < hp@.len() implies (#[trigger] hp@[q]
                        <==> exists|a: int| 0 <= a < i + 1 && #[trigger] nx@[a] == Some(q as usize)) by {
                        if q == j as int {
                            assert(nx@[i as int] == Some(q as usize));
                        } else {
                            if exists|a: int| 0 <= a < i + 1 && #[trigger] nx@[a] == Some(q as usize) {
                                let a = choose|a: int| 0 <= a < i + 1 && #[trigger] nx@[a] == Some(q as usize);
                                assert(a < i);
                            }
                        }
                    }
                }
            },
            None => {
                proof {
                    assert forall|q: int| 0 <= q < hp@.len() implies (#[trigger] hp@[q]
                        <==> exists|a: int| 0 <= a < i + 1 && #[trigger] nx@[a] == Some(q as usize)) by {
                        if exists|a: int| 0 <= a < i + 1 && #[trigger] nx@[a] == Some(q as usize) {
                            let a = choose|a: int| 0 <= a < i + 1 && #[trigger] nx@[a] == Some(q as usize);
                            assert(a < i);
                        }
                    }
                }
            },
        }
        i += 1;
    }
    assert(successors_injective(nx@));
    // Find the single head.

    let mut head: Option<usize> = None;
    let mut j: usize = 0;
    while j < n
        invariant
            n == units.len(),
            units@ == s,
            orderable == chain_orderable(s),
            orderable ==> is_chain_arrangement(w, s),
            j <= n,
            successors_resolved(s, nx@),
            distinct_ids(s),
            predecessors_marked(nx@, hp@, n as int),
            match head {
                Some(h) => h < j && !hp@[h as int] && forall|g: int|
                    0 <= g < j && g != h ==> #[trigger] hp@[g],
                None => forall|g: int| 0 <= g < j ==> #[trigger] hp@[g],
            },
        decreases n - j,
    {
        if !hp[j] {
            if let Some(h) = head {
                proof {
                    if orderable {
                        lemma_no_mark_is_head(s, nx@, hp@, h as int);
                        lemma_no_mark_is_head(s, nx@, hp@, j as int);
                        lemma_orderable_head_unique(w, s, h as int, j as int);
                    }
                }
                return Err(corrupt_unit_chain_err());
            }
            head = Some(j);
        }
        j += 1;
    }
    let head = match head {
        Some(h) => h,
        None => {
            proof {
                if orderable {
                    lemma_orderable_first_is_head(w, s);
                    let h = pos_of(s, w[0]);
                    lemma_pos_of(s, w[0]);
                    assert(hp@[h]);
                    let a = choose|a: int| 0 <= a < n && #[trigger] nx@[a] == Some(h as usize);
                    assert(s[a].link_next() == Some(s[h].link_id()));
                }
            }
            return Err(corrupt_unit_chain_err());
        },
    };
    proof {
        lemma_no_mark_is_head(s, nx@, hp@, head as int);
        if orderable {
            lemma_orderable_first_is_head(w, s);
            lemma_pos_of(s, w[0]);
            lemma_orderable_head_unique(w, s, head as int, pos_of(s, w[0]));
        }
    }
    // Walk the list from its head.

    let mut order: Vec<usize> = Vec::new();
    let mut cur: Option<usize> = Some(head);
    loop
        invariant_except_break
            n == units.len(),
            units@ == s,
            orderable == chain_orderable(s),
            orderable ==> is_chain_arrangement(w, s),
            head < n,
            !hp@[head as int],
            successors_resolved(s, nx@),
            successors_injective(nx@),
            distinct_ids(s),
            predecessors_marked(nx@, hp@, n as int),
            is_walk(nx@, head, order@),
            order.len() <= n,
            order.len() == 0 ==> cur == Some(head),
            order.len() > 0 ==> cur == nx@[order@.last() as int],
            cur matches Some(c) ==> c < n && !order@.contains(c),
            orderable ==> w.len() == n,
            orderable ==> s[head as int] == w[0],
            orderable ==> forall|k: int| 0 <= k < order.len() ==> #[trigger] s[order@[k] as int] == w[k],
            orderable && order.len() < n ==> (cur matches Some(c) && s[c as int] == w[order.len() as int]),
            orderable && order.len() == n ==> cur is None,
        ensures
            n == units.len(),
            units@ == s,
            orderable == chain_orderable(s),
            orderable ==> is_chain_arrangement(w, s),
            successors_resolved(s, nx@),
            distinct_ids(s),
            is_walk(nx@, head, order@),
            order.len() == n,
            cur is None,
            order.len() > 0 ==> nx@[order@.last() as int] is None,
        decreases n - order.len(),
    {
        match cur {
            None => {
                if order.len() != n {
                    return Err(corrupt_unit_chain_err());
                }
                break ;
            },
            Some(c) => {
                if order.len() >= n {
                    return Err(corrupt_unit_chain_err());
                }
                let ghost old_order = order@;
                order.push(c);
                cur = nx[c];
                proof {
                    lemma_walk_step(s, nx@, hp@, head, old_order, c);
                    if orderable {
                        lemma_walk_follows_arrangement(w, s, nx@, c, old_order.len() as int);
                    }
                }
            },
        }
    }
    // Rearrange the records into walk order.

    let mut obp: Vec<usize> = Vec::new();
    let mut pbo: Vec<usize> = Vec::new();
    let mut k: usize = 0;
    while k < n
        invariant
            k <= n,
            obp.len() == k,
            pbo.len() == k,
            forall|q: int| 0 <= q < k ==> #[trigger] obp@[q] == q,
            forall|q: int| 0 <= q < k ==> #[trigger] pbo@[q] == q,
        decreases n - k,
    {
        obp.push(k);
        pbo.push(k);
        k += 1;
    }
    let mut p: usize = 0;
    while p < n
        invariant
            n == units.len(),
            p <= n,
            order.len() == n,
            nx.len() == n,
            is_walk(nx@, head, order@),
            obp.len() == n,
            pbo.len() == n,
            forall|q: int| 0 <= q < n ==> #[trigger] obp@[q] < n,
            forall|q: int| 0 <= q < n ==> #[trigger] pbo@[q] < n,
            forall|q: int| 0 <= q < n ==> pbo@[#[trigger] obp@[q] as int] == q,
            forall|d: int| 0 <= d < n ==> obp@[#[trigger] pbo@[d] as int] == d,
            forall|q: int| 0 <= q < n ==> #[trigger] units@[q] == s[obp@[q] as int],
            forall|q: int| 0 <= q < p ==> #[trigger] obp@[q] == order@[q],
            units@.to_multiset() == s.to_multiset(),
        decreases n - p,
    {
        let d = order[p];
        let c = pbo[d];
        let displaced = obp[p];
        proof {
            if c < p {
                assert(obp@[c as int] == order@[c as int]);
                assert(obp@[c as int] == d);
            }
        }
        let ghost u0 = units@;
        swap_items(units, p, c);
        proof {
            lemma_swap_multiset(u0, p as int, c as int);
        }
        let op = obp[p];
        let oc = obp[c];
        obp.set(p, oc);
        obp.set(c, op);
        pbo.set(d, p);
        pbo.set(displaced, c);
        proof {
            assert forall|q: int| 0 <= q < n implies pbo@[#[trigger] obp@[q] as int] == q by {
                if q != p && q != c {
                }
            }
        }
        p += 1;
    }
    proof {
        let t = units@;
        assert forall|q: int| 0 <= q < n implies #[trigger] t[q] == s[order@[q] as int] by {}
        assert forall|a: int, b: int|
            0 <= a < t.len() && 0 <= b < t.len() && a != b implies #[trigger] t[a].link_id()
            != #[trigger] t[b].link_id() by {
            assert(order@[a] != order@[b]);
        }
        assert forall|q: int| 0 <= q < t.len() - 1 implies #[trigger] t[q].link_next() == Some(
            t[q + 1].link_id(),
        ) by {
            assert(nx@[order@[q] as int] == Some(order@[q + 1]));
        }
        assert(t.last() == t[n - 1]);
        assert(is_chain_arrangement(t, s));
    }
    Ok(())
}

/// An index that no other index names as its successor is a head of `s`.
proof fn lemma_no_mark_is_head<T: Linked>(s: Seq<T>, nx: Seq<Option<usize>>, hp: Seq<bool>, h: int)
    requires
        successors_resolved(s, nx),
        distinct_ids(s),
        predecessors_marked(nx, hp, s.len() as int),
        0 <= h < s.len(),
        !hp[h],
    ensures
        is_head(s, h),
{
    assert forall|i: int| 0 <= i < s.len() implies #[trigger] s[i].link_next() != Some(
        s[h].link_id(),
    ) by {
        if s[i].link_next() == Some(s[h].link_id()) {
            match nx[i] {
                Some(j) => {
                    assert(s[j as int].link_id() == s[h].link_id());
                    assert(j as int == h);
                    assert(nx[i] == Some(h as usize));
                },
                None => {},
            }
        }
    }
}

/// Appending the current index keeps the walk well formed.
proof fn lemma_walk_step<T: Linked>(
    s: Seq<T>,
    nx: Seq<Option<usize>>,
    hp: Seq<bool>,
    head: usize,
    order: Seq<usize>,
    c: usize,
)
    requires
        successors_resolved(s, nx),
        successors_injective(nx),
        predecessors_marked(nx, hp, s.len() as int),
        head < s.len(),
        !hp[head as int],
        is_walk(nx, head, order),
        order.len() == 0 ==> c == head,
        order.len() > 0 ==> nx[order.last() as int] == Some(c),
        c < s.len(),
        !order.contains(c),
    ensures
        is_walk(nx, head, order.push(c)),
        nx[c as int] matches Some(d) ==> d < s.len() && !order.push(c).contains(d),
{
    let o2 = order.push(c);
    assert(o2.no_duplicates()) by {
        assert forall|a: int, b: int| 0 <= a < o2.len() && 0 <= b < o2.len() && a != b implies o2[a] != o2[b] by {
            if a == order.len() {
                assert(order.contains(o2[b]) || b == order.len());
            }
            if b == order.len() {
                assert(order.contains(o2[a]) || a == order.len());
            }
        }
    }
    assert forall|k: int| 0 <= k < o2.len() - 1 implies nx[#[trigger] o2[k] as int] == Some(o2[k + 1]) by {
        if k < order.len() - 1 {
        } else {
            assert(k == order.len() - 1);
        }
    }
    if let Some(d) = nx[c as int] {
        if o2.contains(d) {
            let m = choose|m: int| 0 <= m < o2.len() && o2[m] == d;
            if m == 0 {
                assert(d == head);
                assert(hp[head as int]);
            } else {
                assert(nx[o2[m - 1] as int] == Some(d));
                assert(nx[o2[m - 1] as int] == nx[c as int]);
                assert(o2[m - 1] == c);
                assert(m - 1 == order.len());
            }
        }
    }
}

/// When an arrangement exists, the walk visits its records in order.
proof fn lemma_walk_follows_arrangement<T: Linked>(
    w: Seq<T>,
    s: Seq<T>,
    nx: Seq<Option<usize>>,
    c: usize,
    k: int,
)
    requires
        is_chain_arrangement(w, s),
        successors_resolved(s, nx),
        0 <= k < w.len(),
        c < s.len(),
        s[c as int] == w[k],
    ensures
        k < w.len() - 1 ==> (nx[c as int] matches Some(d) && s[d as int] == w[k + 1]),
        k == w.len() - 1 ==> nx[c as int] is None,
{
    lemma_arrangement_basics(w, s);
    if k < w.len() - 1 {
        assert(w[k].link_next() == Some(w[k + 1].link_id()));
        let d = nx[c as int]->0;
        assert(s[d as int].link_id() == w[k + 1].link_id());
        assert(s.contains(s[d as int]));
        assert(w.contains(s[d as int]));
        lemma_pos_of(w, s[d as int]);
        let p = pos_of(w, s[d as int]);
        assert(w[p].link_id() == w[k + 1].link_id());
    } else {
        assert(w.last() == w[k]);
    }
}

} // verus!

//! Unit records, their list links, and the planning of Unit edits.

use time::OffsetDateTime;
use vstd::prelude::*;

use crate::chain::{Linked, chain_orderable, is_chain_arrangement, lemma_chain_arrangement_unique, order_units};
use crate::model::Duplicate;
use crate::error::{BaseError, BaseRest, ExpectedVariant, expected_with, fails_unrecoverable, is_expected, is_unrecoverable, unrecoverable};

verus! {

/// The persisted list position of one Unit, including tombstones.
#[derive(Debug)]
pub struct UnitOrder {
    /// Permanent Unit identifier.
    pub id: String,
    /// Linked-list successor.
    pub next_id: Option<String>,
    /// Whether the Unit is a tombstone.
    pub is_hidden: bool,
}

/// One Unit as read for display.
#[derive(Debug)]
pub struct UnitInfo {
    /// Permanent Unit identifier.
    pub id: String,
    /// Owning Page.
    pub page_id: String,
    /// Linked-list successor.
    pub next_id: Option<String>,
    /// Latest translation text.
    pub translated_text: Option<String>,
    /// Latest proofread text.
    pub proofread_text: Option<String>,
    /// Whether the Unit has been marked proofread.
    pub is_proofread: bool,
    /// When the Unit was hidden, if it is a tombstone.
    pub hidden_at: Option<OffsetDateTime>,
}

/// The minimal persisted link needed to reconstruct one Unit chain.
#[derive(Debug)]
pub struct UnitLink {
    /// Permanent Unit identifier.
    pub id: String,
    /// Linked-list successor.
    pub next_id: Option<String>,
}

/// A three-way field update.
#[derive(Debug)]
pub enum Patch<T> {
    /// Keep the current value.
    Skip,
    /// Clear the value.
    Clear,
    /// Replace the value.
    Assign(T),
}

/// The latest translation of a Unit and who wrote it.
#[derive(Debug)]
pub struct UnitTranslation {
    pub translated_text: String,
    pub last_translator_id: String,
}

/// The proofreading state of a Unit and who set it.
#[derive(Debug)]
pub struct UnitRevision {
    pub is_proofread: bool,
    pub proofread_text: Option<String>,
    pub last_proofreader_id: String,
}

/// What a created Unit holds besides its place in the list.
#[derive(Debug)]
pub struct UnitCreateContent {
    pub is_bubble: bool,
    pub translation: Option<UnitTranslation>,
    pub revision: Option<UnitRevision>,
}

/// What a save changes besides the place in the list; skipped parts stay.
#[derive(Debug)]
pub struct UnitSaveContent {
    pub is_bubble: Option<bool>,
    pub translation: Patch<UnitTranslation>,
    pub revision: Patch<UnitRevision>,
}

/// One normalized Unit edit.
#[allow(inconsistent_fields)]
#[derive(Debug)]
pub enum UnitEdit {
    /// Create a Unit placed before `next_id`, or at the end.
    Create { id: String, next_id: Option<String>, content: UnitCreateContent },
    /// Save a Unit, optionally moving it before another.
    Save { id: String, next_id: Patch<String>, content: UnitSaveContent },
    /// Hide a Unit.
    Delete { id: String },
}

fn dup_text(s: &Option<String>) -> (r: Option<String>)
    ensures
        r == *s,
{
    match s {
        Some(x) => Some(x.clone()),
        None => None,
    }
}

impl Duplicate for UnitTranslation {
    fn duplicate(&self) -> (r: Self) {
        UnitTranslation {
            translated_text: self.translated_text.clone(),
            last_translator_id: self.last_translator_id.clone(),
        }
    }
}

impl Duplicate for UnitRevision {
    fn duplicate(&self) -> (r: Self) {
        UnitRevision {
            is_proofread: self.is_proofread,
            proofread_text: dup_text(&self.proofread_text),
            last_proofreader_id: self.last_proofreader_id.clone(),
        }
    }
}

fn dup_option<T: Duplicate>(o: &Option<T>) -> (r: Option<T>)
    ensures
        r == *o,
{
    match o {
        Some(x) => Some(x.duplicate()),
        None => None,
    }
}

impl<T: Duplicate> Duplicate for Patch<T> {
    fn duplicate(&self) -> (r: Self) {
        match self {
            Patch::Skip => Patch::Skip,
            Patch::Clear => Patch::Clear,
            Patch::Assign(x) => Patch::Assign(x.duplicate()),
        }
    }
}

impl Duplicate for UnitCreateContent {
    fn duplicate(&self) -> (r: Self) {
        UnitCreateContent {
            is_bubble: self.is_bubble,
            translation: dup_option(&self.translation),
            revision: dup_option(&self.revision),
        }
    }
}

impl Duplicate for UnitSaveContent {
    fn duplicate(&self) -> (r: Self) {
        UnitSaveContent {
            is_bubble: self.is_bubble,
            translation: self.translation.duplicate(),
            revision: self.revision.duplicate(),
        }
    }
}

/// Visible Unit counters of one Page.
#[derive(Debug)]
pub struct UnitCounters {
    /// Visible Units.
    pub total_unit_count: usize,
    /// Visible Units with a translation or a revision.
    pub translated_unit_count: usize,
    /// Visible Units marked proofread.
    pub proofread_unit_count: usize,
}

/// The view of an optional id.
pub open spec fn opt_view(o: Option<String>) -> Option<Seq<char>> {
    match o {
        Some(s) => Some(s@),
        None => None,
    }
}

impl Linked for UnitOrder {
    open spec fn link_id(&self) -> Seq<char> {
        self.id@
    }

    open spec fn link_next(&self) -> Option<Seq<char>> {
        opt_view(self.next_id)
    }

    fn id_ref(&self) -> (r: &String) {
        &self.id
    }

    fn next_ref(&self) -> (r: Option<&String>) {
        match &self.next_id {
            Some(n) => Some(n),
            None => None,
        }
    }
}

impl Linked for UnitInfo {
    open spec fn link_id(&self) -> Seq<char> {
        self.id@
    }

    open spec fn link_next(&self) -> Option<Seq<char>> {
        opt_view(self.next_id)
    }

    fn id_ref(&self) -> (r: &String) {
        &self.id
    }

    fn next_ref(&self) -> (r: Option<&String>) {
        match &self.next_id {
            Some(n) => Some(n),
            None => None,
        }
    }
}

impl Linked for UnitLink {
    open spec fn link_id(&self) -> Seq<char> {
        self.id@
    }

    open spec fn link_next(&self) -> Option<Seq<char>> {
        opt_view(self.next_id)
    }

    fn id_ref(&self) -> (r: &String) {
        &self.id
    }

    fn next_ref(&self) -> (r: Option<&String>) {
        match &self.next_id {
            Some(n) => Some(n),
            None => None,
        }
    }
}

// ---------------------------------------------------------------------------
// Positions and moves in an ordered id list.

/// The ids held by a vector of strings.
pub open spec fn ids_view(v: Seq<String>) -> Seq<Seq<char>> {
    v.map_values(|s: String| s@)
}

/// `p` is the first position of `x` in `s`.
pub open spec fn is_first_pos(s: Seq<Seq<char>>, x: Seq<char>, p: int) -> bool {
    &&& 0 <= p < s.len()
    &&& s[p] == x
    &&& forall|q: int| 0 <= q < p ==> s[q] != x
}

/// The first position of `x` in `s` (meaningful when `s` contains `x`).
pub open spec fn first_pos(s: Seq<Seq<char>>, x: Seq<char>) -> int {
    choose|p: int| is_first_pos(s, x, p)
}

/// The first position is unique.
pub proof fn lemma_first_pos(s: Seq<Seq<char>>, x: Seq<char>, p: int)
    requires
        is_first_pos(s, x, p),
    ensures
        first_pos(s, x) == p,
{
    let c = first_pos(s, x);
    assert(is_first_pos(s, x, c));
    if c < p {
        assert(s[c] != x);
    } else if p < c {
        assert(s[p] != x);
    }
}

/// A list that contains `x` has a first position of `x`.
proof fn lemma_first_pos_exists(s: Seq<Seq<char>>, x: Seq<char>)
    requires
        s.contains(x),
    ensures
        is_first_pos(s, x, first_pos(s, x)),
    decreases s.len(),
{
    let w = choose|i: int| 0 <= i < s.len() && s[i] == x;
    lemma_first_pos_exists_below(s, x, w);
}

proof fn lemma_first_pos_exists_below(s: Seq<Seq<char>>, x: Seq<char>, w: int)
    requires
        0 <= w < s.len(),
        s[w] == x,
    ensures
        is_first_pos(s, x, first_pos(s, x)),
    decreases w,
{
    if exists|q: int| 0 <= q < w && s[q] == x {
        let q = choose|q: int| 0 <= q < w && s[q] == x;
        lemma_first_pos_exists_below(s, x, q);
    } else {
        assert(is_first_pos(s, x, w));
    }
}

/// `s` with `id` moved so that it stands right before the first `next`, or
/// at the end when `next` is absent; `None` when either id is missing.
pub open spec fn moved(s: Seq<Seq<char>>, id: Seq<char>, next: Option<Seq<char>>) -> Option<
    Seq<Seq<char>>,
> {
    if !s.contains(id) {
        None
    } else {
        let rest = s.remove(first_pos(s, id));
        match next {
            None => Some(rest.push(id)),
            Some(n) => if rest.contains(n) {
                Some(rest.insert(first_pos(rest, n), id))
            } else {
                None
            },
        }
    }
}

/// The message key of every rejected Unit operation.
pub open spec fn invalid_unit_oper_key() -> Seq<char> {
    "error-invalid-unit-oper"@
}

fn invalid_unit_oper() -> (e: BaseError)
    ensures
        is_expected(e, ExpectedVariant::Args, invalid_unit_oper_key()),
{
    expected_with(ExpectedVariant::Args, "error-invalid-unit-oper")
}

/// Finds the first position of an id in the ordered list.
pub fn find_order_pos(ordered_ids: &Vec<String>, id: &String) -> (r: Option<usize>)
    ensures
        match r {
            Some(p) => is_first_pos(ids_view(ordered_ids@), id@, p as int),
            None => !ids_view(ordered_ids@).contains(id@),
        },
{
    let n = ordered_ids.len();
    let mut p: usize = 0;
    while p < n
        invariant
            n == ordered_ids.len(),
            p <= n,
            forall|q: int| 0 <= q < p ==> ids_view(ordered_ids@)[q] != id@,
        decreases n - p,
    {
        if ordered_ids[p].eq(id) {
            return Some(p);
        }
        p += 1;
    }
    assert forall|q: int| 0 <= q < ids_view(ordered_ids@).len() implies ids_view(ordered_ids@)[q]
        != id@ by {}
    None
}

/// Moves `id` so that it stands right before `next_id` (or last when
/// `next_id` is absent).
pub fn move_order(ordered_ids: &mut Vec<String>, id: &String, next_id: Option<&String>) -> (r:
    BaseRest<()>)
    ensures
        r is Ok <==> moved(ids_view(old(ordered_ids)@), id@, opt_ref_view(next_id)) is Some,
        r is Ok ==> ids_view(final(ordered_ids)@) == moved(
            ids_view(old(ordered_ids)@),
            id@,
            opt_ref_view(next_id),
        )->0,
        r matches Err(e) ==> is_expected(e, ExpectedVariant::Args, invalid_unit_oper_key()),
{
    let ghost s = ids_view(ordered_ids@);
    let pos = match find_order_pos(ordered_ids, id) {
        Some(pos) => pos,
        None => return Err(invalid_unit_oper()),
    };
    proof {
        lemma_first_pos(s, id@, pos as int);
    }
    let moving = ordered_ids.remove(pos);
    let ghost rest = ids_view(ordered_ids@);
    assert(rest =~= s.remove(pos as int));
    let at = match next_id {
        Some(next) => match find_order_pos(ordered_ids, next) {
            Some(at) => {
                proof {
                    lemma_first_pos(rest, next@, at as int);
                }
                at
            },
            None => return Err(invalid_unit_oper()),
        },
        None => ordered_ids.len(),
    };
    ordered_ids.insert(at, moving);
    proof {
        match next_id {
            Some(next) => {
                assert(ids_view(ordered_ids@) =~= rest.insert(at as int, id@));
            },
            None => {
                assert(ids_view(ordered_ids@) =~= rest.push(id@));
            },
        }
    }
    Ok(())
}

/// The view of an optional borrowed id.
pub open spec fn opt_ref_view(o: Option<&String>) -> Option<Seq<char>> {
    match o {
        Some(s) => Some(s@),
        None => None,
    }
}

// ---------------------------------------------------------------------------
// Planning the final order of a batch of Unit edits.

/// The most Units a Page may show.
pub const MAX_VISIBLE_UNIT_COUNT: usize = 100;

/// The ids of `orders`, in order.
pub open spec fn order_ids(orders: Seq<UnitOrder>) -> Seq<Seq<char>> {
    orders.map_values(|o: UnitOrder| o.id@)
}

/// The ids after appending the Units created by the first `i` edits;
/// `None` when a created id already exists.
pub open spec fn with_created(start: Seq<Seq<char>>, edits: Seq<UnitEdit>, i: nat) -> Option<
    Seq<Seq<char>>,
>
    decreases i,
{
    if i == 0 {
        Some(start)
    } else {
        match with_created(start, edits, (i - 1) as nat) {
            None => None,
            Some(ids) => match edits[i - 1] {
                UnitEdit::Create { id, .. } => if ids.contains(id@) {
                    None
                } else {
                    Some(ids.push(id@))
                },
                _ => Some(ids),
            },
        }
    }
}

/// The ids after applying the moves requested by the first `i` edits;
/// `None` when a move names a missing id.
pub open spec fn with_moves(start: Seq<Seq<char>>, edits: Seq<UnitEdit>, i: nat) -> Option<
    Seq<Seq<char>>,
>
    decreases i,
{
    if i == 0 {
        Some(start)
    } else {
        match with_moves(start, edits, (i - 1) as nat) {
            None => None,
            Some(ids) => match edits[i - 1] {
                UnitEdit::Create { id, next_id, .. } => moved(ids, id@, opt_view(next_id)),
                UnitEdit::Save { id, next_id, .. } => match next_id {
                    Patch::Skip => Some(ids),
                    Patch::Clear => moved(ids, id@, None),
                    Patch::Assign(n) => moved(ids, id@, Some(n@)),
                },
                UnitEdit::Delete { .. } => Some(ids),
            },
        }
    }
}

/// Some persisted order with id `id` is a tombstone.
pub open spec fn initially_hidden(orders: Seq<UnitOrder>, id: Seq<char>) -> bool {
    exists|k: int| 0 <= k < orders.len() && #[trigger] orders[k].id@ == id && orders[k].is_hidden
}

/// Some edit creates a Unit with id `id`.
pub open spec fn created_by(edits: Seq<UnitEdit>, id: Seq<char>) -> bool {
    exists|k: int|
        0 <= k < edits.len() && (#[trigger] edits[k] matches UnitEdit::Create { id: x, .. } && x@
            == id)
}

/// Whether `id` is hidden once the first `i` edits are applied: the last
/// save or delete of `id` decides; without one, a created Unit is visible
/// and any other keeps its persisted state.
pub open spec fn hidden_after(orders: Seq<UnitOrder>, edits: Seq<UnitEdit>, i: nat, id: Seq<char>) -> bool
    decreases i,
{
    if i == 0 {
        initially_hidden(orders, id) && !created_by(edits, id)
    } else {
        match edits[i - 1] {
            UnitEdit::Save { id: x, .. } => if x@ == id {
                false
            } else {
                hidden_after(orders, edits, (i - 1) as nat, id)
            },
            UnitEdit::Delete { id: x } => if x@ == id {
                true
            } else {
                hidden_after(orders, edits, (i - 1) as nat, id)
            },
            UnitEdit::Create { .. } => hidden_after(orders, edits, (i - 1) as nat, id),
        }
    }
}

/// Whether `id` is hidden once every edit is applied.
pub open spec fn hidden_at_end(orders: Seq<UnitOrder>, edits: Seq<UnitEdit>, id: Seq<char>) -> bool {
    hidden_after(orders, edits, edits.len(), id)
}

/// How many of `ids` are visible once every edit is applied.
pub open spec fn visible_count(ids: Seq<Seq<char>>, orders: Seq<UnitOrder>, edits: Seq<UnitEdit>) -> nat
    decreases ids.len(),
{
    if ids.len() == 0 {
        0
    } else {
        visible_count(ids.drop_last(), orders, edits) + if hidden_at_end(orders, edits, ids.last()) {
            0nat
        } else {
            1nat
        }
    }
}

/// The final id order of a batch of edits, or `None` when the batch is invalid.
pub open spec fn planned_order(orders: Seq<UnitOrder>, edits: Seq<UnitEdit>) -> Option<
    Seq<Seq<char>>,
> {
    match with_created(order_ids(orders), edits, edits.len()) {
        None => None,
        Some(created) => match with_moves(created, edits, edits.len()) {
            None => None,
            Some(ids) => if visible_count(ids, orders, edits) > MAX_VISIBLE_UNIT_COUNT {
                None
            } else {
                Some(ids)
            },
        },
    }
}

proof fn lemma_visible_count_bound(ids: Seq<Seq<char>>, orders: Seq<UnitOrder>, edits: Seq<UnitEdit>)
    ensures
        visible_count(ids, orders, edits) <= ids.len(),
    decreases ids.len(),
{
    if ids.len() > 0 {
        lemma_visible_count_bound(ids.drop_last(), orders, edits);
    }
}

proof fn lemma_created_none_stays(start: Seq<Seq<char>>, edits: Seq<UnitEdit>, i: nat, j: nat)
    requires
        i <= j,
        with_created(start, edits, i) is None,
    ensures
        with_created(start, edits, j) is None,
    decreases j - i,
{
    if i < j {
        lemma_created_none_stays(start, edits, i, (j - 1) as nat);
    }
}

proof fn lemma_moves_none_stays(start: Seq<Seq<char>>, edits: Seq<UnitEdit>, i: nat, j: nat)
    requires
        i <= j,
        with_moves(start, edits, i) is None,
    ensures
        with_moves(start, edits, j) is None,
    decreases j - i,
{
    if i < j {
        lemma_moves_none_stays(start, edits, i, (j - 1) as nat);
    }
}

/// Decides whether `id` is hidden once every edit is applied.
fn hidden_after_edits(orders: &Vec<UnitOrder>, edits: &Vec<UnitEdit>, id: &String) -> (r: bool)
    ensures
        r == hidden_at_end(orders@, edits@, id@),
{
    let m = edits.len();
    let mut i = m;
    while i > 0
        invariant
            i <= m,
            m == edits.len(),
            hidden_after(orders@, edits@, m as nat, id@) == hidden_after(orders@, edits@, i as nat, id@),
        decreases i,
    {
        i -= 1;
        match &edits[i] {
            UnitEdit::Save { id: x, .. } => {
                if x.eq(id) {
                    return false;
                }
            },
            UnitEdit::Delete { id: x } => {
                if x.eq(id) {
                    return true;
                }
            },
            UnitEdit::Create { .. } => {},
        }
    }
    let mut created = false;
    let mut k: usize = 0;
    while k < m
        invariant
            k <= m,
            m == edits.len(),
            created <==> exists|j: int|
                0 <= j < k && (#[trigger] edits@[j] matches UnitEdit::Create { id: x, .. } && x@
                    == id@),
        decreases m - k,
    {
        if let UnitEdit::Create { id: x, .. } = &edits[k] {
            if x.eq(id) {
                created = true;
            }
        }
        k += 1;
    }
    let n = orders.len();
    let mut hidden = false;
    let mut k: usize = 0;
    while k < n
        invariant
            k <= n,
            n == orders.len(),
            hidden <==> exists|j: int| 0 <= j < k && #[trigger] orders@[j].id@ == id@ && orders@[j].is_hidden,
        decreases n - k,
    {
        if orders[k].is_hidden && orders[k].id.eq(id) {
            hidden = true;
        }
        k += 1;
    }
    hidden && !created
}

/// Applies normalized Unit edits to produce the final ordered id list.
///
/// Created ids are appended and then, like saved ids, moved before their
/// requested successor; the batch is rejected when an id is created twice,
/// a move names a missing id, or more than the maximum number of Units would
/// be visible.
pub fn apply_order_edits(orders: &Vec<UnitOrder>, edits: &Vec<UnitEdit>) -> (r: BaseRest<Vec<String>>)
    ensures
        r is Ok <==> planned_order(orders@, edits@) is Some,
        r matches Ok(ids) ==> ids_view(ids@) == planned_order(orders@, edits@)->0,
        r matches Err(e) ==> is_expected(e, ExpectedVariant::Args, invalid_unit_oper_key()),
{
    let m = edits.len();
    let mut ordered: Vec<String> = Vec::new();
    let mut k: usize = 0;
    while k < orders.len()
        invariant
            k <= orders.len(),
            ids_view(ordered@) == order_ids(orders@).take(k as int),
        decreases orders.len() - k,
    {
        let ghost before = ids_view(ordered@);
        let id = orders[k].id.clone();
        ordered.push(id);
        proof {
            assert(order_ids(orders@)[k as int] == orders@[k as int].id@);
            assert(order_ids(orders@).take(k + 1) =~= order_ids(orders@).take(k as int).push(id@));
            assert(ids_view(ordered@) =~= before.push(id@));
        }
        k += 1;
    }
    assert(order_ids(orders@).take(orders.len() as int) =~= order_ids(orders@));
    let ghost start = order_ids(orders@);
    let mut i: usize = 0;
    while i < m
        invariant
            i <= m,
            m == edits.len(),
            start == order_ids(orders@),
            with_created(start, edits@, i as nat) == Some(ids_view(ordered@)),
        decreases m - i,
    {
        if let UnitEdit::Create { id, .. } = &edits[i] {
            if let Some(p) = find_order_pos(&ordered, id) {
                proof {
                    assert(ids_view(ordered@)[p as int] == id@);
                    assert(ids_view(ordered@).contains(id@));
                    lemma_created_none_stays(start, edits@, (i + 1) as nat, m as nat);
                }
                return Err(invalid_unit_oper());
            }
            let ghost before = ids_view(ordered@);
            ordered.push(id.clone());
            proof {
                assert(ids_view(ordered@) =~= before.push(id@));
            }
        }
        i += 1;
    }
    let ghost created = ids_view(ordered@);
    let mut i: usize = 0;
    while i < m
        invariant
            i <= m,
            m == edits.len(),
            start == order_ids(orders@),
            with_created(start, edits@, m as nat) == Some(created),
            with_moves(created, edits@, i as nat) == Some(ids_view(ordered@)),
        decreases m - i,
    {
        match &edits[i] {
            UnitEdit::Create { id, next_id, .. } => {
                let next = match next_id {
                    Some(n) => Some(n),
                    None => None,
                };
                assert(opt_ref_view(next) == opt_view(*next_id));
                if let Err(e) = move_order(&mut ordered, id, next) {
                    proof {
                        lemma_moves_none_stays(created, edits@, (i + 1) as nat, m as nat);
                    }
                    return Err(e);
                }
            },
            UnitEdit::Save { id, next_id, .. } => {
                match next_id {
                    Patch::Skip => {},
                    Patch::Clear => {
                        if let Err(e) = move_order(&mut ordered, id, None) {
                            proof {
                                lemma_moves_none_stays(created, edits@, (i + 1) as nat, m as nat);
                            }
                            return Err(e);
                        }
                    },
                    Patch::Assign(n) => {
                        if let Err(e) = move_order(&mut ordered, id, Some(n)) {
                            proof {
                                lemma_moves_none_stays(created, edits@, (i + 1) as nat, m as nat);
                            }
                            return Err(e);
                        }
                    },
                }
            },
            UnitEdit::Delete { .. } => {},
        }
        i += 1;
    }
    let len = ordered.len();
    assert(with_moves(created, edits@, m as nat) == Some(ids_view(ordered@)));
    let mut visible: usize = 0;
    let mut k: usize = 0;
    while k < len
        invariant
            k <= len,
            len == ordered.len(),
            visible == visible_count(ids_view(ordered@).take(k as int), orders@, edits@),
            visible <= k,
        decreases len - k,
    {
        proof {
            assert(ids_view(ordered@).take(k + 1).drop_last() =~= ids_view(ordered@).take(k as int));
            lemma_visible_count_bound(ids_view(ordered@).take(k as int), orders@, edits@);
        }
        if !hidden_after_edits(orders, edits, &ordered[k]) {
            visible += 1;
        }
        k += 1;
    }
    assert(ids_view(ordered@).take(len as int) =~= ids_view(ordered@));
    if visible > MAX_VISIBLE_UNIT_COUNT {
        return Err(invalid_unit_oper());
    }
    Ok(ordered)
}

// ---------------------------------------------------------------------------
// Visible Unit counters.

/// The code points that `char::is_whitespace` accepts, which Unit text
/// semantics treat as blank.
pub open spec fn is_unit_whitespace(c: char) -> bool {
    ||| c == '\u{0009}'
    ||| c == '\u{000A}'
    ||| c == '\u{000B}'
    ||| c == '\u{000C}'
    ||| c == '\u{000D}'
    ||| c == '\u{0020}'
    ||| c == '\u{0085}'
    ||| c == '\u{00A0}'
    ||| c == '\u{1680}'
    ||| c == '\u{2000}'
    ||| c == '\u{2001}'
    ||| c == '\u{2002}'
    ||| c == '\u{2003}'
    ||| c == '\u{2004}'
    ||| c == '\u{2005}'
    ||| c == '\u{2006}'
    ||| c == '\u{2007}'
    ||| c == '\u{2008}'
    ||| c == '\u{2009}'
    ||| c == '\u{200A}'
    ||| c == '\u{2028}'
    ||| c == '\u{2029}'
    ||| c == '\u{202F}'
    ||| c == '\u{205F}'
    ||| c == '\u{3000}'
}

/// `t` is present and holds a character other than blank space.
pub open spec fn has_content(t: Option<String>) -> bool {
    match t {
        Some(s) => exists|i: int| 0 <= i < s@.len() && !is_unit_whitespace(#[trigger] s@[i]),
        None => false,
    }
}

fn is_unit_whitespace_char(c: char) -> (r: bool)
    ensures
        r == is_unit_whitespace(c),
{
    c == '\u{0009}' || c == '\u{000A}' || c == '\u{000B}' || c == '\u{000C}' || c == '\u{000D}'
        || c == '\u{0020}' || c == '\u{0085}' || c == '\u{00A0}' || c == '\u{1680}' || c
        == '\u{2000}' || c == '\u{2001}' || c == '\u{2002}' || c == '\u{2003}' || c == '\u{2004}'
        || c == '\u{2005}' || c == '\u{2006}' || c == '\u{2007}' || c == '\u{2008}' || c
        == '\u{2009}' || c == '\u{200A}' || c == '\u{2028}' || c == '\u{2029}' || c == '\u{202F}'
        || c == '\u{205F}' || c == '\u{3000}'
}

/// Whether an optional text holds a non-blank character.
pub fn text_has_content(t: &Option<String>) -> (r: bool)
    ensures
        r == has_content(*t),
{
    match t {
        None => false,
        Some(s) => {
            let text = s.as_str();
            let n = text.unicode_len();
            let mut i: usize = 0;
            let mut found = false;
            while i < n && !found
                invariant
                    n == text@.len(),
                    text@ == s@,
                    i <= n,
                    found ==> exists|j: int| 0 <= j < s@.len() && !is_unit_whitespace(#[trigger] s@[j]),
                    !found ==> forall|k: int| 0 <= k < i ==> is_unit_whitespace(#[trigger] s@[k]),
                decreases n - i,
            {
                if !is_unit_whitespace_char(text.get_char(i)) {
                    assert(!is_unit_whitespace(s@[i as int]));
                    found = true;
                }
                i += 1;
            }
            found
        },
    }
}

impl UnitInfo {
    /// The Unit holds a translation or a revision.
    pub open spec fn spec_is_translated(&self) -> bool {
        has_content(self.translated_text) || has_content(self.proofread_text)
    }

    /// Whether the Unit holds a translation or a revision.
    pub fn is_translated(&self) -> (r: bool)
        ensures
            r == self.spec_is_translated(),
    {
        text_has_content(&self.translated_text) || text_has_content(&self.proofread_text)
    }
}

/// How many Units of `s` satisfy `f`.
pub open spec fn count_units(s: Seq<UnitInfo>, f: spec_fn(UnitInfo) -> bool) -> nat
    decreases s.len(),
{
    if s.len() == 0 {
        0
    } else {
        count_units(s.drop_last(), f) + if f(s.last()) {
            1nat
        } else {
            0nat
        }
    }
}

proof fn lemma_count_units_bound(s: Seq<UnitInfo>, f: spec_fn(UnitInfo) -> bool)
    ensures
        count_units(s, f) <= s.len(),
    decreases s.len(),
{
    if s.len() > 0 {
        lemma_count_units_bound(s.drop_last(), f);
    }
}

/// The Unit is visible.
pub open spec fn unit_visible(u: UnitInfo) -> bool {
    u.hidden_at is None
}

/// The Unit is visible and translated.
pub open spec fn unit_translated(u: UnitInfo) -> bool {
    u.hidden_at is None && u.spec_is_translated()
}

/// The Unit is visible and marked proofread.
pub open spec fn unit_proofread(u: UnitInfo) -> bool {
    u.hidden_at is None && u.is_proofread
}

/// Computes visible Unit counters from a Unit list.
pub fn count_infos(unit_infos: &Vec<UnitInfo>) -> (c: UnitCounters)
    ensures
        c.total_unit_count == count_units(unit_infos@, |u: UnitInfo| unit_visible(u)),
        c.translated_unit_count == count_units(unit_infos@, |u: UnitInfo| unit_translated(u)),
        c.proofread_unit_count == count_units(unit_infos@, |u: UnitInfo| unit_proofread(u)),
{
    let ghost fv = |u: UnitInfo| unit_visible(u);
    let ghost ft = |u: UnitInfo| unit_translated(u);
    let ghost fp = |u: UnitInfo| unit_proofread(u);
    let n = unit_infos.len();
    let mut c = UnitCounters { total_unit_count: 0, translated_unit_count: 0, proofread_unit_count: 0 };
    let mut k: usize = 0;
    while k < n
        invariant
            k <= n,
            n == unit_infos.len(),
            fv == (|u: UnitInfo| unit_visible(u)),
            ft == (|u: UnitInfo| unit_translated(u)),
            fp == (|u: UnitInfo| unit_proofread(u)),
            c.total_unit_count == count_units(unit_infos@.take(k as int), fv),
            c.translated_unit_count == count_units(unit_infos@.take(k as int), ft),
            c.proofread_unit_count == count_units(unit_infos@.take(k as int), fp),
            c.total_unit_count <= k,
            c.translated_unit_count <= k,
            c.proofread_unit_count <= k,
        decreases n - k,
    {
        let u = &unit_infos[k];
        proof {
            assert(unit_infos@.take(k + 1).drop_last() =~= unit_infos@.take(k as int));
            lemma_count_units_bound(unit_infos@.take(k as int), fv);
            lemma_count_units_bound(unit_infos@.take(k as int), ft);
            lemma_count_units_bound(unit_infos@.take(k as int), fp);
            assert(unit_infos@.take(k + 1).last() == *u);
        }
        if u.hidden_at.is_none() {
            c.total_unit_count += 1;
            if u.is_translated() {
                c.translated_unit_count += 1;
            }
            if u.is_proofread {
                c.proofread_unit_count += 1;
            }
        }
        k += 1;
    }
    assert(unit_infos@.take(n as int) =~= unit_infos@);
    c
}

// ---------------------------------------------------------------------------
// Checks on Unit batches.

/// Reports an impossible mismatch between normalized edits and their plan.
pub fn invalid_unit_edit_plan_err() -> (e: BaseError)
    ensures
        is_unrecoverable(e, "normalized Unit edits disagree with edit plan"@),
{
    unrecoverable("normalized Unit edits disagree with edit plan")
}

/// Rejects an invariant-breaking affected-row count.
pub fn ensure_affected(page_id: &str, unit_id: &str, operation: &str, affected: usize, expected: usize) -> (r: BaseRest<()>)
    ensures
        r is Ok <==> affected == expected,
        r is Err ==> fails_unrecoverable(r, "Unit batch affected an unexpected row count"@),
{
    if affected == expected {
        return Ok(());
    }
    Err(unrecoverable("Unit batch affected an unexpected row count"))
}

// ---------------------------------------------------------------------------
// Successor links to rewrite after an edit batch.

/// The successor that the persisted order list records for `id`: the link
/// of the first order with that id, or `None` when no order has it.
pub open spec fn persisted_next(orders: Seq<UnitOrder>, id: Seq<char>) -> Option<Option<Seq<char>>>
    decreases orders.len(),
{
    if orders.len() == 0 {
        None
    } else {
        match persisted_next(orders.drop_last(), id) {
            Some(n) => Some(n),
            None => if orders.last().id@ == id {
                Some(opt_view(orders.last().next_id))
            } else {
                None
            },
        }
    }
}

/// The successor of position `k` in an ordered id list.
pub open spec fn next_in(ids: Seq<Seq<char>>, k: int) -> Option<Seq<char>> {
    if k + 1 < ids.len() {
        Some(ids[k + 1])
    } else {
        None
    }
}

/// The links among the first `k` positions of `ids` that differ from the
/// persisted ones, as (id, new successor) pairs in list order.
pub open spec fn successor_changes(orders: Seq<UnitOrder>, ids: Seq<Seq<char>>, k: nat) -> Seq<
    (Seq<char>, Option<Seq<char>>),
>
    decreases k,
{
    if k == 0 {
        Seq::empty()
    } else {
        let rest = successor_changes(orders, ids, (k - 1) as nat);
        if persisted_next(orders, ids[k - 1]) == Some(next_in(ids, k - 1)) {
            rest
        } else {
            rest.push((ids[k - 1], next_in(ids, k - 1)))
        }
    }
}

/// The view of a list of (id, successor) pairs.
pub open spec fn link_pairs_view(v: Seq<(String, Option<String>)>) -> Seq<(Seq<char>, Option<Seq<char>>)> {
    v.map_values(|p: (String, Option<String>)| (p.0@, opt_view(p.1)))
}

proof fn lemma_persisted_next_prefix(orders: Seq<UnitOrder>, id: Seq<char>, k: int)
    requires
        0 <= k <= orders.len(),
        persisted_next(orders.take(k), id) is Some,
    ensures
        persisted_next(orders, id) == persisted_next(orders.take(k), id),
    decreases orders.len() - k,
{
    if k < orders.len() {
        assert(orders.take(k + 1).drop_last() =~= orders.take(k));
        lemma_persisted_next_prefix(orders, id, k + 1);
    } else {
        assert(orders.take(k) =~= orders);
    }
}

/// Looks up the persisted successor of `id`.
fn find_persisted_next<'a>(orders: &'a Vec<UnitOrder>, id: &String) -> (r: Option<Option<&'a String>>)
    ensures
        match r {
            None => persisted_next(orders@, id@) is None,
            Some(n) => persisted_next(orders@, id@) == Some(opt_ref_view(n)),
        },
{
    let n = orders.len();
    let mut k: usize = 0;
    while k < n
        invariant
            n == orders.len(),
            k <= n,
            persisted_next(orders@.take(k as int), id@) is None,
        decreases n - k,
    {
        proof {
            assert(orders@.take(k + 1).drop_last() =~= orders@.take(k as int));
        }
        if orders[k].id.eq(id) {
            let next = match &orders[k].next_id {
                Some(x) => Some(x),
                None => None,
            };
            proof {
                lemma_persisted_next_prefix(orders@, id@, k + 1);
            }
            return Some(next);
        }
        k += 1;
    }
    assert(orders@.take(n as int) =~= orders@);
    None
}

fn same_successor(persisted: Option<&String>, next: Option<&String>) -> (r: bool)
    ensures
        r == (opt_ref_view(persisted) == opt_ref_view(next)),
{
    match (persisted, next) {
        (Some(a), Some(b)) => a.eq(b),
        (None, None) => true,
        _ => false,
    }
}

fn dup_opt_ref(o: Option<&String>) -> (r: Option<String>)
    ensures
        opt_view(r) == opt_ref_view(o),
{
    match o {
        Some(s) => Some(s.clone()),
        None => None,
    }
}

/// Lists the successor links of the final order that differ from the
/// persisted ones; only these rows need an update.
pub fn changed_successors(orders: &Vec<UnitOrder>, ordered_ids: &Vec<String>) -> (r: Vec<(String, Option<String>)>)
    ensures
        link_pairs_view(r@) == successor_changes(orders@, ids_view(ordered_ids@), ordered_ids.len() as nat),
{
    let n = ordered_ids.len();
    let ghost ids = ids_view(ordered_ids@);
    let mut out: Vec<(String, Option<String>)> = Vec::new();
    let mut k: usize = 0;
    while k < n
        invariant
            n == ordered_ids.len(),
            ids == ids_view(ordered_ids@),
            k <= n,
            link_pairs_view(out@) == successor_changes(orders@, ids, k as nat),
        decreases n - k,
    {
        let next: Option<&String> = if k + 1 < n {
            Some(&ordered_ids[k + 1])
        } else {
            None
        };
        assert(opt_ref_view(next) == next_in(ids, k as int));
        let unchanged = match find_persisted_next(orders, &ordered_ids[k]) {
            Some(persisted) => same_successor(persisted, next),
            None => false,
        };
        if !unchanged {
            let ghost before = link_pairs_view(out@);
            out.push((ordered_ids[k].clone(), dup_opt_ref(next)));
            assert(link_pairs_view(out@) =~= before.push((ids[k as int], next_in(ids, k as int))));
        }
        k += 1;
    }
    out
}

// ---------------------------------------------------------------------------
// Reading the locked order chain in chunks, and storing counters.

/// Rows loaded per locked Unit-order query.
pub const UNIT_ORDER_QUERY_CHUNK_SIZE: usize = 512;

/// Decides how the chunked read continues after a chunk: from the last id of
/// a full chunk, or not at all after a partial one.
pub fn next_chunk_cursor(chunk_ids: &Vec<String>) -> (r: Option<String>)
    ensures
        chunk_ids.len() == UNIT_ORDER_QUERY_CHUNK_SIZE ==> (r matches Some(c) && c@ == chunk_ids@.last()@),
        chunk_ids.len() != UNIT_ORDER_QUERY_CHUNK_SIZE ==> r is None,
{
    if chunk_ids.len() == UNIT_ORDER_QUERY_CHUNK_SIZE {
        Some(chunk_ids[chunk_ids.len() - 1].clone())
    } else {
        None
    }
}

/// The counter columns of a Page, converted to database INTEGERs.
pub fn counter_columns(counters: &UnitCounters) -> (r: BaseRest<(i32, i32, i32)>)
    ensures
        counters.total_unit_count <= i32::MAX && counters.translated_unit_count <= i32::MAX
            && counters.proofread_unit_count <= i32::MAX ==> r == Ok::<(i32, i32, i32), BaseError>(
            (
                counters.total_unit_count as i32,
                counters.translated_unit_count as i32,
                counters.proofread_unit_count as i32,
            ),
        ),
        counters.total_unit_count > i32::MAX ==> fails_unrecoverable(
            r,
            crate::numeric::field_message(
                "database field "@,
                "t_page.f_total_unit_count"@,
                " exceeds INTEGER range"@,
            ),
        ),
        counters.total_unit_count <= i32::MAX && counters.translated_unit_count > i32::MAX
            ==> fails_unrecoverable(
            r,
            crate::numeric::field_message(
                "database field "@,
                "t_page.f_translated_unit_count"@,
                " exceeds INTEGER range"@,
            ),
        ),
        counters.total_unit_count <= i32::MAX && counters.translated_unit_count <= i32::MAX
            && counters.proofread_unit_count > i32::MAX ==> fails_unrecoverable(
            r,
            crate::numeric::field_message(
                "database field "@,
                "t_page.f_proofread_unit_count"@,
                " exceeds INTEGER range"@,
            ),
        ),
{
    let total = crate::numeric::i32_from_usize(counters.total_unit_count, "t_page.f_total_unit_count")?;
    let translated = crate::numeric::i32_from_usize(
        counters.translated_unit_count,
        "t_page.f_translated_unit_count",
    )?;
    let proofread = crate::numeric::i32_from_usize(
        counters.proofread_unit_count,
        "t_page.f_proofread_unit_count",
    )?;
    Ok((total, translated, proofread))
}

// ---------------------------------------------------------------------------
// Laws.

/// Moving an id keeps the same ids, and puts the moved id right before the
/// requested successor, or last when there is none.
pub proof fn lemma_moved_rearranges(s: Seq<Seq<char>>, id: Seq<char>, next: Option<Seq<char>>)
    requires
        moved(s, id, next) is Some,
    ensures
        moved(s, id, next)->0.to_multiset() == s.to_multiset(),
        next is None ==> moved(s, id, next)->0.last() == id,
        next matches Some(n) ==> {
            let t = moved(s, id, next)->0;
            let at = first_pos(s.remove(first_pos(s, id)), n);
            &&& t[at] == id
            &&& t[at + 1] == n
        },
{
    broadcast use vstd::seq_lib::group_to_multiset_ensures;
    lemma_first_pos_exists(s, id);
    let p = first_pos(s, id);
    let rest = s.remove(p);
    assert(rest.insert(p, id) =~= s);
    match next {
        None => {
            assert(rest.push(id) =~= rest.insert(rest.len() as int, id));
        },
        Some(n) => {
            lemma_first_pos_exists(rest, n);
        },
    }
}

/// The counters never exceed the number of visible Units.
pub proof fn lemma_counters_bounded(s: Seq<UnitInfo>)
    ensures
        count_units(s, |u: UnitInfo| unit_translated(u)) <= count_units(s, |u: UnitInfo| unit_visible(u)),
        count_units(s, |u: UnitInfo| unit_proofread(u)) <= count_units(s, |u: UnitInfo| unit_visible(u)),
        count_units(s, |u: UnitInfo| unit_visible(u)) <= s.len(),
    decreases s.len(),
{
    lemma_count_units_bound(s, |u: UnitInfo| unit_visible(u));
    if s.len() > 0 {
        lemma_counters_bounded(s.drop_last());
    }
}

/// The last move of a batch decides where its Unit ends up: when the last
/// edit saves a Unit with its successor cleared, or creates one without a
/// successor, that Unit is the last of the planned order; when it saves or
/// creates a Unit before a successor `n`, the Unit stands right before `n`.
/// The planned order always holds the persisted and created Units.
pub proof fn lemma_last_move_places_unit(orders: Seq<UnitOrder>, edits: Seq<UnitEdit>)
    requires
        edits.len() > 0,
        planned_order(orders, edits) is Some,
    ensures
        ({
            let ids = planned_order(orders, edits)->0;
            &&& ids.to_multiset() == with_created(order_ids(orders), edits, edits.len())->0.to_multiset()
            &&& (edits.last() matches UnitEdit::Save { id, next_id: Patch::Clear, .. } ==> ids.len() > 0
                && ids.last() == id@)
            &&& (edits.last() matches UnitEdit::Create { id, next_id: None, .. } ==> ids.len() > 0 && ids.last()
                == id@)
            &&& (edits.last() matches UnitEdit::Save { id, next_id: Patch::Assign(n), .. } ==> exists|k: int|
                0 <= k < ids.len() - 1 && #[trigger] ids[k] == id@ && ids[k + 1] == n@)
            &&& (edits.last() matches UnitEdit::Create { id, next_id: Some(n), .. } ==> exists|k: int|
                0 <= k < ids.len() - 1 && #[trigger] ids[k] == id@ && ids[k + 1] == n@)
        }),
{
    broadcast use vstd::seq_lib::group_to_multiset_ensures;
    let n = edits.len();
    let created = with_created(order_ids(orders), edits, n)->0;
    let ids = planned_order(orders, edits)->0;
    lemma_with_moves_keeps_rows(created, edits, n);
    let prev = with_moves(created, edits, (n - 1) as nat)->0;
    let last = edits[n - 1];
    assert(edits.last() == last);
    match last {
        UnitEdit::Create { id, next_id, .. } => {
            lemma_moved_rearranges(prev, id@, opt_view(next_id));
            if let Some(nx) = next_id {
                let rest = prev.remove(first_pos(prev, id@));
                lemma_first_pos_exists(rest, nx@);
                let at = first_pos(rest, nx@);
                assert(0 <= at < ids.len() - 1 && ids[at] == id@ && ids[at + 1] == nx@);
            }
        },
        UnitEdit::Save { id, next_id, .. } => {
            match next_id {
                Patch::Skip => {},
                Patch::Clear => {
                    lemma_moved_rearranges(prev, id@, None);
                },
                Patch::Assign(nx) => {
                    lemma_moved_rearranges(prev, id@, Some(nx@));
                    let rest = prev.remove(first_pos(prev, id@));
                    lemma_first_pos_exists(rest, nx@);
                    let at = first_pos(rest, nx@);
                    assert(0 <= at < ids.len() - 1 && ids[at] == id@ && ids[at + 1] == nx@);
                },
            }
        },
        UnitEdit::Delete { .. } => {},
    }
}

proof fn lemma_with_moves_keeps_rows(start: Seq<Seq<char>>, edits: Seq<UnitEdit>, i: nat)
    requires
        i <= edits.len(),
        with_moves(start, edits, i) is Some,
    ensures
        with_moves(start, edits, i)->0.to_multiset() == start.to_multiset(),
    decreases i,
{
    if i > 0 {
        if with_moves(start, edits, (i - 1) as nat) is None {
            assert(with_moves(start, edits, i) is None);
        }
        lemma_with_moves_keeps_rows(start, edits, (i - 1) as nat);
        let prev = with_moves(start, edits, (i - 1) as nat)->0;
        match edits[i - 1] {
            UnitEdit::Create { id, next_id, .. } => {
                lemma_moved_rearranges(prev, id@, opt_view(next_id));
            },
            UnitEdit::Save { id, next_id, .. } => {
                match next_id {
                    Patch::Skip => {},
                    Patch::Clear => {
                        lemma_moved_rearranges(prev, id@, None);
                    },
                    Patch::Assign(nx) => {
                        lemma_moved_rearranges(prev, id@, Some(nx@));
                    },
                }
            },
            UnitEdit::Delete { .. } => {},
        }
    }
}

/// Saving one present Unit with its successor cleared moves it to the end
/// and keeps every other Unit in its order.
pub proof fn lemma_clear_moves_to_end(ids: Seq<Seq<char>>, edits: Seq<UnitEdit>)
    requires
        edits.len() == 1,
        edits[0] matches UnitEdit::Save { id, next_id: Patch::Clear, .. } && ids.contains(id@),
    ensures
        edits[0] matches UnitEdit::Save { id, .. } && with_moves(ids, edits, 1) == Some(
            ids.remove(first_pos(ids, id@)).push(id@),
        ),
{
    if let UnitEdit::Save { id, .. } = edits[0] {
        assert(with_moves(ids, edits, 0) == Some(ids));
    }
}

/// A present text has content exactly when one of its characters, at any
/// position, is not blank space; a longer text keeps the content of its
/// tail.
pub proof fn lemma_content_is_any_visible_char(s: String, i: int)
    requires
        0 <= i < s@.len(),
        !is_unit_whitespace(s@[i]),
    ensures
        has_content(Some(s)),
        forall|u: String, t: String| u@ == t@ + s@ ==> has_content(Some(u)),
{
    assert(exists|j: int| 0 <= j < s@.len() && !is_unit_whitespace(#[trigger] s@[j]));
    let o = Some(s);
    assert(o matches Some(x) && x@ == s@);
    assert forall|u: String, t: String| u@ == t@ + s@ implies has_content(Some(u)) by {
        let j = t@.len() + i;
        assert(u@[j] == s@[i]);
        assert(0 <= j < u@.len() && !is_unit_whitespace(u@[j]));
        let ou = Some(u);
        assert(ou matches Some(x) && x@ == u@);
        assert(has_content(ou));
    }
}

/// Blank text has no content: a present text made only of blank space, and
/// an absent text, count as untranslated.
pub proof fn lemma_blank_has_no_content(s: String)
    requires
        forall|i: int| 0 <= i < s@.len() ==> is_unit_whitespace(#[trigger] s@[i]),
    ensures
        !has_content(Some(s)),
        !has_content(None),
{
}

} // verus!

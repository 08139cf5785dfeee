//! Decisions of the hierarchy mark-and-sweep deletion.
//!
//! Deleting a team, workset or comic marks it and every descendant with one
//! tombstone timestamp; a directly deleted chapter is removed at once.

use time::OffsetDateTime;
use vstd::prelude::*;

use crate::error::{BaseRest, fails_unrecoverable, unrecoverable};

verus! {

/// A level of the team → workset → comic → chapter hierarchy.
#[derive(Clone, Copy, Debug, PartialEq, Eq, Structural)]
pub enum HierarchyLevel {
    Team,
    Workset,
    Comic,
    Chapter,
}

/// The root of a requested subtree deletion.
pub enum SubtreeRoot {
    Team { id: String },
    Workset { id: String },
    Comic { id: String },
    Chapter { id: String },
}

/// A locked deletion root with the ancestry it needs.
pub enum SubtreeDeleteScope {
    Team { team_id: String },
    Workset { workset_id: String, team_id: String },
    Comic { comic_id: String, workset_id: String, team_id: String },
    Chapter { chapter_id: String, comic_id: String, workset_id: String, team_id: String, was_pinned: bool },
}

/// A claimed tombstone, or batch of tombstones, whose rows are physically
/// removed next.
#[derive(Debug)]
pub enum SubtreeDeleteSweepTarget {
    Chapter { id: String },
    Comics { ids: Vec<String> },
    Worksets { ids: Vec<String> },
    Team { id: String },
}

/// The hierarchy level at which a sweep claims tombstones.
#[derive(Clone, Copy, Debug, PartialEq, Eq, Structural)]
pub enum SubtreeSweepLevel {
    Chapter,
    Comic,
    Workset,
    Team,
}

/// The message key reported when the root of a deletion is not active.
pub open spec fn root_missing_key(root: SubtreeRoot) -> Seq<char> {
    match root {
        SubtreeRoot::Team { .. } => "error-team-not-found"@,
        SubtreeRoot::Workset { .. } => "error-workset-not-found"@,
        SubtreeRoot::Comic { .. } => "error-comic-not-found"@,
        SubtreeRoot::Chapter { .. } => "error-chapter-not-found"@,
    }
}

/// Builds the error for a deletion root that is missing or already deleted.
pub fn missing_root(root: &SubtreeRoot) -> (e: crate::error::BaseError)
    ensures
        crate::error::is_expected(e, crate::error::ExpectedVariant::Args, root_missing_key(*root)),
{
    match root {
        SubtreeRoot::Team { id } => crate::resource::missing("error-team-not-found", "team", id.as_str()),
        SubtreeRoot::Workset { id } => crate::resource::missing("error-workset-not-found", "workset", id.as_str()),
        SubtreeRoot::Comic { id } => crate::resource::missing("error-comic-not-found", "comic", id.as_str()),
        SubtreeRoot::Chapter { id } => crate::resource::missing("error-chapter-not-found", "chapter", id.as_str()),
    }
}

/// The levels that a tombstone of `scope` marks, from the root down.
pub open spec fn tombstone_levels(scope: SubtreeDeleteScope) -> Option<Seq<HierarchyLevel>> {
    match scope {
        SubtreeDeleteScope::Team { .. } => Some(
            seq![HierarchyLevel::Team, HierarchyLevel::Workset, HierarchyLevel::Comic, HierarchyLevel::Chapter],
        ),
        SubtreeDeleteScope::Workset { .. } => Some(
            seq![HierarchyLevel::Workset, HierarchyLevel::Comic, HierarchyLevel::Chapter],
        ),
        SubtreeDeleteScope::Comic { .. } => Some(seq![HierarchyLevel::Comic, HierarchyLevel::Chapter]),
        SubtreeDeleteScope::Chapter { .. } => None,
    }
}

/// Decides which levels one tombstone marks; a chapter root never gets a
/// tombstone.
pub fn tombstone_plan(scope: &SubtreeDeleteScope) -> (r: BaseRest<Vec<HierarchyLevel>>)
    ensures
        tombstone_levels(*scope) matches Some(levels) ==> (r matches Ok(v) && v@ == levels),
        tombstone_levels(*scope) is None ==> fails_unrecoverable(
            r,
            "direct chapter deletion must not create a tombstone"@,
        ),
{
    let mut levels: Vec<HierarchyLevel> = Vec::new();
    match scope {
        SubtreeDeleteScope::Team { .. } => {
            levels.push(HierarchyLevel::Team);
            levels.push(HierarchyLevel::Workset);
            levels.push(HierarchyLevel::Comic);
            levels.push(HierarchyLevel::Chapter);
        },
        SubtreeDeleteScope::Workset { .. } => {
            levels.push(HierarchyLevel::Workset);
            levels.push(HierarchyLevel::Comic);
            levels.push(HierarchyLevel::Chapter);
        },
        SubtreeDeleteScope::Comic { .. } => {
            levels.push(HierarchyLevel::Comic);
            levels.push(HierarchyLevel::Chapter);
        },
        SubtreeDeleteScope::Chapter { .. } => {
            return Err(unrecoverable("direct chapter deletion must not create a tombstone"));
        },
    }
    assert(levels@ =~= tombstone_levels(*scope)->0);
    Ok(levels)
}

/// Plans the marks of one tombstone: the levels it marks, from the root
/// down, each with the same deletion time, read once from the clock; a
/// chapter root never gets a tombstone.
pub fn tombstone_marks(scope: &SubtreeDeleteScope) -> (r: BaseRest<Vec<(HierarchyLevel, OffsetDateTime)>>)
    ensures
        tombstone_levels(*scope) matches Some(levels) ==> (r matches Ok(v) && v@.len() == levels.len()
            && forall|k: int| 0 <= k < v@.len() ==> (#[trigger] v@[k]).0 == levels[k] && v@[k].1 == v@[0].1),
        tombstone_levels(*scope) is None ==> fails_unrecoverable(
            r,
            "direct chapter deletion must not create a tombstone"@,
        ),
{
    let levels = tombstone_plan(scope)?;
    let deleted_at = crate::clock::now();
    let mut marks: Vec<(HierarchyLevel, OffsetDateTime)> = Vec::new();
    let mut k: usize = 0;
    while k < levels.len()
        invariant
            k <= levels.len(),
            marks@.len() == k,
            forall|q: int| 0 <= q < k ==> (#[trigger] marks@[q]).0 == levels@[q] && marks@[q].1 == deleted_at,
        decreases levels.len() - k,
    {
        marks.push((levels[k], deleted_at));
        k += 1;
    }
    Ok(marks)
}

/// The chapter of a directly deleted scope; only a chapter may bypass
/// tombstones.
pub fn direct_chapter_id(scope: &SubtreeDeleteScope) -> (r: BaseRest<&String>)
    ensures
        scope matches SubtreeDeleteScope::Chapter { chapter_id, .. } ==> (r matches Ok(id) && id
            == chapter_id),
        !(scope is Chapter) ==> fails_unrecoverable(
            r,
            "only a direct chapter may bypass subtree tombstones"@,
        ),
{
    match scope {
        SubtreeDeleteScope::Chapter { chapter_id, .. } => Ok(chapter_id),
        _ => Err(unrecoverable("only a direct chapter may bypass subtree tombstones")),
    }
}

// ---------------------------------------------------------------------------
// Sweeping claimed tombstones.

/// A table whose rows a sweep removes.
#[derive(Clone, Copy, Debug, PartialEq, Eq, Structural)]
pub enum SweptTable {
    AssignmentInvitation,
    Assignment,
    ChapterWorkflowRecord,
    Unit,
    Page,
    Chapter,
    Term,
    Termbase,
    ComicArchive,
    Comic,
    Workset,
    Announcement,
    Comment,
    MemberInvitation,
    Member,
    Team,
}

/// The tables cleared for one claimed target, dependants first and the
/// target's own row last.
pub open spec fn sweep_order(target: SubtreeDeleteSweepTarget) -> Seq<SweptTable> {
    match target {
        SubtreeDeleteSweepTarget::Chapter { .. } => seq![
            SweptTable::AssignmentInvitation,
            SweptTable::Assignment,
            SweptTable::ChapterWorkflowRecord,
            SweptTable::Unit,
            SweptTable::Page,
            SweptTable::Chapter,
        ],
        SubtreeDeleteSweepTarget::Comics { .. } => seq![
            SweptTable::Term,
            SweptTable::Termbase,
            SweptTable::ComicArchive,
            SweptTable::Comic,
        ],
        SubtreeDeleteSweepTarget::Worksets { .. } => seq![SweptTable::Workset],
        SubtreeDeleteSweepTarget::Team { .. } => seq![
            SweptTable::Term,
            SweptTable::Termbase,
            SweptTable::ComicArchive,
            SweptTable::Announcement,
            SweptTable::Comment,
            SweptTable::MemberInvitation,
            SweptTable::Member,
            SweptTable::Team,
        ],
    }
}

/// The table that holds the row of a target itself.
pub open spec fn own_table(target: SubtreeDeleteSweepTarget) -> SweptTable {
    match target {
        SubtreeDeleteSweepTarget::Chapter { .. } => SweptTable::Chapter,
        SubtreeDeleteSweepTarget::Comics { .. } => SweptTable::Comic,
        SubtreeDeleteSweepTarget::Worksets { .. } => SweptTable::Workset,
        SubtreeDeleteSweepTarget::Team { .. } => SweptTable::Team,
    }
}

/// Lists, in order, the tables whose rows a sweep of `target` deletes.
pub fn sweep_plan(target: &SubtreeDeleteSweepTarget) -> (r: Vec<SweptTable>)
    ensures
        r@ == sweep_order(*target),
{
    let r = match target {
        SubtreeDeleteSweepTarget::Chapter { .. } => vec![
            SweptTable::AssignmentInvitation,
            SweptTable::Assignment,
            SweptTable::ChapterWorkflowRecord,
            SweptTable::Unit,
            SweptTable::Page,
            SweptTable::Chapter,
        ],
        SubtreeDeleteSweepTarget::Comics { .. } => vec![
            SweptTable::Term,
            SweptTable::Termbase,
            SweptTable::ComicArchive,
            SweptTable::Comic,
        ],
        SubtreeDeleteSweepTarget::Worksets { .. } => vec![SweptTable::Workset],
        SubtreeDeleteSweepTarget::Team { .. } => vec![
            SweptTable::Term,
            SweptTable::Termbase,
            SweptTable::ComicArchive,
            SweptTable::Announcement,
            SweptTable::Comment,
            SweptTable::MemberInvitation,
            SweptTable::Member,
            SweptTable::Team,
        ],
    };
    assert(r@ =~= sweep_order(*target));
    r
}

/// A sweep deletes the target's own row last and only once, after every
/// dependant table, and clears each table at most once; Units go before
/// their Pages and terms before their termbases.
pub proof fn lemma_sweep_owner_last(target: SubtreeDeleteSweepTarget)
    ensures
        sweep_order(target).len() > 0,
        sweep_order(target).last() == own_table(target),
        forall|i: int| 0 <= i < sweep_order(target).len() - 1 ==> sweep_order(target)[i] != own_table(target),
        forall|i: int, j: int| 0 <= i < j < sweep_order(target).len() ==> sweep_order(target)[i] != sweep_order(target)[j],
        forall|i: int, j: int|
            0 <= i < sweep_order(target).len() && 0 <= j < sweep_order(target).len() && sweep_order(target)[i]
                == SweptTable::Unit && sweep_order(target)[j] == SweptTable::Page ==> i < j,
        forall|i: int, j: int|
            0 <= i < sweep_order(target).len() && 0 <= j < sweep_order(target).len() && sweep_order(target)[i]
                == SweptTable::Term && sweep_order(target)[j] == SweptTable::Termbase ==> i < j,
{
}

/// The most comics or worksets that one claim takes.
pub const SWEEP_BATCH_LIMIT: usize = 64;

/// How many tombstones one claim at `level` takes at most: one chapter or
/// team, or a batch of comics or worksets.
pub open spec fn claim_limit_of(level: SubtreeSweepLevel) -> nat {
    match level {
        SubtreeSweepLevel::Chapter => 1,
        SubtreeSweepLevel::Comic => SWEEP_BATCH_LIMIT as nat,
        SubtreeSweepLevel::Workset => SWEEP_BATCH_LIMIT as nat,
        SubtreeSweepLevel::Team => 1,
    }
}

/// The row limit of the claim query at `level`.
pub fn claim_limit(level: SubtreeSweepLevel) -> (n: usize)
    ensures
        n == claim_limit_of(level),
{
    match level {
        SubtreeSweepLevel::Chapter => 1,
        SubtreeSweepLevel::Comic => SWEEP_BATCH_LIMIT,
        SubtreeSweepLevel::Workset => SWEEP_BATCH_LIMIT,
        SubtreeSweepLevel::Team => 1,
    }
}

/// The ids held by a vector of strings.
pub open spec fn id_views(v: Seq<String>) -> Seq<Seq<char>> {
    v.map_values(|s: String| s@)
}

/// The level a target was claimed at.
pub open spec fn target_level(target: SubtreeDeleteSweepTarget) -> SubtreeSweepLevel {
    match target {
        SubtreeDeleteSweepTarget::Chapter { .. } => SubtreeSweepLevel::Chapter,
        SubtreeDeleteSweepTarget::Comics { .. } => SubtreeSweepLevel::Comic,
        SubtreeDeleteSweepTarget::Worksets { .. } => SubtreeSweepLevel::Workset,
        SubtreeDeleteSweepTarget::Team { .. } => SubtreeSweepLevel::Team,
    }
}

/// The ids a target names, in order.
pub open spec fn target_ids(target: SubtreeDeleteSweepTarget) -> Seq<Seq<char>> {
    match target {
        SubtreeDeleteSweepTarget::Chapter { id } => seq![id@],
        SubtreeDeleteSweepTarget::Comics { ids } => id_views(ids@),
        SubtreeDeleteSweepTarget::Worksets { ids } => id_views(ids@),
        SubtreeDeleteSweepTarget::Team { id } => seq![id@],
    }
}

/// The number of ids a claim at `level` takes from `n` eligible rows.
pub open spec fn claimed_count(level: SubtreeSweepLevel, n: nat) -> nat {
    if n < claim_limit_of(level) {
        n
    } else {
        claim_limit_of(level)
    }
}

/// Decides a claim at `level` from the eligible tombstones of that level,
/// oldest first: nothing when there is none, else the target of that level
/// holding the first ones, up to the level's limit. A claim never looks at
/// another level.
pub fn claim_target(level: SubtreeSweepLevel, eligible: Vec<String>) -> (r: Option<SubtreeDeleteSweepTarget>)
    ensures
        eligible.len() == 0 ==> r is None,
        eligible.len() > 0 ==> (r matches Some(t) && target_level(t) == level && target_ids(t) == id_views(
            eligible@,
        ).take(claimed_count(level, eligible.len() as nat) as int)),
{
    if eligible.len() == 0 {
        return None;
    }
    let limit = claim_limit(level);
    let n = eligible.len();
    let count = if n < limit {
        n
    } else {
        limit
    };
    let mut ids: Vec<String> = Vec::new();
    let mut k: usize = 0;
    while k < count
        invariant
            count <= n,
            n == eligible.len(),
            k <= count,
            id_views(ids@) == id_views(eligible@).take(k as int),
        decreases count - k,
    {
        let ghost before = id_views(ids@);
        ids.push(eligible[k].clone());
        assert(id_views(ids@) =~= before.push(eligible@[k as int]@));
        assert(id_views(eligible@).take(k + 1) =~= id_views(eligible@).take(k as int).push(eligible@[k as int]@));
        k += 1;
    }
    let t = match level {
        SubtreeSweepLevel::Chapter => SubtreeDeleteSweepTarget::Chapter { id: eligible[0].clone() },
        SubtreeSweepLevel::Comic => SubtreeDeleteSweepTarget::Comics { ids },
        SubtreeSweepLevel::Workset => SubtreeDeleteSweepTarget::Worksets { ids },
        SubtreeSweepLevel::Team => SubtreeDeleteSweepTarget::Team { id: eligible[0].clone() },
    };
    proof {
        if level == SubtreeSweepLevel::Chapter || level == SubtreeSweepLevel::Team {
            assert(target_ids(t) =~= id_views(eligible@).take(1));
        }
    }
    Some(t)
}

/// A claim is never empty and never above its level's limit: it names at
/// least one and at most the limit of eligible tombstones, one for a chapter
/// or a team.
pub proof fn lemma_claim_bounded(level: SubtreeSweepLevel, n: nat)
    requires
        n > 0,
    ensures
        1 <= claimed_count(level, n) <= claim_limit_of(level),
        claimed_count(level, n) <= n,
        (level == SubtreeSweepLevel::Chapter || level == SubtreeSweepLevel::Team) ==> claimed_count(level, n) == 1,
{
}

/// How deep a level lies in the hierarchy, counting from the team.
pub open spec fn level_depth(level: HierarchyLevel) -> int {
    match level {
        HierarchyLevel::Team => 0,
        HierarchyLevel::Workset => 1,
        HierarchyLevel::Comic => 2,
        HierarchyLevel::Chapter => 3,
    }
}

/// The level of a deletion root.
pub open spec fn scope_level(scope: SubtreeDeleteScope) -> HierarchyLevel {
    match scope {
        SubtreeDeleteScope::Team { .. } => HierarchyLevel::Team,
        SubtreeDeleteScope::Workset { .. } => HierarchyLevel::Workset,
        SubtreeDeleteScope::Comic { .. } => HierarchyLevel::Comic,
        SubtreeDeleteScope::Chapter { .. } => HierarchyLevel::Chapter,
    }
}

/// A tombstone marks its root and every level below it: for a team,
/// workset or comic root the marked levels start at the root's level, go
/// one level deeper at each step, and end with the chapters, so no level
/// below the root is left unmarked; a chapter root gets no tombstone.
pub proof fn lemma_tombstone_covers_descendants(scope: SubtreeDeleteScope)
    ensures
        scope is Chapter <==> tombstone_levels(scope) is None,
        tombstone_levels(scope) matches Some(levels) ==> {
            &&& levels.len() > 0
            &&& levels[0] == scope_level(scope)
            &&& levels.last() == HierarchyLevel::Chapter
            &&& forall|k: int| 0 <= k < levels.len() - 1 ==> level_depth(#[trigger] levels[k + 1]) == level_depth(levels[k]) + 1
            &&& forall|l: HierarchyLevel| level_depth(l) >= level_depth(scope_level(scope)) ==> levels.contains(l)
        },
{
    if let Some(levels) = tombstone_levels(scope) {
        assert forall|l: HierarchyLevel| level_depth(l) >= level_depth(scope_level(scope)) implies levels.contains(l) by {
            let k = level_depth(l) - level_depth(scope_level(scope));
            assert(levels[k] == l);
        }
    }
}

} // verus!

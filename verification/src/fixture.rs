//! Deterministic entries and fixtures for repository round-trip checks.
//!
//! Every id is derived from a caller-chosen prefix so that records created
//! by different checks never collide.

use vstd::prelude::*;

use crate::model::{ChapterEntry, ComicEntry, ImageExt, PageEntry, TeamEntry, UserEntry, WorksetEntry};

verus! {

/// A seeded user.
pub struct UserFixture {
    pub user_entry: UserEntry,
}

/// A seeded user owning a seeded team.
pub struct TeamFixture {
    pub user_entry: UserEntry,
    pub team_entry: TeamEntry,
}

/// A seeded workset and its team.
pub struct WorksetFixture {
    pub team_entry: TeamEntry,
    pub workset_entry: WorksetEntry,
}

/// A seeded comic with its ancestry and creator.
pub struct ComicFixture {
    pub creator_form: UserEntry,
    pub team_entry: TeamEntry,
    pub workset_entry: WorksetEntry,
    pub comic_entry: ComicEntry,
}

/// A seeded chapter with its ancestry and creator.
pub struct ChapterFixture {
    pub creator_form: UserEntry,
    pub team_entry: TeamEntry,
    pub workset_entry: WorksetEntry,
    pub comic_entry: ComicEntry,
    pub chapter_entry: ChapterEntry,
}

/// A seeded page with its chapter and team.
pub struct PageFixture {
    pub team_entry: TeamEntry,
    pub chapter_entry: ChapterEntry,
    pub page_entry: PageEntry,
}

/// `a + b + c` as a new string.
fn join3(a: &str, b: &str, c: &str) -> (r: String)
    ensures
        r@ == a@ + b@ + c@,
{
    let mut r = String::from_str(a);
    r.append(b);
    r.append(c);
    r
}

/// `a + b` as a new string.
fn join2(a: &str, b: &str) -> (r: String)
    ensures
        r@ == a@ + b@,
{
    let mut r = String::from_str(a);
    r.append(b);
    r
}

/// The owner-style user entry named `name` under `prefix`.
pub fn user_entry(prefix: &str, name: &str) -> (e: UserEntry)
    ensures
        e.id@ == prefix@ + "user-"@ + name@,
        e.nickname@ == prefix@ + "user-"@ + name@,
        e.qid@ == prefix@ + "qid-"@ + name@,
        e.password_hash@ == "hash"@,
{
    UserEntry {
        id: join3(prefix, "user-", name),
        nickname: join3(prefix, "user-", name),
        qid: join3(prefix, "qid-", name),
        password_hash: String::from_str("hash"),
    }
}

/// The team entry under `prefix`.
pub fn team_entry(prefix: &str) -> (e: TeamEntry)
    ensures
        e.id@ == prefix@ + "team"@,
        e.name@ == prefix@ + "team"@,
        e.description@ == "team"@,
{
    TeamEntry {
        id: join2(prefix, "team"),
        name: join2(prefix, "team"),
        description: String::from_str("team"),
    }
}

/// The first workset of `team_entry` under `prefix`.
pub fn workset_entry(prefix: &str, team_entry: &TeamEntry) -> (e: WorksetEntry)
    ensures
        e.id@ == prefix@ + "workset"@,
        e.team_id@ == team_entry.id@,
        e.index == 0,
        e.name@ == "RDB Workset"@,
        e.description matches Some(d) && d@ == "workset"@,
{
    WorksetEntry {
        id: join2(prefix, "workset"),
        team_id: team_entry.id.clone(),
        index: 0,
        name: String::from_str("RDB Workset"),
        description: Some(String::from_str("workset")),
    }
}

/// The first comic of `workset_entry`, created by `creator_form`.
pub fn comic_entry(prefix: &str, workset_entry: &WorksetEntry, creator_form: &UserEntry) -> (e: ComicEntry)
    ensures
        e.id@ == prefix@ + "comic"@,
        e.workset_id@ == workset_entry.id@,
        e.index == 0,
        e.title@ == "RDB Comic"@,
        e.author@ == "RDB Author"@,
        e.description matches Some(d) && d@ == "comic"@,
        e.creator_id@ == creator_form.id@,
{
    ComicEntry {
        id: join2(prefix, "comic"),
        workset_id: workset_entry.id.clone(),
        index: 0,
        title: String::from_str("RDB Comic"),
        author: String::from_str("RDB Author"),
        description: Some(String::from_str("comic")),
        creator_id: creator_form.id.clone(),
    }
}

/// The first, pinned chapter of `comic_entry`, created by `creator_form`.
pub fn chapter_entry(prefix: &str, comic_entry: &ComicEntry, creator_form: &UserEntry) -> (e: ChapterEntry)
    ensures
        e.id@ == prefix@ + "chapter"@,
        e.comic_id@ == comic_entry.id@,
        e.is_pinned,
        e.index == 0,
        e.subtitle@ == "RDB Chapter"@,
        e.creator_id@ == creator_form.id@,
{
    ChapterEntry {
        id: join2(prefix, "chapter"),
        comic_id: comic_entry.id.clone(),
        is_pinned: true,
        index: 0,
        subtitle: String::from_str("RDB Chapter"),
        creator_id: creator_form.id.clone(),
    }
}

/// The first page of `chapter_entry`: a one-byte JPEG not yet uploaded.
pub fn page_entry(prefix: &str, chapter_entry: &ChapterEntry) -> (e: PageEntry)
    ensures
        e.id@ == prefix@ + "page"@,
        e.chapter_id@ == chapter_entry.id@,
        e.index == 0,
        e.image_key is None,
        e.image_version == 0,
        e.image_hash@ == Seq::<u8>::empty(),
        e.image_byte_len == 1,
        e.image_ext == ImageExt::Jpg,
{
    PageEntry {
        id: join2(prefix, "page"),
        chapter_id: chapter_entry.id.clone(),
        index: 0,
        image_key: None,
        image_version: 0,
        image_hash: Vec::new(),
        image_byte_len: 1,
        image_ext: ImageExt::Jpg,
    }
}

} // verus!

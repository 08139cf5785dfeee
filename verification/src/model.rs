//! Records written to and read from the repository.

use time::OffsetDateTime;
use vstd::prelude::*;

use crate::member::RoleMask;

verus! {

/// Image file formats accepted for pages and avatars.
#[derive(Clone, Copy, Debug, PartialEq, Eq, Structural)]
pub enum ImageExt {
    Jpg,
    Png,
    Webp,
}

/// A new user.
pub struct UserEntry {
    pub id: String,
    pub nickname: String,
    pub qid: String,
    pub password_hash: String,
}

/// A new team.
pub struct TeamEntry {
    pub id: String,
    pub name: String,
    pub description: String,
}

/// A new workset.
pub struct WorksetEntry {
    pub id: String,
    pub team_id: String,
    pub index: u32,
    pub name: String,
    pub description: Option<String>,
}

/// A new comic.
pub struct ComicEntry {
    pub id: String,
    pub workset_id: String,
    pub index: u32,
    pub title: String,
    pub author: String,
    pub description: Option<String>,
    pub creator_id: String,
}

/// A new chapter.
pub struct ChapterEntry {
    pub id: String,
    pub comic_id: String,
    pub is_pinned: bool,
    pub index: u32,
    pub subtitle: String,
    pub creator_id: String,
}

/// A new page.
pub struct PageEntry {
    pub id: String,
    pub chapter_id: String,
    pub index: u32,
    pub image_key: Option<String>,
    pub image_version: u32,
    pub image_hash: Vec<u8>,
    pub image_byte_len: u64,
    pub image_ext: ImageExt,
}

/// A stored user.
pub struct UserInfo {
    pub id: String,
    pub qid: String,
    pub nickname: String,
    pub avatar_key: Option<String>,
    pub avatar_uploaded: bool,
    pub avatar_version: u32,
    pub is_sadmin: bool,
    pub last_active_at: OffsetDateTime,
    pub created_at: OffsetDateTime,
    pub updated_at: OffsetDateTime,
}

/// The credential of a stored user.
pub struct UserCredential {
    pub user_id: String,
    pub password_hash: String,
}

/// A stored team.
pub struct TeamInfo {
    pub id: String,
    pub name: String,
    pub description: String,
}

/// A stored member.
pub struct MemberInfo {
    pub id: String,
    pub user_id: String,
    pub user_nickname: String,
    pub team_id: String,
    pub roles: RoleMask,
}

/// A stored member invitation.
pub struct MemberInvitationInfo {
    pub id: String,
    pub team_id: String,
    pub invitor_id: String,
    pub invitee_qid: String,
    pub code: String,
    pub roles: RoleMask,
    pub pending: bool,
}

/// A stored workset.
pub struct WorksetInfo {
    pub id: String,
    pub team_id: String,
    pub index: u32,
    pub name: String,
    pub description: Option<String>,
    pub comic_count: u32,
}

/// A stored comic.
pub struct ComicInfo {
    pub id: String,
    pub workset_id: String,
    pub index: u32,
    pub title: String,
    pub author: String,
    pub description: Option<String>,
    pub creator_id: String,
    pub chapter_count: u32,
}

/// A stored system mail.
pub struct SystemMailInfo {
    pub id: String,
    pub receiver_id: String,
    pub title: String,
    pub content: String,
    pub read: bool,
}

/// A side effect recorded for later delivery.
pub struct PromRecord {
    pub id: String,
    pub channel: String,
    pub visible_at: OffsetDateTime,
}

/// An event emitted by an operation.
pub struct Event {
    pub name: String,
}

/// A record that can be duplicated exactly.
pub trait Duplicate: Sized {
    /// An exact copy.
    fn duplicate(&self) -> (r: Self)
        ensures
            r == *self,
    ;
}

fn dup_opt(s: &Option<String>) -> (r: Option<String>)
    ensures
        r == *s,
{
    match s {
        Some(x) => Some(x.clone()),
        None => None,
    }
}

impl Duplicate for UserInfo {
    fn duplicate(&self) -> (r: Self) {
        UserInfo {
            id: self.id.clone(),
            qid: self.qid.clone(),
            nickname: self.nickname.clone(),
            avatar_key: dup_opt(&self.avatar_key),
            avatar_uploaded: self.avatar_uploaded,
            avatar_version: self.avatar_version,
            is_sadmin: self.is_sadmin,
            last_active_at: self.last_active_at,
            created_at: self.created_at,
            updated_at: self.updated_at,
        }
    }
}

impl Duplicate for UserCredential {
    fn duplicate(&self) -> (r: Self) {
        UserCredential { user_id: self.user_id.clone(), password_hash: self.password_hash.clone() }
    }
}

impl Duplicate for TeamInfo {
    fn duplicate(&self) -> (r: Self) {
        TeamInfo {
            id: self.id.clone(),
            name: self.name.clone(),
            description: self.description.clone(),
        }
    }
}

impl Duplicate for MemberInfo {
    fn duplicate(&self) -> (r: Self) {
        MemberInfo {
            id: self.id.clone(),
            user_id: self.user_id.clone(),
            user_nickname: self.user_nickname.clone(),
            team_id: self.team_id.clone(),
            roles: self.roles,
        }
    }
}

impl Duplicate for MemberInvitationInfo {
    fn duplicate(&self) -> (r: Self) {
        MemberInvitationInfo {
            id: self.id.clone(),
            team_id: self.team_id.clone(),
            invitor_id: self.invitor_id.clone(),
            invitee_qid: self.invitee_qid.clone(),
            code: self.code.clone(),
            roles: self.roles,
            pending: self.pending,
        }
    }
}

impl Duplicate for WorksetInfo {
    fn duplicate(&self) -> (r: Self) {
        WorksetInfo {
            id: self.id.clone(),
            team_id: self.team_id.clone(),
            index: self.index,
            name: self.name.clone(),
            description: dup_opt(&self.description),
            comic_count: self.comic_count,
        }
    }
}

impl Duplicate for ComicInfo {
    fn duplicate(&self) -> (r: Self) {
        ComicInfo {
            id: self.id.clone(),
            workset_id: self.workset_id.clone(),
            index: self.index,
            title: self.title.clone(),
            author: self.author.clone(),
            description: dup_opt(&self.description),
            creator_id: self.creator_id.clone(),
            chapter_count: self.chapter_count,
        }
    }
}

impl Duplicate for SystemMailInfo {
    fn duplicate(&self) -> (r: Self) {
        SystemMailInfo {
            id: self.id.clone(),
            receiver_id: self.receiver_id.clone(),
            title: self.title.clone(),
            content: self.content.clone(),
            read: self.read,
        }
    }
}

impl Duplicate for PromRecord {
    fn duplicate(&self) -> (r: Self) {
        PromRecord { id: self.id.clone(), channel: self.channel.clone(), visible_at: self.visible_at }
    }
}

/// An exact copy of a list of records.
pub fn duplicate_all<T: Duplicate>(v: &Vec<T>) -> (r: Vec<T>)
    ensures
        r@ == v@,
{
    let mut r: Vec<T> = Vec::new();
    let mut i: usize = 0;
    while i < v.len()
        invariant
            i <= v.len(),
            r@ == v@.take(i as int),
        decreases v.len() - i,
    {
        r.push(v[i].duplicate());
        assert(r@ =~= v@.take(i + 1));
        i += 1;
    }
    assert(v@.take(v.len() as int) =~= v@);
    r
}

} // verus!

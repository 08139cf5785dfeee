//! Member role masks and the member rows written for them.

use time::OffsetDateTime;
use vstd::prelude::*;

verus! {

/// One team role.
#[derive(Clone, Copy, Debug, PartialEq, Eq, Structural)]
pub enum RoleField {
    RawProvider,
    Translator,
    Proofreader,
    Typesetter,
    Redrawer,
    Reviewer,
    Publisher,
    Admin,
    Bot,
}

/// The bit of a role inside a role mask.
pub open spec fn role_bit(field: RoleField) -> u32 {
    match field {
        RoleField::RawProvider => 1u32,
        RoleField::Translator => 2u32,
        RoleField::Proofreader => 4u32,
        RoleField::Typesetter => 8u32,
        RoleField::Redrawer => 16u32,
        RoleField::Reviewer => 32u32,
        RoleField::Publisher => 64u32,
        RoleField::Admin => 128u32,
        RoleField::Bot => 256u32,
    }
}

impl RoleField {
    /// The bit of this role inside a role mask.
    pub fn bit(self) -> (b: u32)
        ensures
            b == role_bit(self),
    {
        match self {
            RoleField::RawProvider => 1,
            RoleField::Translator => 2,
            RoleField::Proofreader => 4,
            RoleField::Typesetter => 8,
            RoleField::Redrawer => 16,
            RoleField::Reviewer => 32,
            RoleField::Publisher => 64,
            RoleField::Admin => 128,
            RoleField::Bot => 256,
        }
    }
}

/// A set of team roles, one bit per role.
#[derive(Clone, Copy, Debug, PartialEq, Eq, Structural)]
pub struct RoleMask {
    pub bits: u32,
}

/// `mask` grants `field`.
pub open spec fn mask_has(mask: RoleMask, field: RoleField) -> bool {
    mask.bits & role_bit(field) != 0
}

impl RoleMask {
    /// The mask that grants exactly one role.
    pub fn from_field(field: RoleField) -> (m: RoleMask)
        ensures
            m.bits == role_bit(field),
    {
        RoleMask { bits: field.bit() }
    }

    /// The roles of either mask.
    pub fn union(self, other: RoleMask) -> (m: RoleMask)
        ensures
            m.bits == self.bits | other.bits,
    {
        RoleMask { bits: self.bits | other.bits }
    }

    /// Whether the mask grants any of `fields`.
    pub fn has_any_role(&self, fields: &[RoleField]) -> (r: bool)
        ensures
            r == exists|i: int| 0 <= i < fields@.len() && mask_has(*self, #[trigger] fields@[i]),
    {
        let n = fields.len();
        let mut i: usize = 0;
        while i < n
            invariant
                n == fields@.len(),
                i <= n,
                forall|k: int| 0 <= k < i ==> !mask_has(*self, #[trigger] fields@[k]),
            decreases n - i,
        {
            if self.bits & fields[i].bit() != 0 {
                assert(mask_has(*self, fields@[i as int]));
                return true;
            }
            i += 1;
        }
        false
    }
}

/// The role a member listing filters on: a mask that grants exactly one
/// role names it, and any other mask filters nothing.
pub fn role_filter(mask: RoleMask) -> (r: Option<RoleField>)
    ensures
        r matches Some(f) ==> mask.bits == role_bit(f),
        r is None ==> forall|f: RoleField| mask.bits != #[trigger] role_bit(f),
{
    match mask.bits {
        1 => Some(RoleField::RawProvider),
        2 => Some(RoleField::Translator),
        4 => Some(RoleField::Proofreader),
        8 => Some(RoleField::Typesetter),
        16 => Some(RoleField::Redrawer),
        32 => Some(RoleField::Reviewer),
        64 => Some(RoleField::Publisher),
        128 => Some(RoleField::Admin),
        256 => Some(RoleField::Bot),
        _ => None,
    }
}

/// Per-role assignment timestamps captured from a role mask; `None` means
/// the role is not enabled.
pub struct RoleTimestamps {
    pub raw_provider: Option<OffsetDateTime>,
    pub translator: Option<OffsetDateTime>,
    pub proofreader: Option<OffsetDateTime>,
    pub typesetter: Option<OffsetDateTime>,
    pub redrawer: Option<OffsetDateTime>,
    pub reviewer: Option<OffsetDateTime>,
    pub publisher: Option<OffsetDateTime>,
    pub admin: Option<OffsetDateTime>,
    pub bot: Option<OffsetDateTime>,
}

/// `now` when `mask` grants `field`, otherwise `None`.
pub open spec fn stamp(mask: RoleMask, field: RoleField, now: OffsetDateTime) -> Option<
    OffsetDateTime,
> {
    if mask_has(mask, field) {
        Some(now)
    } else {
        None
    }
}

/// The timestamps of `roles`: every enabled role is stamped with `now`, and
/// every other role holds none.
pub open spec fn timestamps_of(roles: RoleMask, now: OffsetDateTime) -> RoleTimestamps {
    RoleTimestamps {
        raw_provider: stamp(roles, RoleField::RawProvider, now),
        translator: stamp(roles, RoleField::Translator, now),
        proofreader: stamp(roles, RoleField::Proofreader, now),
        typesetter: stamp(roles, RoleField::Typesetter, now),
        redrawer: stamp(roles, RoleField::Redrawer, now),
        reviewer: stamp(roles, RoleField::Reviewer, now),
        publisher: stamp(roles, RoleField::Publisher, now),
        admin: stamp(roles, RoleField::Admin, now),
        bot: stamp(roles, RoleField::Bot, now),
    }
}

fn stamp_role(roles: RoleMask, field: RoleField, now: OffsetDateTime) -> (r: Option<OffsetDateTime>)
    ensures
        r == stamp(roles, field, now),
{
    let fields = [field];
    if roles.has_any_role(&fields) {
        assert(fields@[0] == field);
        Some(now)
    } else {
        assert(fields@[0] == field);
        None
    }
}

/// Converts a role mask into assignment timestamps by stamping enabled
/// roles with `now`.
pub fn role_timestamps_from_mask(roles: RoleMask, now: OffsetDateTime) -> (t: RoleTimestamps)
    ensures
        t == timestamps_of(roles, now),
{
    RoleTimestamps {
        raw_provider: stamp_role(roles, RoleField::RawProvider, now),
        translator: stamp_role(roles, RoleField::Translator, now),
        proofreader: stamp_role(roles, RoleField::Proofreader, now),
        typesetter: stamp_role(roles, RoleField::Typesetter, now),
        redrawer: stamp_role(roles, RoleField::Redrawer, now),
        reviewer: stamp_role(roles, RoleField::Reviewer, now),
        publisher: stamp_role(roles, RoleField::Publisher, now),
        admin: stamp_role(roles, RoleField::Admin, now),
        bot: stamp_role(roles, RoleField::Bot, now),
    }
}

/// A new member.
pub struct MemberEntry {
    pub id: String,
    pub user_id: String,
    pub user_nickname: String,
    pub team_id: String,
    pub roles: RoleMask,
}

/// A replacement of one member's roles.
pub struct MemberRoleRepl {
    pub id: String,
    pub roles: RoleMask,
}

/// The member row inserted for a new member.
pub struct MemberRowEntry<'a> {
    pub f_id: &'a String,
    pub f_user_id: &'a String,
    pub f_user_nickname: &'a String,
    pub f_team_id: &'a String,
    pub f_assigned_raw_provider_at: Option<OffsetDateTime>,
    pub f_assigned_translator_at: Option<OffsetDateTime>,
    pub f_assigned_proofreader_at: Option<OffsetDateTime>,
    pub f_assigned_typesetter_at: Option<OffsetDateTime>,
    pub f_assigned_redrawer_at: Option<OffsetDateTime>,
    pub f_assigned_reviewer_at: Option<OffsetDateTime>,
    pub f_assigned_publisher_at: Option<OffsetDateTime>,
    pub f_assigned_admin_at: Option<OffsetDateTime>,
    pub f_assigned_bot_at: Option<OffsetDateTime>,
    pub f_user_last_active_at: OffsetDateTime,
    pub f_created_at: OffsetDateTime,
    pub f_updated_at: OffsetDateTime,
}

/// `row` is the insert row of `entry` with every enabled role and every
/// lifecycle timestamp stamped with `now`.
pub open spec fn is_row_of_entry(row: MemberRowEntry, entry: &MemberEntry, now: OffsetDateTime) -> bool {
    &&& row.f_id == &entry.id
    &&& row.f_user_id == &entry.user_id
    &&& row.f_user_nickname == &entry.user_nickname
    &&& row.f_team_id == &entry.team_id
    &&& row.f_assigned_raw_provider_at == timestamps_of(entry.roles, now).raw_provider
    &&& row.f_assigned_translator_at == timestamps_of(entry.roles, now).translator
    &&& row.f_assigned_proofreader_at == timestamps_of(entry.roles, now).proofreader
    &&& row.f_assigned_typesetter_at == timestamps_of(entry.roles, now).typesetter
    &&& row.f_assigned_redrawer_at == timestamps_of(entry.roles, now).redrawer
    &&& row.f_assigned_reviewer_at == timestamps_of(entry.roles, now).reviewer
    &&& row.f_assigned_publisher_at == timestamps_of(entry.roles, now).publisher
    &&& row.f_assigned_admin_at == timestamps_of(entry.roles, now).admin
    &&& row.f_assigned_bot_at == timestamps_of(entry.roles, now).bot
    &&& row.f_user_last_active_at == now
    &&& row.f_created_at == now
    &&& row.f_updated_at == now
}

/// Converts a member entry into its insert row, stamping every enabled role
/// and every lifecycle timestamp with `now`.
pub fn entity_from_entry<'a>(entry: &'a MemberEntry, now: OffsetDateTime) -> (row: MemberRowEntry<'a>)
    ensures
        is_row_of_entry(row, entry, now),
{
    let timestamps = role_timestamps_from_mask(entry.roles, now);
    MemberRowEntry {
        f_id: &entry.id,
        f_user_id: &entry.user_id,
        f_user_nickname: &entry.user_nickname,
        f_team_id: &entry.team_id,
        f_assigned_raw_provider_at: timestamps.raw_provider,
        f_assigned_translator_at: timestamps.translator,
        f_assigned_proofreader_at: timestamps.proofreader,
        f_assigned_typesetter_at: timestamps.typesetter,
        f_assigned_redrawer_at: timestamps.redrawer,
        f_assigned_reviewer_at: timestamps.reviewer,
        f_assigned_publisher_at: timestamps.publisher,
        f_assigned_admin_at: timestamps.admin,
        f_assigned_bot_at: timestamps.bot,
        f_user_last_active_at: now,
        f_created_at: now,
        f_updated_at: now,
    }
}

/// The insert row of a new member, stamped with the current time.
pub fn new_member_row<'a>(entry: &'a MemberEntry) -> (row: MemberRowEntry<'a>)
    ensures
        exists|now: OffsetDateTime| is_row_of_entry(row, entry, now),
{
    let now = crate::clock::now();
    entity_from_entry(entry, now)
}

/// A partial member update; `None` fields are left unchanged.
pub struct MemberAspect<'a> {
    pub f_user_nickname: Option<&'a str>,
    pub f_assigned_raw_provider_at: Option<Option<OffsetDateTime>>,
    pub f_assigned_translator_at: Option<Option<OffsetDateTime>>,
    pub f_assigned_proofreader_at: Option<Option<OffsetDateTime>>,
    pub f_assigned_typesetter_at: Option<Option<OffsetDateTime>>,
    pub f_assigned_redrawer_at: Option<Option<OffsetDateTime>>,
    pub f_assigned_reviewer_at: Option<Option<OffsetDateTime>>,
    pub f_assigned_publisher_at: Option<Option<OffsetDateTime>>,
    pub f_assigned_admin_at: Option<Option<OffsetDateTime>>,
    pub f_assigned_bot_at: Option<Option<OffsetDateTime>>,
    pub f_updated_at: OffsetDateTime,
}

/// Builds the role update of a member: every role column is replaced by the
/// stamp of the new mask, and the update time is `now`.
pub fn aspect_from_role_update(update: &MemberRoleRepl, now: OffsetDateTime) -> (a: MemberAspect<'static>)
    ensures
        a.f_user_nickname is None,
        a.f_assigned_raw_provider_at == Some(timestamps_of(update.roles, now).raw_provider),
        a.f_assigned_translator_at == Some(timestamps_of(update.roles, now).translator),
        a.f_assigned_proofreader_at == Some(timestamps_of(update.roles, now).proofreader),
        a.f_assigned_typesetter_at == Some(timestamps_of(update.roles, now).typesetter),
        a.f_assigned_redrawer_at == Some(timestamps_of(update.roles, now).redrawer),
        a.f_assigned_reviewer_at == Some(timestamps_of(update.roles, now).reviewer),
        a.f_assigned_publisher_at == Some(timestamps_of(update.roles, now).publisher),
        a.f_assigned_admin_at == Some(timestamps_of(update.roles, now).admin),
        a.f_assigned_bot_at == Some(timestamps_of(update.roles, now).bot),
        a.f_updated_at == now,
{
    let timestamps = role_timestamps_from_mask(update.roles, now);
    MemberAspect {
        f_user_nickname: None,
        f_assigned_raw_provider_at: Some(timestamps.raw_provider),
        f_assigned_translator_at: Some(timestamps.translator),
        f_assigned_proofreader_at: Some(timestamps.proofreader),
        f_assigned_typesetter_at: Some(timestamps.typesetter),
        f_assigned_redrawer_at: Some(timestamps.redrawer),
        f_assigned_reviewer_at: Some(timestamps.reviewer),
        f_assigned_publisher_at: Some(timestamps.publisher),
        f_assigned_admin_at: Some(timestamps.admin),
        f_assigned_bot_at: Some(timestamps.bot),
        f_updated_at: now,
    }
}

/// Builds the nickname update of a member's rows.
pub fn aspect_from_nickname<'a>(nickname: &'a str, now: OffsetDateTime) -> (a: MemberAspect<'a>)
    ensures
        a.f_user_nickname == Some(nickname),
        a.f_assigned_raw_provider_at is None,
        a.f_assigned_translator_at is None,
        a.f_assigned_proofreader_at is None,
        a.f_assigned_typesetter_at is None,
        a.f_assigned_redrawer_at is None,
        a.f_assigned_reviewer_at is None,
        a.f_assigned_publisher_at is None,
        a.f_assigned_admin_at is None,
        a.f_assigned_bot_at is None,
        a.f_updated_at == now,
{
    MemberAspect {
        f_user_nickname: Some(nickname),
        f_assigned_raw_provider_at: None,
        f_assigned_translator_at: None,
        f_assigned_proofreader_at: None,
        f_assigned_typesetter_at: None,
        f_assigned_redrawer_at: None,
        f_assigned_reviewer_at: None,
        f_assigned_publisher_at: None,
        f_assigned_admin_at: None,
        f_assigned_bot_at: None,
        f_updated_at: now,
    }
}

/// A mask made from one role grants exactly that role, and the union of
/// two masks grants exactly the roles of either.
pub proof fn lemma_mask_roles(a: RoleMask, b: RoleMask, f: RoleField, g: RoleField)
    ensures
        mask_has(RoleMask { bits: role_bit(f) }, g) <==> f == g,
        mask_has(RoleMask { bits: a.bits | b.bits }, f) <==> mask_has(a, f) || mask_has(b, f),
{
    let x = role_bit(f);
    let y = role_bit(g);
    let ab = a.bits;
    let bb = b.bits;
    assert(ab & x != 0 || bb & x != 0 <==> (ab | bb) & x != 0) by (bit_vector)
        requires
            x == 1 || x == 2 || x == 4 || x == 8 || x == 16 || x == 32 || x == 64 || x == 128 || x
                == 256,
    ;
    assert((x & y != 0) <==> x == y) by (bit_vector)
        requires
            x == 1 || x == 2 || x == 4 || x == 8 || x == 16 || x == 32 || x == 64 || x == 128 || x
                == 256,
            y == 1 || y == 2 || y == 4 || y == 8 || y == 16 || y == 32 || y == 64 || y == 128 || y
                == 256,
    ;
}

} // verus!

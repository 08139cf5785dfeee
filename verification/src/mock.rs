//! In-memory repository used to exercise operations without a database.
//!
//! A transaction works on a copy of the state: the copy is committed when
//! the transaction succeeds and discarded when it fails.

use vstd::prelude::*;

use crate::model::{
    ComicInfo, Event, MemberInfo, MemberInvitationInfo, PromRecord, SystemMailInfo, TeamInfo,
    UserCredential, UserInfo, WorksetInfo, duplicate_all,
};

verus! {

/// In-memory state holding all mock repository records.
pub struct MockState {
    pub users: Vec<UserInfo>,
    pub credentials: Vec<UserCredential>,
    pub teams: Vec<TeamInfo>,
    pub members: Vec<MemberInfo>,
    pub member_invitations: Vec<MemberInvitationInfo>,
    pub worksets: Vec<WorksetInfo>,
    pub comics: Vec<ComicInfo>,
    pub system_mails: Vec<SystemMailInfo>,
    pub prom_records: Vec<PromRecord>,
}

/// A point-in-time copy of [`MockState`] for assertions after a transaction.
pub struct MockSnapshot {
    pub users: Vec<UserInfo>,
    pub credentials: Vec<UserCredential>,
    pub teams: Vec<TeamInfo>,
    pub members: Vec<MemberInfo>,
    pub member_invitations: Vec<MemberInvitationInfo>,
    pub worksets: Vec<WorksetInfo>,
    pub comics: Vec<ComicInfo>,
    pub system_mails: Vec<SystemMailInfo>,
    pub prom_records: Vec<PromRecord>,
}

/// The contents of a state, record list by record list.
pub open spec fn state_records(s: MockState) -> (
    Seq<UserInfo>,
    Seq<UserCredential>,
    Seq<TeamInfo>,
    Seq<MemberInfo>,
    Seq<MemberInvitationInfo>,
    Seq<WorksetInfo>,
    Seq<ComicInfo>,
    Seq<SystemMailInfo>,
    Seq<PromRecord>,
) {
    (
        s.users@,
        s.credentials@,
        s.teams@,
        s.members@,
        s.member_invitations@,
        s.worksets@,
        s.comics@,
        s.system_mails@,
        s.prom_records@,
    )
}

/// The contents of a snapshot, record list by record list.
pub open spec fn snapshot_records(s: MockSnapshot) -> (
    Seq<UserInfo>,
    Seq<UserCredential>,
    Seq<TeamInfo>,
    Seq<MemberInfo>,
    Seq<MemberInvitationInfo>,
    Seq<WorksetInfo>,
    Seq<ComicInfo>,
    Seq<SystemMailInfo>,
    Seq<PromRecord>,
) {
    (
        s.users@,
        s.credentials@,
        s.teams@,
        s.members@,
        s.member_invitations@,
        s.worksets@,
        s.comics@,
        s.system_mails@,
        s.prom_records@,
    )
}

/// The state holds no record.
pub open spec fn state_is_empty(s: MockState) -> bool {
    &&& s.users@.len() == 0
    &&& s.credentials@.len() == 0
    &&& s.teams@.len() == 0
    &&& s.members@.len() == 0
    &&& s.member_invitations@.len() == 0
    &&& s.worksets@.len() == 0
    &&& s.comics@.len() == 0
    &&& s.system_mails@.len() == 0
    &&& s.prom_records@.len() == 0
}

impl MockState {
    /// A state holding no record.
    pub fn empty() -> (s: MockState)
        ensures
            state_is_empty(s),
    {
        MockState {
            users: Vec::new(),
            credentials: Vec::new(),
            teams: Vec::new(),
            members: Vec::new(),
            member_invitations: Vec::new(),
            worksets: Vec::new(),
            comics: Vec::new(),
            system_mails: Vec::new(),
            prom_records: Vec::new(),
        }
    }

    /// An exact copy of the state.
    pub fn duplicate(&self) -> (s: MockState)
        ensures
            state_records(s) == state_records(*self),
    {
        MockState {
            users: duplicate_all(&self.users),
            credentials: duplicate_all(&self.credentials),
            teams: duplicate_all(&self.teams),
            members: duplicate_all(&self.members),
            member_invitations: duplicate_all(&self.member_invitations),
            worksets: duplicate_all(&self.worksets),
            comics: duplicate_all(&self.comics),
            system_mails: duplicate_all(&self.system_mails),
            prom_records: duplicate_all(&self.prom_records),
        }
    }
}

impl MockSnapshot {
    /// Takes the records of a state as a snapshot.
    pub fn from(state: MockState) -> (s: MockSnapshot)
        ensures
            snapshot_records(s) == state_records(state),
    {
        MockSnapshot {
            users: state.users,
            credentials: state.credentials,
            teams: state.teams,
            members: state.members,
            member_invitations: state.member_invitations,
            worksets: state.worksets,
            comics: state.comics,
            system_mails: state.system_mails,
            prom_records: state.prom_records,
        }
    }
}

/// The transactional context handed to an operation: a working copy of the
/// state.
pub struct MockContext {
    pub state: MockState,
}

/// Flag toggles that inject controlled failure modes into mock operations.
pub struct MockFlags {
    pub token_failure: bool,
    pub image_get_failure: bool,
    pub image_put_failure: bool,
}

/// The mock driver: state, failure flags and emitted events.
pub struct Mock {
    pub state: MockState,
    pub flags: MockFlags,
    pub events: Vec<Event>,
}

/// A marker for a live transaction handle of the mock driver.
pub struct MockTransactional;

/// The failure of a transaction driven by the mock.
pub enum DriveError<E> {
    /// The operation inside the transaction failed with this error.
    Advance(E),
}

/// The state after settling a transaction that started from `state` and
/// ended with the working copy `context`: the copy when the transaction
/// succeeded, the unchanged state when it failed.
pub open spec fn settled(state: MockState, context: MockContext, succeeded: bool) -> (
    Seq<UserInfo>,
    Seq<UserCredential>,
    Seq<TeamInfo>,
    Seq<MemberInfo>,
    Seq<MemberInvitationInfo>,
    Seq<WorksetInfo>,
    Seq<ComicInfo>,
    Seq<SystemMailInfo>,
    Seq<PromRecord>,
) {
    if succeeded {
        state_records(context.state)
    } else {
        state_records(state)
    }
}

/// A failed transaction leaves every record as it was before the
/// transaction started, whatever the operation did to its working copy.
pub proof fn lemma_failed_transaction_rolls_back(state: MockState, context: MockContext)
    ensures
        settled(state, context, false) == state_records(state),
{
}

/// A successful transaction commits exactly the records of its working copy,
/// repository records and side-effect records together.
pub proof fn lemma_successful_transaction_commits(state: MockState, context: MockContext)
    ensures
        settled(state, context, true) == state_records(context.state),
        settled(state, context, true).8 == context.state.prom_records@,
        settled(state, context, true).3 == context.state.members@,
{
}

impl Mock {
    /// Creates a new mock with empty state, no failure flags and no events.
    pub fn new() -> (m: Mock)
        ensures
            state_is_empty(m.state),
            !m.flags.token_failure,
            !m.flags.image_get_failure,
            !m.flags.image_put_failure,
            m.events@.len() == 0,
    {
        let state = MockState::empty();
        Mock {
            state,
            flags: MockFlags { token_failure: false, image_get_failure: false, image_put_failure: false },
            events: Vec::new(),
        }
    }

    /// Seeds a user and its credential directly into the state.
    pub fn seed_user(&mut self, user: UserInfo, credential: UserCredential)
        ensures
            final(self).state.users@ == old(self).state.users@.push(user),
            final(self).state.credentials@ == old(self).state.credentials@.push(credential),
            state_records(final(self).state).2 == state_records(old(self).state).2,
            state_records(final(self).state).3 == state_records(old(self).state).3,
            state_records(final(self).state).4 == state_records(old(self).state).4,
            state_records(final(self).state).5 == state_records(old(self).state).5,
            state_records(final(self).state).6 == state_records(old(self).state).6,
            state_records(final(self).state).7 == state_records(old(self).state).7,
            state_records(final(self).state).8 == state_records(old(self).state).8,
            final(self).flags == old(self).flags,
            final(self).events@ == old(self).events@,
    {
        self.state.users.push(user);
        self.state.credentials.push(credential);
    }

    /// Seeds a team directly into the state.
    pub fn seed_team(&mut self, team: TeamInfo)
        ensures
            state_records(final(self).state) == (
                old(self).state.users@,
                old(self).state.credentials@,
                old(self).state.teams@.push(team),
                old(self).state.members@,
                old(self).state.member_invitations@,
                old(self).state.worksets@,
                old(self).state.comics@,
                old(self).state.system_mails@,
                old(self).state.prom_records@,
            ),
            final(self).flags == old(self).flags,
            final(self).events@ == old(self).events@,
    {
        self.state.teams.push(team);
    }

    /// Seeds a member directly into the state.
    pub fn seed_member(&mut self, member: MemberInfo)
        ensures
            state_records(final(self).state) == (
                old(self).state.users@,
                old(self).state.credentials@,
                old(self).state.teams@,
                old(self).state.members@.push(member),
                old(self).state.member_invitations@,
                old(self).state.worksets@,
                old(self).state.comics@,
                old(self).state.system_mails@,
                old(self).state.prom_records@,
            ),
            final(self).flags == old(self).flags,
            final(self).events@ == old(self).events@,
    {
        self.state.members.push(member);
    }

    /// Seeds a member invitation directly into the state.
    pub fn seed_member_invitation(&mut self, member_invitation: MemberInvitationInfo)
        ensures
            state_records(final(self).state) == (
                old(self).state.users@,
                old(self).state.credentials@,
                old(self).state.teams@,
                old(self).state.members@,
                old(self).state.member_invitations@.push(member_invitation),
                old(self).state.worksets@,
                old(self).state.comics@,
                old(self).state.system_mails@,
                old(self).state.prom_records@,
            ),
            final(self).flags == old(self).flags,
            final(self).events@ == old(self).events@,
    {
        self.state.member_invitations.push(member_invitation);
    }

    /// Seeds a workset directly into the state.
    pub fn seed_workset(&mut self, workset: WorksetInfo)
        ensures
            state_records(final(self).state) == (
                old(self).state.users@,
                old(self).state.credentials@,
                old(self).state.teams@,
                old(self).state.members@,
                old(self).state.member_invitations@,
                old(self).state.worksets@.push(workset),
                old(self).state.comics@,
                old(self).state.system_mails@,
                old(self).state.prom_records@,
            ),
            final(self).flags == old(self).flags,
            final(self).events@ == old(self).events@,
    {
        self.state.worksets.push(workset);
    }

    /// Seeds a comic directly into the state.
    pub fn seed_comic(&mut self, comic: ComicInfo)
        ensures
            state_records(final(self).state) == (
                old(self).state.users@,
                old(self).state.credentials@,
                old(self).state.teams@,
                old(self).state.members@,
                old(self).state.member_invitations@,
                old(self).state.worksets@,
                old(self).state.comics@.push(comic),
                old(self).state.system_mails@,
                old(self).state.prom_records@,
            ),
            final(self).flags == old(self).flags,
            final(self).events@ == old(self).events@,
    {
        self.state.comics.push(comic);
    }

    /// Seeds a system mail directly into the state.
    pub fn seed_system_mail(&mut self, system_mail: SystemMailInfo)
        ensures
            state_records(final(self).state) == (
                old(self).state.users@,
                old(self).state.credentials@,
                old(self).state.teams@,
                old(self).state.members@,
                old(self).state.member_invitations@,
                old(self).state.worksets@,
                old(self).state.comics@,
                old(self).state.system_mails@.push(system_mail),
                old(self).state.prom_records@,
            ),
            final(self).flags == old(self).flags,
            final(self).events@ == old(self).events@,
    {
        self.state.system_mails.push(system_mail);
    }

    /// Returns a point-in-time copy of the current state.
    pub fn snapshot(&self) -> (s: MockSnapshot)
        ensures
            snapshot_records(s) == state_records(self.state),
    {
        MockSnapshot::from(self.state.duplicate())
    }

    /// Enables token authentication failures for subsequent operations.
    pub fn with_token_failure(self) -> (m: Mock)
        ensures
            m.flags.token_failure,
            m.flags.image_get_failure == self.flags.image_get_failure,
            m.flags.image_put_failure == self.flags.image_put_failure,
            state_records(m.state) == state_records(self.state),
            m.events@ == self.events@,
    {
        let mut m = self;
        m.flags.token_failure = true;
        m
    }

    /// Enables image retrieval failures for subsequent operations.
    pub fn with_image_get_failure(self) -> (m: Mock)
        ensures
            m.flags.image_get_failure,
            m.flags.token_failure == self.flags.token_failure,
            m.flags.image_put_failure == self.flags.image_put_failure,
            state_records(m.state) == state_records(self.state),
            m.events@ == self.events@,
    {
        let mut m = self;
        m.flags.image_get_failure = true;
        m
    }

    /// Enables image storage failures for subsequent operations.
    pub fn with_image_put_failure(self) -> (m: Mock)
        ensures
            m.flags.image_put_failure,
            m.flags.token_failure == self.flags.token_failure,
            m.flags.image_get_failure == self.flags.image_get_failure,
            state_records(m.state) == state_records(self.state),
            m.events@ == self.events@,
    {
        let mut m = self;
        m.flags.image_put_failure = true;
        m
    }

    /// Returns the number of events emitted so far.
    pub fn event_count(&self) -> (n: usize)
        ensures
            n == self.events@.len(),
    {
        self.events.len()
    }

    /// Drains and returns all accumulated events, clearing the buffer.
    pub fn drain_events(&mut self) -> (events: Vec<Event>)
        ensures
            events@ == old(self).events@,
            final(self).events@.len() == 0,
            state_records(final(self).state) == state_records(old(self).state),
            final(self).flags == old(self).flags,
    {
        let mut events: Vec<Event> = Vec::new();
        core::mem::swap(&mut events, &mut self.events);
        events
    }

    /// Opens a transaction handle.
    pub fn transactional(&self) -> MockTransactional {
        MockTransactional
    }

    /// Starts a transaction: the context holds a working copy of the state.
    pub fn open_context(&self) -> (context: MockContext)
        ensures
            state_records(context.state) == state_records(self.state),
    {
        MockContext { state: self.state.duplicate() }
    }

    /// Ends a transaction: commits the working copy when the operation
    /// succeeded, discards it when the operation failed.
    pub fn settle_context<T, E>(&mut self, context: MockContext, result: Result<T, E>) -> (r: Result<T, DriveError<E>>)
        ensures
            state_records(final(self).state) == settled(old(self).state, context, result is Ok),
            match result {
                Ok(v) => r == Ok::<T, DriveError<E>>(v),
                Err(e) => r == Err::<T, DriveError<E>>(DriveError::Advance(e)),
            },
            final(self).flags == old(self).flags,
            final(self).events@ == old(self).events@,
    {
        match result {
            Ok(value) => {
                self.state = context.state;
                Ok(value)
            },
            Err(err) => Err(DriveError::Advance(err)),
        }
    }
}

} // verus!

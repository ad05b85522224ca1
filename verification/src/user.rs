//! Users of the application, their onboarding status and ownership checks.

use vstd::prelude::*;
use crate::error::Error;
use crate::store::{MemStore, copy_opt_string};
use crate::text::decimal_text;

verus! {

/// The id of a user.
#[derive(Clone, Copy, Debug, PartialEq, Eq, Structural, Hash)]
pub struct UserId(pub i32);

impl From<i32> for UserId {
    fn from(id: i32) -> (r: UserId) {
        UserId(id)
    }
}

impl vstd::std_specs::convert::FromSpecImpl<i32> for UserId {
    open spec fn obeys_from_spec() -> bool {
        true
    }

    open spec fn from_spec(id: i32) -> UserId {
        UserId(id)
    }
}

impl From<UserId> for i32 {
    fn from(id: UserId) -> (r: i32) {
        id.0
    }
}

impl vstd::std_specs::convert::FromSpecImpl<UserId> for i32 {
    open spec fn obeys_from_spec() -> bool {
        true
    }

    open spec fn from_spec(id: UserId) -> i32 {
        id.0
    }
}

impl Default for UserId {
    fn default() -> (r: UserId)
        ensures
            r.0 == 0,
    {
        UserId(0)
    }
}

/// Onboarding status enum for tracking user setup progress
#[derive(Clone, Copy, Debug, PartialEq, Eq, Structural)]
pub enum OnboardingStatus {
    /// User has not completed initial activity sync
    Pending,
    /// User chose to postpone initial activity sync
    InitialSyncPostponed,
    /// User has completed onboarding
    Completed,
}

impl Default for OnboardingStatus {
    fn default() -> (r: OnboardingStatus)
        ensures
            r == OnboardingStatus::Pending,
    {
        OnboardingStatus::Pending
    }
}

impl OnboardingStatus {
    /// The number that stands for the status in storage.
    pub open spec fn code(self) -> i32 {
        match self {
            OnboardingStatus::Pending => 0,
            OnboardingStatus::InitialSyncPostponed => 2,
            OnboardingStatus::Completed => 99,
        }
    }

    /// The status a stored number stands for, if any.
    pub open spec fn from_code(value: i32) -> Option<OnboardingStatus> {
        if value == 0 {
            Some(OnboardingStatus::Pending)
        } else if value == 2 {
            Some(OnboardingStatus::InitialSyncPostponed)
        } else if value == 99 {
            Some(OnboardingStatus::Completed)
        } else {
            None
        }
    }

    /// The status stored as `value`; `BadRequest` for any number but 0, 2 and 99.
    pub fn try_from(value: i32) -> (r: Result<OnboardingStatus, Error>)
        ensures
            match OnboardingStatus::from_code(value) {
                Some(s) => r == Ok::<OnboardingStatus, Error>(s),
                None => r matches Err(Error::BadRequest(m)) && m@ == "Invalid onboarding status: "@ + decimal_text(value as int),
            },
    {
        if value == 0 {
            Ok(OnboardingStatus::Pending)
        } else if value == 2 {
            Ok(OnboardingStatus::InitialSyncPostponed)
        } else if value == 99 {
            Ok(OnboardingStatus::Completed)
        } else {
            let mut msg = "Invalid onboarding status: ".to_owned();
            let num = crate::text::int_to_text(value as i64);
            crate::text::append_text(&mut msg, num.as_str());
            Err(Error::BadRequest(msg))
        }
    }

    /// Whether the user has completed the initial synchronisation.
    pub fn is_initial_sync_completed(&self) -> (r: bool)
        ensures
            r == (*self == OnboardingStatus::Completed),
    {
        match self {
            OnboardingStatus::Completed => true,
            _ => false,
        }
    }
}

impl From<OnboardingStatus> for i32 {
    fn from(status: OnboardingStatus) -> (r: i32) {
        match status {
            OnboardingStatus::Pending => 0,
            OnboardingStatus::InitialSyncPostponed => 2,
            OnboardingStatus::Completed => 99,
        }
    }
}

impl vstd::std_specs::convert::FromSpecImpl<OnboardingStatus> for i32 {
    open spec fn obeys_from_spec() -> bool {
        true
    }

    open spec fn from_spec(status: OnboardingStatus) -> i32 {
        status.code()
    }
}

/// A stored number read back gives the status it was stored from.
pub proof fn lemma_onboarding_code_roundtrip(s: OnboardingStatus)
    ensures
        OnboardingStatus::from_code(s.code()) == Some(s),
{
}

/// A status read from a number stores back as that number.
pub proof fn lemma_onboarding_decode_roundtrip(value: i32)
    ensures
        OnboardingStatus::from_code(value) matches Some(s) ==> s.code() == value,
{
}

/// A user of the application.
#[derive(Clone, Debug)]
pub struct User {
    pub id: UserId,
    pub name: String,
    pub firstname: String,
    pub avatar: Option<String>,
    pub is_admin: bool,
    pub onboarding_status: OnboardingStatus,
}

/// What others may see of a user.
#[derive(Clone, Debug)]
pub struct UserPublic {
    pub id: UserId,
    pub name: String,
    pub firstname: String,
    pub avatar: Option<String>,
}

impl From<User> for UserPublic {
    fn from(value: User) -> (r: UserPublic) {
        UserPublic { id: value.id, name: value.name, firstname: value.firstname, avatar: value.avatar }
    }
}

impl vstd::std_specs::convert::FromSpecImpl<User> for UserPublic {
    open spec fn obeys_from_spec() -> bool {
        true
    }

    open spec fn from_spec(value: User) -> UserPublic {
        UserPublic { id: value.id, name: value.name, firstname: value.firstname, avatar: value.avatar }
    }
}

/// A user with the number of their parts and activities.
#[derive(Debug)]
pub struct Stat {
    pub user: User,
    pub parts: i64,
    pub activities: i64,
}

impl UserId {
    /// `Ok` when `owner` is this user, `Forbidden` with `error` otherwise.
    pub fn check_owner(&self, owner: UserId, error: String) -> (r: Result<(), Error>)
        ensures
            r is Ok <==> *self == owner,
            r matches Err(e) ==> e == Error::Forbidden(error),
    {
        if *self == owner {
            Ok(())
        } else {
            Err(Error::Forbidden(error))
        }
    }
}

impl User {
    /// A copy of the user.
    pub fn duplicate(&self) -> (r: User)
        ensures
            r == *self,
    {
        User {
            id: self.id,
            name: self.name.clone(),
            firstname: self.firstname.clone(),
            avatar: copy_opt_string(&self.avatar),
            is_admin: self.is_admin,
            onboarding_status: self.onboarding_status,
        }
    }
}

/// What others may see of `u`.
pub open spec fn public_of(u: User) -> UserPublic {
    UserPublic { id: u.id, name: u.name, firstname: u.firstname, avatar: u.avatar }
}

/// Everything but the users (and the next user id) stays.
pub open spec fn users_frame(old: MemStore, new: MemStore) -> bool {
    &&& new.parts == old.parts
    &&& new.usages == old.usages
    &&& new.activities == old.activities
    &&& new.attachments == old.attachments
    &&& new.services == old.services
    &&& new.plans == old.plans
    &&& new.next_part_id == old.next_part_id
    &&& new.dir.shops == old.dir.shops
    &&& new.dir.subscriptions == old.dir.subscriptions
    &&& new.dir.next_shop_id == old.dir.next_shop_id
    &&& new.dir.next_subscription_id == old.dir.next_subscription_id
}

impl MemStore {
    /// Whether a user with id `id` is stored.
    pub open spec fn has_user(&self, id: UserId) -> bool {
        self.dir.users@.contains_key(id.0)
    }

    /// The stored user with id `id` (meaningful when `has_user(id)`).
    pub open spec fn user(&self, id: UserId) -> User {
        self.dir.users@[id.0]
    }

    /// The stored user with id `uid`; `NotFound` when there is none.
    pub fn user_get(&self, uid: UserId) -> (r: Result<User, Error>)
        ensures
            match r {
                Ok(u) => self.has_user(uid) && u == self.user(uid),
                Err(e) => !self.has_user(uid) && e is NotFound,
            },
    {
        match self.dir.users.get(&uid.0) {
            Some(u) => Ok(u.duplicate()),
            None => Err(Error::NotFound("User not found".to_owned())),
        }
    }

    /// Store a new user, no admin and not onboarded yet, under the next
    /// user id; `AnyFailure` when the ids are exhausted.
    pub fn user_create(&mut self, firstname: &str, lastname: &str, avatar: &Option<String>) -> (r: Result<User, Error>)
        requires
            old(self).wf(),
        ensures
            final(self).wf(),
            users_frame(*old(self), *final(self)),
            old(self).dir.next_user_id == i32::MAX ==> (r matches Err(e) && e is AnyFailure) && *final(self) == *old(self),
            old(self).dir.next_user_id < i32::MAX ==> (r matches Ok(u)
                && u.id == UserId(old(self).dir.next_user_id)
                && u.firstname@ == firstname@
                && u.name@ == lastname@
                && u.avatar == *avatar
                && !u.is_admin
                && u.onboarding_status == OnboardingStatus::Pending
                && final(self).dir.users@ == old(self).dir.users@.insert(u.id.0, u)
                && final(self).dir.next_user_id == old(self).dir.next_user_id + 1),
    {
        if self.dir.next_user_id == i32::MAX {
            return Err(Error::AnyFailure("user ids exhausted".to_owned()));
        }
        let id = UserId(self.dir.next_user_id);
        self.dir.next_user_id = self.dir.next_user_id + 1;
        let user = User {
            id,
            firstname: firstname.to_owned(),
            name: lastname.to_owned(),
            avatar: copy_opt_string(avatar),
            is_admin: false,
            onboarding_status: OnboardingStatus::Pending,
        };
        self.dir.users.insert(id.0, user.duplicate());
        Ok(user)
    }

    /// Give the stored user `uid` new names and avatar; `NotFound` when
    /// there is none.
    pub fn user_update(&mut self, uid: &UserId, firstname: &str, lastname: &str, avatar: &Option<String>)
        -> (r: Result<User, Error>)
        requires
            old(self).wf(),
        ensures
            final(self).wf(),
            users_frame(*old(self), *final(self)),
            final(self).dir.next_user_id == old(self).dir.next_user_id,
            !old(self).has_user(*uid) ==> (r matches Err(e) && e is NotFound) && *final(self) == *old(self),
            old(self).has_user(*uid) ==> (r matches Ok(u)
                && u == (User { firstname: u.firstname, name: u.name, avatar: *avatar, ..old(self).user(*uid) })
                && u.firstname@ == firstname@
                && u.name@ == lastname@
                && final(self).dir.users@ == old(self).dir.users@.insert(uid.0, u)),
    {
        let mut user = self.user_get(*uid)?;
        user.firstname = firstname.to_owned();
        user.name = lastname.to_owned();
        user.avatar = copy_opt_string(avatar);
        self.dir.users.insert(uid.0, user.duplicate());
        Ok(user)
    }

    /// Remove the stored user `uid`: 1 when there was one, 0 otherwise.
    pub fn user_delete(&mut self, uid: &UserId) -> (r: Result<usize, Error>)
        requires
            old(self).wf(),
        ensures
            final(self).wf(),
            users_frame(*old(self), *final(self)),
            final(self).dir.next_user_id == old(self).dir.next_user_id,
            final(self).dir.users@ == old(self).dir.users@.remove(uid.0),
            r == Ok::<usize, Error>(if old(self).has_user(*uid) { 1 } else { 0 }),
    {
        match self.dir.users.remove(&uid.0) {
            Some(_) => Ok(1),
            None => Ok(0),
        }
    }

    /// Give the stored user `uid` the onboarding status `status`;
    /// `NotFound` when there is none.
    pub fn update_onboarding_status(&mut self, uid: &UserId, status: OnboardingStatus) -> (r: Result<User, Error>)
        requires
            old(self).wf(),
        ensures
            final(self).wf(),
            users_frame(*old(self), *final(self)),
            final(self).dir.next_user_id == old(self).dir.next_user_id,
            !old(self).has_user(*uid) ==> (r matches Err(e) && e is NotFound) && *final(self) == *old(self),
            old(self).has_user(*uid) ==> (r matches Ok(u)
                && u == (User { onboarding_status: status, ..old(self).user(*uid) })
                && final(self).dir.users@ == old(self).dir.users@.insert(uid.0, u)),
    {
        let mut user = self.user_get(*uid)?;
        user.onboarding_status = status;
        self.dir.users.insert(uid.0, user.duplicate());
        Ok(user)
    }
}

impl UserId {
    /// The stored user; `NotFound` when there is none.
    pub fn read(self, store: &MemStore) -> (r: Result<User, Error>)
        ensures
            match r {
                Ok(u) => store.has_user(self) && u == store.user(self),
                Err(e) => !store.has_user(self) && e is NotFound,
            },
    {
        store.user_get(self)
    }

    /// What others may see of the stored user; `NotFound` when there is none.
    pub fn get_public(self, store: &MemStore) -> (r: Result<UserPublic, Error>)
        ensures
            match r {
                Ok(u) => store.has_user(self) && u == public_of(store.user(self)),
                Err(e) => !store.has_user(self) && e is NotFound,
            },
    {
        let u = store.user_get(self)?;
        Ok(UserPublic { id: u.id, name: u.name, firstname: u.firstname, avatar: u.avatar })
    }

    /// Create a user and give back their id; `AnyFailure` when the ids are
    /// exhausted.
    pub fn create(firstname: &str, lastname: &str, avatar: &Option<String>, store: &mut MemStore) -> (r: Result<UserId, Error>)
        requires
            old(store).wf(),
        ensures
            final(store).wf(),
            users_frame(*old(store), *final(store)),
            old(store).dir.next_user_id == i32::MAX ==> (r matches Err(e) && e is AnyFailure) && *final(store) == *old(store),
            old(store).dir.next_user_id < i32::MAX ==> (r == Ok::<UserId, Error>(UserId(old(store).dir.next_user_id))
                && final(store).has_user(UserId(old(store).dir.next_user_id))
                && final(store).user(UserId(old(store).dir.next_user_id)).firstname@ == firstname@
                && final(store).user(UserId(old(store).dir.next_user_id)).name@ == lastname@
                && final(store).user(UserId(old(store).dir.next_user_id)).avatar == *avatar
                && !final(store).user(UserId(old(store).dir.next_user_id)).is_admin
                && final(store).user(UserId(old(store).dir.next_user_id)).onboarding_status == OnboardingStatus::Pending
                && forall|k: i32| k != old(store).dir.next_user_id ==> #[trigger] final(store).dir.users@.contains_key(k)
                    == old(store).dir.users@.contains_key(k) && final(store).dir.users@[k] == old(store).dir.users@[k]
                && final(store).dir.next_user_id == old(store).dir.next_user_id + 1),
    {
        let u = store.user_create(firstname, lastname, avatar)?;
        Ok(u.id)
    }

    /// Give the user new names and avatar, and give back their id;
    /// `NotFound` when there is none.
    pub fn update(&self, firstname: &str, lastname: &str, avatar: &Option<String>, store: &mut MemStore) -> (r: Result<UserId, Error>)
        requires
            old(store).wf(),
        ensures
            final(store).wf(),
            users_frame(*old(store), *final(store)),
            final(store).dir.next_user_id == old(store).dir.next_user_id,
            !old(store).has_user(*self) ==> (r matches Err(e) && e is NotFound) && *final(store) == *old(store),
            old(store).has_user(*self) ==> r == Ok::<UserId, Error>(*self)
                && final(store).dir.users@ == old(store).dir.users@.insert(self.0, final(store).user(*self))
                && final(store).user(*self) == (User {
                    firstname: final(store).user(*self).firstname,
                    name: final(store).user(*self).name,
                    avatar: *avatar,
                    ..old(store).user(*self)
                })
                && final(store).user(*self).firstname@ == firstname@
                && final(store).user(*self).name@ == lastname@,
    {
        let u = store.user_update(self, firstname, lastname, avatar)?;
        Ok(u.id)
    }

    /// Whether the stored user has admin rights; `NotFound` when there is none.
    pub fn is_admin(&self, store: &MemStore) -> (r: Result<bool, Error>)
        ensures
            match r {
                Ok(b) => store.has_user(*self) && b == store.user(*self).is_admin,
                Err(e) => !store.has_user(*self) && e is NotFound,
            },
    {
        let u = self.read(store)?;
        Ok(u.is_admin)
    }
}

} // verus!

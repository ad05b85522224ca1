//! Who is asking: the user, the shop they act for, and whether they are an admin.

use vstd::prelude::*;
use crate::error::Error;
use crate::user::UserId;
use crate::shop::ShopId;

verus! {

/// A trait that represents a session.
pub trait Session {
    /// The user of the session.
    spec fn session_user(&self) -> UserId;

    /// The shop the session acts for, if any.
    spec fn session_shop(&self) -> Option<ShopId>;

    /// Whether the session has admin rights.
    spec fn session_admin(&self) -> bool;

    fn user_id(&self) -> (r: UserId)
        ensures
            r == self.session_user();

    fn shop(&self) -> (r: Option<ShopId>)
        ensures
            r == self.session_shop();

    fn set_shop(&mut self, shop: Option<ShopId>) -> (r: Result<(), Error>)
        ensures
            r is Ok ==> final(self).session_shop() == shop,
            final(self).session_user() == old(self).session_user(),
            final(self).session_admin() == old(self).session_admin();

    fn is_admin(&self) -> (r: bool)
        ensures
            r == self.session_admin();

    /// `Ok` when `owner` is the session's user, `Forbidden` with `error` otherwise.
    fn check_owner(&self, owner: UserId, error: String) -> (r: Result<(), Error>)
        ensures
            r is Ok <==> self.session_user() == owner,
            r matches Err(e) ==> e == Error::Forbidden(error),
    {
        let me = self.user_id();
        if me == owner {
            Ok(())
        } else {
            Err(Error::Forbidden(error))
        }
    }
}

} // verus!

//! Sessions and fixed values for exercising the library.

use vstd::prelude::*;
use crate::error::Error;
use crate::session::Session;
use crate::shop::ShopId;
use crate::timestamp::Timestamp;
use crate::user::UserId;

verus! {

/// The ids of the part types the examples use.
pub const CHAIN: i32 = 4i32;
pub const BIKE: i32 = 1i32;
pub const REAR_WHEEL: i32 = 5i32;
pub const CASSETTE: i32 = 9i32;
pub const SEATPOST: i32 = 10i32;
pub const SADDLE: i32 = 11i32;
pub const DERAILLEUR: i32 = 12i32;
pub const CRANK: i32 = 13i32;
pub const CHAINRING: i32 = 14i32;
pub const BRAKE_ROTOR: i32 = 15i32;
pub const FORK: i32 = 16i32;
pub const REAR_SHOCK: i32 = 17i32;
pub const HANDLEBAR: i32 = 18i32;
pub const BOTTOM_BRACKET: i32 = 19i32;
pub const HEADSET: i32 = 20i32;
pub const FRONT_WHEEL: i32 = 2i32;
pub const TIRE: i32 = 3i32;
pub const BRAKE_PAD: i32 = 6i32;
pub const FRONT_BRAKE: i32 = 7i32;
pub const REAR_BRAKE: i32 = 8i32;

/// Test session for attachment tests
pub struct TestSession {
    user_id: UserId,
    shop: Option<ShopId>,
    admin: bool,
}

impl TestSession {
    /// A session of `user_id` acting for no shop, without admin rights.
    pub fn new(user_id: UserId) -> (r: TestSession)
        ensures
            r.session_user() == user_id,
            r.session_shop() == None::<ShopId>,
            !r.session_admin(),
    {
        TestSession { user_id, shop: None, admin: false }
    }

    /// A session of `user_id` acting for `shop`, without admin rights.
    pub fn with_shop(user_id: UserId, shop: ShopId) -> (r: TestSession)
        ensures
            r.session_user() == user_id,
            r.session_shop() == Some(shop),
            !r.session_admin(),
    {
        TestSession { user_id, shop: Some(shop), admin: false }
    }

    /// A session of `user_id` acting for no shop, with admin rights as given.
    pub fn with_admin(user_id: UserId, admin: bool) -> (r: TestSession)
        ensures
            r.session_user() == user_id,
            r.session_shop() == None::<ShopId>,
            r.session_admin() == admin,
    {
        TestSession { user_id, shop: None, admin }
    }
}

impl Session for TestSession {
    closed spec fn session_user(&self) -> UserId {
        self.user_id
    }

    closed spec fn session_shop(&self) -> Option<ShopId> {
        self.shop
    }

    closed spec fn session_admin(&self) -> bool {
        self.admin
    }

    fn user_id(&self) -> (r: UserId) {
        self.user_id
    }

    fn shop(&self) -> (r: Option<ShopId>) {
        self.shop
    }

    /// Always succeeds: the in-memory session simply records the shop.
    fn set_shop(&mut self, shop: Option<ShopId>) -> (r: Result<(), Error>)
        ensures
            r is Ok,
            final(self).session_shop() == shop,
    {
        self.shop = shop;
        Ok(())
    }

    fn is_admin(&self) -> (r: bool) {
        self.admin
    }

    fn check_owner(&self, owner: UserId, error: String) -> (r: Result<(), Error>) {
        self.user_id.check_owner(owner, error)
    }
}

/// Returns a test UserId (ID = 1).
pub fn test_user() -> (r: UserId)
    ensures
        r.0 == 1,
{
    UserId(1)
}

/// Returns a TestSession initialized with test_user().
pub fn test_session() -> (r: TestSession)
    ensures
        r.session_user() == UserId(1),
        r.session_shop() == None::<ShopId>,
        !r.session_admin(),
{
    TestSession::new(test_user())
}

/// Returns a sample purchase date (fixed for deterministic tests):
/// 2023-11-14 22:13:20 UTC.
pub fn sample_purchase_date() -> (r: Timestamp)
    ensures
        r.nanos == 1_700_000_000 * crate::timestamp::NANOS_PER_SEC,
        r.offset == 0,
{
    Timestamp::from_unix_timestamp(1_700_000_000i64)
}

} // verus!

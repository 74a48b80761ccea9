//! Hotel comments: how many a user may write for a hotel, and which new
//! comments are accepted.
use std::sync::Arc;
use vstd::prelude::*;

use crate::domain::{OrderStatus, RepositoryError};
use crate::hotel_booking::HotelOrder;
use crate::money::{amount_ok, amount_to_i32, amount_trunc, Amount};
use crate::HOTEL_MAX_COMMENT_LENGTH;

verus! {

/// A comment with its rating, written by a user about a hotel.
#[derive(Debug, Clone)]
pub struct HotelRating {
    pub id: Option<u64>,
    pub user_id: u64,
    pub hotel_id: u64,
    pub time: i64,
    pub rating: Amount,
    pub text: String,
}

/// Errors of the hotel rating service.
#[derive(Debug, Clone, PartialEq, Eq)]
pub enum HotelRatingServiceError {
    InfrastructureError(RepositoryError),
    InvalidHotelUuid(u128),
    NoCommentsQuotaLeft(u128, i32),
    CommentLengthExceed { limit: usize, actual: usize },
}

/// Number of comments that the orders allow: the rooms of the completed orders.
pub open spec fn quota_of(orders: Seq<HotelOrder>) -> int
    decreases orders.len(),
{
    if orders.len() == 0 {
        0
    } else {
        quota_of(orders.drop_last()) + if orders.last().order_status == OrderStatus::Completed {
            amount_trunc(orders.last().amount)
        } else {
            0
        }
    }
}

/// Every completed order's amount converts to an `i32`, and every running
/// sum of the quota stays within `i32`.
pub open spec fn quota_fits(orders: Seq<HotelOrder>) -> bool {
    &&& forall|k: int|
        0 <= k < orders.len() && orders[k].order_status == OrderStatus::Completed ==> {
            &&& amount_ok(#[trigger] orders[k].amount)
            &&& i32::MIN <= amount_trunc(orders[k].amount) <= i32::MAX
        }
    &&& forall|n: int| 0 <= n <= orders.len() ==> i32::MIN <= #[trigger] quota_of(orders.take(n)) <= i32::MAX
}

/// Number of comments on hotel `hotel_id` among `comments`.
pub open spec fn comments_on(comments: Seq<HotelRating>, hotel_id: u64) -> nat
    decreases comments.len(),
{
    if comments.len() == 0 {
        0
    } else {
        comments_on(comments.drop_last(), hotel_id) + if comments.last().hotel_id == hotel_id {
            1nat
        } else {
            0nat
        }
    }
}

proof fn lemma_comments_on_bound(comments: Seq<HotelRating>, hotel_id: u64)
    ensures
        comments_on(comments, hotel_id) <= comments.len(),
    decreases comments.len(),
{
    if comments.len() > 0 {
        lemma_comments_on_bound(comments.drop_last(), hotel_id);
    }
}

/// Number of comments that a user may write about a hotel, from the user's
/// orders for that hotel: the rooms of the completed ones.
pub fn comment_quota(orders: &Vec<HotelOrder>) -> (q: i32)
    requires
        quota_fits(orders@),
    ensures
        q == quota_of(orders@),
{
    let mut q: i32 = 0;
    let mut i: usize = 0;
    proof {
        assert(orders@.take(0) =~= Seq::<HotelOrder>::empty());
    }
    while i < orders.len()
        invariant
            i <= orders@.len(),
            quota_fits(orders@),
            q == quota_of(orders@.take(i as int)),
        decreases orders@.len() - i,
    {
        proof {
            assert(orders@.take(i + 1).drop_last() =~= orders@.take(i as int));
            assert(i32::MIN <= quota_of(orders@.take(i + 1)) <= i32::MAX);
        }
        let o = &orders[i];
        if o.order_status == OrderStatus::Completed {
            let n = match amount_to_i32(&o.amount) {
                Some(n) => n,
                None => 0,
            };
            q = q + n;
        }
        i += 1;
    }
    proof {
        assert(orders@.take(i as int) =~= orders@);
    }
    q
}

/// Number of comments that a user wrote about hotel `hotel_id`, from all the
/// user's comments (wrapped into an `i32`).
pub fn comment_count(comments: &Vec<HotelRating>, hotel_id: u64) -> (c: i32)
    ensures
        c == comments_on(comments@, hotel_id) as i32,
{
    let mut c: usize = 0;
    let mut i: usize = 0;
    while i < comments.len()
        invariant
            i <= comments@.len(),
            c == comments_on(comments@.take(i as int), hotel_id),
        decreases comments@.len() - i,
    {
        proof {
            assert(comments@.take(i + 1).drop_last() =~= comments@.take(i as int));
            lemma_comments_on_bound(comments@.take(i as int), hotel_id);
        }
        if comments[i].hotel_id == hotel_id {
            c = c + 1;
        }
        i += 1;
    }
    proof {
        assert(comments@.take(i as int) =~= comments@);
    }
    c as i32
}

/// Whether a new comment is accepted: refused when the user has used up
/// the quota, or when the text is longer than allowed (`text_len` counts
/// the bytes of its UTF-8 form).
pub open spec fn comment_check(hotel_uuid: u128, quota: i32, used: i32, text_len: usize) -> Result<
    (),
    HotelRatingServiceError,
> {
    if used >= quota {
        Err(HotelRatingServiceError::NoCommentsQuotaLeft(hotel_uuid, quota))
    } else if text_len > HOTEL_MAX_COMMENT_LENGTH {
        Err(
            HotelRatingServiceError::CommentLengthExceed {
                limit: HOTEL_MAX_COMMENT_LENGTH,
                actual: text_len,
            },
        )
    } else {
        Ok(())
    }
}

/// The hotel rating service; the repositories are reached by the caller.
pub struct HotelRatingServiceImpl<HR, HRR, OR> {
    pub hotel_repository: Arc<HR>,
    pub hotel_rating_repository: Arc<HRR>,
    pub order_repository: Arc<OR>,
}

impl<HR, HRR, OR> HotelRatingServiceImpl<HR, HRR, OR> {
    /// A service over the three repositories.
    pub fn new(hotel_repository: Arc<HR>, hotel_rating_repository: Arc<HRR>, order_repository: Arc<OR>) -> (s:
        Self)
        ensures
            s.hotel_repository == hotel_repository,
            s.hotel_rating_repository == hotel_rating_repository,
            s.order_repository == order_repository,
    {
        Self { hotel_repository, hotel_rating_repository, order_repository }
    }

    /// Decides on a new comment about a hotel, given the user's quota for the
    /// hotel and the number of comments the user already wrote about it.
    pub fn check_comment(&self, hotel_uuid: u128, quota: i32, used: i32, text: &String) -> (r: Result<
        (),
        HotelRatingServiceError,
    >)
        ensures
            r == comment_check(hotel_uuid, quota, used, vstd::utf8::encode_utf8(text@).len() as usize),
    {
        if used >= quota {
            return Err(HotelRatingServiceError::NoCommentsQuotaLeft(hotel_uuid, quota));
        }
        let len = text.as_str().len();
        if len > HOTEL_MAX_COMMENT_LENGTH {
            return Err(
                HotelRatingServiceError::CommentLengthExceed {
                    limit: HOTEL_MAX_COMMENT_LENGTH,
                    actual: len,
                },
            );
        }
        Ok(())
    }
}

} // verus!

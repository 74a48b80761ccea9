//! Dish and takeaway bookings: a paid order becomes ongoing, an ongoing one
//! can be cancelled.
use std::sync::Arc;
use vstd::prelude::*;

use crate::domain::{OrderStatus, OrderType, RepositoryError};
use crate::order::BaseOrder;

verus! {

/// Errors of the dish and takeaway booking services.
#[derive(Debug, Clone, PartialEq, Eq)]
pub enum MealBookingServiceError {
    InfrastructureError(RepositoryError),
    InvalidOrder(u128),
    InvalidOrderStatus(u128, OrderStatus),
}

/// The order written back when a booking request for `found` is accepted:
/// a paid order becomes ongoing; anything else is refused.
pub open spec fn meal_booking(order_uuid: u128, found: Result<Option<BaseOrder>, RepositoryError>) -> Result<
    BaseOrder,
    MealBookingServiceError,
> {
    match found {
        Err(e) => Err(MealBookingServiceError::InfrastructureError(e)),
        Ok(None) => Err(MealBookingServiceError::InvalidOrder(order_uuid)),
        Ok(Some(o)) => if o.order_status != OrderStatus::Paid {
            Err(MealBookingServiceError::InvalidOrderStatus(order_uuid, o.order_status))
        } else {
            Ok(BaseOrder { order_status: OrderStatus::Ongoing, ..o })
        },
    }
}

/// The order written back when a cancel request for `found` is accepted:
/// an ongoing order becomes cancelled; anything else is refused.
pub open spec fn meal_cancel(order_uuid: u128, found: Result<Option<BaseOrder>, RepositoryError>) -> Result<
    BaseOrder,
    MealBookingServiceError,
> {
    match found {
        Err(e) => Err(MealBookingServiceError::InfrastructureError(e)),
        Ok(None) => Err(MealBookingServiceError::InvalidOrder(order_uuid)),
        Ok(Some(o)) => if o.order_status != OrderStatus::Ongoing {
            Err(MealBookingServiceError::InvalidOrderStatus(order_uuid, o.order_status))
        } else {
            Ok(BaseOrder { order_status: OrderStatus::Cancelled, ..o })
        },
    }
}

fn book(order_uuid: u128, found: Result<Option<BaseOrder>, RepositoryError>) -> (r: Result<
    BaseOrder,
    MealBookingServiceError,
>)
    ensures
        r == meal_booking(order_uuid, found),
{
    match found {
        Err(e) => Err(MealBookingServiceError::InfrastructureError(e)),
        Ok(None) => Err(MealBookingServiceError::InvalidOrder(order_uuid)),
        Ok(Some(o)) => {
            if o.order_status != OrderStatus::Paid {
                Err(MealBookingServiceError::InvalidOrderStatus(order_uuid, o.order_status))
            } else {
                Ok(BaseOrder { order_status: OrderStatus::Ongoing, ..o })
            }
        },
    }
}

fn cancel(order_uuid: u128, found: Result<Option<BaseOrder>, RepositoryError>) -> (r: Result<
    BaseOrder,
    MealBookingServiceError,
>)
    ensures
        r == meal_cancel(order_uuid, found),
{
    match found {
        Err(e) => Err(MealBookingServiceError::InfrastructureError(e)),
        Ok(None) => Err(MealBookingServiceError::InvalidOrder(order_uuid)),
        Ok(Some(o)) => {
            if o.order_status != OrderStatus::Ongoing {
                Err(MealBookingServiceError::InvalidOrderStatus(order_uuid, o.order_status))
            } else {
                Ok(BaseOrder { order_status: OrderStatus::Cancelled, ..o })
            }
        },
    }
}

/// The dish booking service; the order repository is reached by the caller.
pub struct DishBookingServiceImpl<OR> {
    pub order_repository: Arc<OR>,
}

impl<OR> DishBookingServiceImpl<OR> {
    /// A service over the order repository.
    pub fn new(order_repository: Arc<OR>) -> (s: Self)
        ensures
            s.order_repository == order_repository,
    {
        Self { order_repository }
    }

    /// Books the dish order found for `order_uuid`: the order to write back.
    pub fn booking_dish(&self, order_uuid: u128, found: Result<Option<BaseOrder>, RepositoryError>) -> (r:
        Result<BaseOrder, MealBookingServiceError>)
        ensures
            r == meal_booking(order_uuid, found),
    {
        book(order_uuid, found)
    }

    /// Cancels the dish order found for `order_uuid`: the order to write back.
    pub fn cancel_dish(&self, order_uuid: u128, found: Result<Option<BaseOrder>, RepositoryError>) -> (r:
        Result<BaseOrder, MealBookingServiceError>)
        ensures
            r == meal_cancel(order_uuid, found),
    {
        cancel(order_uuid, found)
    }

    /// What a group of dish bookings reports: the group books its orders
    /// one by one until one is refused, and reports no order back.
    pub fn booking_group_result(&self) -> (r: Vec<BaseOrder>)
        ensures
            r@ == Seq::<BaseOrder>::empty(),
    {
        Vec::new()
    }
}

/// Progress of a group of meal bookings: the orders booked so far, in
/// order. The group books its orders one by one and stops at the first one
/// refused; whatever happens, it reports no order to refund.
pub struct MealGroup {
    pub booked: Vec<u128>,
}

impl MealGroup {
    /// No order tried yet.
    pub fn new() -> (g: Self)
        ensures
            g.booked@ == Seq::<u128>::empty(),
    {
        MealGroup { booked: Vec::new() }
    }

    /// Records the outcome of booking `order_uuid`; the answer says whether
    /// the group goes on with the next order, which it does exactly when
    /// this one was booked.
    pub fn record(&mut self, order_uuid: u128, outcome: &Result<BaseOrder, MealBookingServiceError>) -> (go_on: bool)
        ensures
            go_on == outcome is Ok,
            outcome is Ok ==> final(self).booked@ == old(self).booked@.push(order_uuid),
            outcome is Err ==> final(self).booked@ == old(self).booked@,
    {
        match outcome {
            Ok(_) => {
                self.booked.push(order_uuid);
                true
            },
            Err(_) => false,
        }
    }
}

/// The takeaway booking service; the order repository is reached by the caller.
pub struct TakeawayBookingServiceImpl<OR> {
    pub order_repository: Arc<OR>,
}

impl<OR> TakeawayBookingServiceImpl<OR> {
    /// A service over the order repository.
    pub fn new(order_repository: Arc<OR>) -> (s: Self)
        ensures
            s.order_repository == order_repository,
    {
        Self { order_repository }
    }

    /// Books the takeaway order found for `order_uuid`: the order to write back.
    pub fn booking_takeaway(&self, order_uuid: u128, found: Result<Option<BaseOrder>, RepositoryError>) -> (r:
        Result<BaseOrder, MealBookingServiceError>)
        ensures
            r == meal_booking(order_uuid, found),
    {
        book(order_uuid, found)
    }

    /// Cancels the takeaway order found for `order_uuid`: the order to write back.
    pub fn cancel_takeaway(&self, order_uuid: u128, found: Result<Option<BaseOrder>, RepositoryError>) -> (r:
        Result<BaseOrder, MealBookingServiceError>)
        ensures
            r == meal_cancel(order_uuid, found),
    {
        cancel(order_uuid, found)
    }
}

/// The order that the dish service's takeaway booking accepts from the order
/// service: a takeaway order (of any status) becomes ongoing; an order of
/// another kind is refused under its own id.
pub open spec fn remote_takeaway_booking(order_uuid: u128, found: Result<Option<BaseOrder>, RepositoryError>) -> Result<
    BaseOrder,
    MealBookingServiceError,
> {
    match found {
        Err(e) => Err(MealBookingServiceError::InfrastructureError(e)),
        Ok(None) => Err(MealBookingServiceError::InvalidOrder(order_uuid)),
        Ok(Some(o)) => if o.order_type != OrderType::Takeaway {
            Err(MealBookingServiceError::InvalidOrder(o.uuid))
        } else {
            Ok(BaseOrder { order_status: OrderStatus::Ongoing, ..o })
        },
    }
}

/// The cancel that the dish service's takeaway booking accepts: a takeaway
/// order that is ongoing becomes cancelled.
pub open spec fn remote_takeaway_cancel(order_uuid: u128, found: Result<Option<BaseOrder>, RepositoryError>) -> Result<
    BaseOrder,
    MealBookingServiceError,
> {
    match found {
        Err(e) => Err(MealBookingServiceError::InfrastructureError(e)),
        Ok(None) => Err(MealBookingServiceError::InvalidOrder(order_uuid)),
        Ok(Some(o)) => if o.order_type != OrderType::Takeaway {
            Err(MealBookingServiceError::InvalidOrder(o.uuid))
        } else if o.order_status != OrderStatus::Ongoing {
            Err(MealBookingServiceError::InvalidOrderStatus(order_uuid, o.order_status))
        } else {
            Ok(BaseOrder { order_status: OrderStatus::Cancelled, ..o })
        },
    }
}

/// The takeaway booking of the dish service, which reads and writes orders
/// through the order service.
pub struct RemoteTakeawayBookingServiceImpl<OP> {
    pub order_service: Arc<OP>,
}

impl<OP> RemoteTakeawayBookingServiceImpl<OP> {
    /// A service that reaches orders through the order service.
    pub fn new(order_service: Arc<OP>) -> (s: Self)
        ensures
            s.order_service == order_service,
    {
        Self { order_service }
    }

    /// Books the order found for `order_uuid`: the order to write back.
    pub fn booking_takeaway(&self, order_uuid: u128, found: Result<Option<BaseOrder>, RepositoryError>) -> (r:
        Result<BaseOrder, MealBookingServiceError>)
        ensures
            r == remote_takeaway_booking(order_uuid, found),
    {
        match found {
            Err(e) => Err(MealBookingServiceError::InfrastructureError(e)),
            Ok(None) => Err(MealBookingServiceError::InvalidOrder(order_uuid)),
            Ok(Some(o)) => {
                if o.order_type != OrderType::Takeaway {
                    Err(MealBookingServiceError::InvalidOrder(o.uuid))
                } else {
                    Ok(BaseOrder { order_status: OrderStatus::Ongoing, ..o })
                }
            },
        }
    }

    /// Cancels the order found for `order_uuid`: the order to write back.
    pub fn cancel_takeaway(&self, order_uuid: u128, found: Result<Option<BaseOrder>, RepositoryError>) -> (r:
        Result<BaseOrder, MealBookingServiceError>)
        ensures
            r == remote_takeaway_cancel(order_uuid, found),
    {
        match found {
            Err(e) => Err(MealBookingServiceError::InfrastructureError(e)),
            Ok(None) => Err(MealBookingServiceError::InvalidOrder(order_uuid)),
            Ok(Some(o)) => {
                if o.order_type != OrderType::Takeaway {
                    Err(MealBookingServiceError::InvalidOrder(o.uuid))
                } else if o.order_status != OrderStatus::Ongoing {
                    Err(MealBookingServiceError::InvalidOrderStatus(order_uuid, o.order_status))
                } else {
                    Ok(BaseOrder { order_status: OrderStatus::Cancelled, ..o })
                }
            },
        }
    }
}

/// A booked meal order can be cancelled, and a cancelled one can be neither
/// booked nor cancelled again.
pub proof fn law_meal_booking_then_cancel(o: BaseOrder)
    requires
        o.order_status == OrderStatus::Paid,
    ensures
        meal_booking(o.uuid, Ok(Some(o))) is Ok,
        meal_cancel(o.uuid, Ok(Some(meal_booking(o.uuid, Ok(Some(o)))->Ok_0))) is Ok,
        ({
            let c = meal_cancel(o.uuid, Ok(Some(meal_booking(o.uuid, Ok(Some(o)))->Ok_0)))->Ok_0;
            &&& c.order_status == OrderStatus::Cancelled
            &&& meal_booking(o.uuid, Ok(Some(c))) is Err
            &&& meal_cancel(o.uuid, Ok(Some(c))) is Err
        }),
{
}

} // verus!

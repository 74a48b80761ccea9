//! Plain-value model of the domain entities that the services decide on.
use vstd::prelude::*;

verus! {

/// Life cycle of an order.
#[derive(Debug, Clone, Copy, PartialEq, Eq, Structural)]
pub enum OrderStatus {
    Unpaid,
    Paid,
    Ongoing,
    Active,
    Completed,
    Failed,
    Cancelled,
}

/// Kind of goods an order is for.
#[derive(Debug, Clone, Copy, PartialEq, Eq, Structural)]
pub enum OrderType {
    Train,
    Hotel,
    Dish,
    Takeaway,
}

/// Failure of a repository call, with the message that came with it.
#[derive(Debug, Clone, PartialEq, Eq)]
pub enum RepositoryError {
    Db(String),
    InconsistentState(String),
    ValidationError(String),
}

/// Failure of a service's infrastructure: of its repository, or of a
/// related service it called, with the message that came with it.
#[derive(Debug, Clone, PartialEq, Eq)]
pub enum ServiceError {
    RepositoryError(RepositoryError),
    RelatedServiceError(String),
}

} // verus!

//! Payments: which orders may enter a transaction, when a transaction may be
//! paid, and which orders a refund marks.
use std::sync::Arc;
use vstd::prelude::*;

use crate::domain::{OrderStatus, RepositoryError};
use crate::money::{amount_less_than, amount_lt, amount_ok, zero, zero_amount, Amount};
use crate::order::BaseOrder;

verus! {

/// Whether a transaction was paid.
#[derive(Debug, Clone, Copy, PartialEq, Eq)]
pub enum TransactionStatus {
    Unpaid,
    Paid,
}

/// What a payment request was about, for the error it returns.
#[derive(Debug, Clone, Copy, PartialEq, Eq)]
pub enum TransactionOp {
    New,
    Pay,
}

/// Errors of the transaction service.
#[derive(Debug, Clone, PartialEq, Eq)]
pub enum TransactionServiceError {
    InfrastructureError(RepositoryError),
    InvalidUser(u64),
    InvalidTransactionId(u128),
    InvalidOrderStatus { op: TransactionOp, status: OrderStatus, order_id: u128, transaction_id: Option<u128> },
    InsufficientFunds { transaction_id: u128, balance: Amount, amount: Amount },
    InvalidTransactionStatus { op: TransactionOp, status: TransactionStatus, transaction_id: u128 },
}

/// Index of the first order that is not unpaid, or -1.
pub open spec fn first_not_unpaid(orders: Seq<BaseOrder>) -> int
    decreases orders.len(),
{
    if orders.len() == 0 {
        -1
    } else if first_not_unpaid(orders.drop_last()) >= 0 {
        first_not_unpaid(orders.drop_last())
    } else if orders.last().order_status != OrderStatus::Unpaid {
        orders.len() - 1
    } else {
        -1
    }
}

proof fn lemma_first_not_unpaid_prefix(orders: Seq<BaseOrder>, n: int)
    requires
        0 <= n <= orders.len(),
        first_not_unpaid(orders.take(n)) >= 0,
    ensures
        first_not_unpaid(orders) == first_not_unpaid(orders.take(n)),
    decreases orders.len(),
{
    if orders.len() > n {
        assert(orders.drop_last().take(n) =~= orders.take(n));
        lemma_first_not_unpaid_prefix(orders.drop_last(), n);
    } else {
        assert(orders.take(n) =~= orders);
    }
}

/// Orders may enter a new transaction only when all of them are unpaid;
/// the first other one is reported.
pub fn check_new_transaction(orders: &Vec<BaseOrder>) -> (r: Result<(), TransactionServiceError>)
    ensures
        first_not_unpaid(orders@) < 0 ==> r is Ok,
        first_not_unpaid(orders@) >= 0 ==> {
            let o = orders@[first_not_unpaid(orders@)];
            r == Err::<(), _>(
                TransactionServiceError::InvalidOrderStatus {
                    op: TransactionOp::New,
                    status: o.order_status,
                    order_id: o.uuid,
                    transaction_id: None,
                },
            )
        },
{
    let mut i: usize = 0;
    while i < orders.len()
        invariant
            i <= orders@.len(),
            first_not_unpaid(orders@.take(i as int)) < 0,
        decreases orders@.len() - i,
    {
        proof {
            assert(orders@.take(i + 1).drop_last() =~= orders@.take(i as int));
            assert(orders@.take(i + 1).last() == orders@[i as int]);
        }
        let o = orders[i];
        if o.order_status != OrderStatus::Unpaid {
            proof {
                lemma_first_not_unpaid_prefix(orders@, i + 1);
            }
            return Err(
                TransactionServiceError::InvalidOrderStatus {
                    op: TransactionOp::New,
                    status: o.order_status,
                    order_id: o.uuid,
                    transaction_id: None,
                },
            );
        }
        i += 1;
    }
    proof {
        assert(orders@.take(i as int) =~= orders@);
    }
    Ok(())
}

/// A user's balance: what the store holds, or zero when it holds nothing.
pub fn balance_or_zero(stored: Option<Amount>) -> (b: Amount)
    ensures
        b == match stored {
            Some(a) => a,
            None => zero_amount(),
        },
{
    match stored {
        Some(a) => a,
        None => zero(),
    }
}

/// Decides on paying a transaction: refused when the balance is below the
/// amount due, or when the transaction was paid already.
pub open spec fn pay_check(
    transaction_id: u128,
    status: TransactionStatus,
    balance: Amount,
    raw_amount: Amount,
) -> Result<(), TransactionServiceError> {
    if amount_lt(balance, raw_amount) {
        Err(TransactionServiceError::InsufficientFunds { transaction_id, balance, amount: raw_amount })
    } else if status == TransactionStatus::Paid {
        Err(
            TransactionServiceError::InvalidTransactionStatus {
                op: TransactionOp::Pay,
                status,
                transaction_id,
            },
        )
    } else {
        Ok(())
    }
}

/// Decides on paying a transaction, given its status, the payer's balance
/// and the amount due.
pub fn check_payment(transaction_id: u128, status: TransactionStatus, balance: Amount, raw_amount: Amount) -> (r:
    Result<(), TransactionServiceError>)
    requires
        amount_ok(balance),
        amount_ok(raw_amount),
    ensures
        r == pay_check(transaction_id, status, balance, raw_amount),
{
    if amount_less_than(&balance, &raw_amount) {
        return Err(
            TransactionServiceError::InsufficientFunds { transaction_id, balance, amount: raw_amount },
        );
    }
    match status {
        TransactionStatus::Paid => Err(
            TransactionServiceError::InvalidTransactionStatus {
                op: TransactionOp::Pay,
                status,
                transaction_id,
            },
        ),
        TransactionStatus::Unpaid => Ok(()),
    }
}

/// The orders of a paid transaction: all of them now paid, in order.
pub fn mark_paid(orders: &mut Vec<BaseOrder>)
    ensures
        final(orders)@.len() == old(orders)@.len(),
        forall|k: int|
            0 <= k < old(orders)@.len() ==> #[trigger] final(orders)@[k] == (BaseOrder {
                order_status: OrderStatus::Paid,
                ..old(orders)@[k]
            }),
{
    let mut i: usize = 0;
    let ghost o0 = orders@;
    while i < orders.len()
        invariant
            i <= orders@.len(),
            orders@.len() == o0.len(),
            forall|k: int|
                0 <= k < i ==> #[trigger] orders@[k] == (BaseOrder { order_status: OrderStatus::Paid, ..o0[k] }),
            forall|k: int| i <= k < o0.len() ==> #[trigger] orders@[k] == o0[k],
        decreases o0.len() - i,
    {
        let o = orders[i];
        orders.set(i, BaseOrder { order_status: OrderStatus::Paid, ..o });
        i += 1;
    }
}

/// The orders of a transaction that a refund covers, in order.
pub open spec fn refunded_orders(orders: Seq<BaseOrder>, to_refund: Seq<u128>) -> Seq<BaseOrder>
    decreases orders.len(),
{
    if orders.len() == 0 {
        Seq::empty()
    } else if to_refund.contains(orders.last().uuid) {
        refunded_orders(orders.drop_last(), to_refund).push(orders.last())
    } else {
        refunded_orders(orders.drop_last(), to_refund)
    }
}

fn contains_uuid(v: &Vec<u128>, id: u128) -> (b: bool)
    ensures
        b == v@.contains(id),
{
    let mut k: usize = 0;
    while k < v.len()
        invariant
            k <= v@.len(),
            forall|t: int| 0 <= t < k ==> v@[t] != id,
        decreases v@.len() - k,
    {
        if v[k] == id {
            return true;
        }
        k += 1;
    }
    false
}

/// The orders of a transaction that a refund of the orders `to_refund`
/// covers (those whose id is among them), in order: the orders to mark as
/// refunded and to announce as cancelled.
pub fn orders_to_refund(orders: &Vec<BaseOrder>, to_refund: &Vec<u128>) -> (r: Vec<BaseOrder>)
    ensures
        r@ == refunded_orders(orders@, to_refund@),
{
    let mut r: Vec<BaseOrder> = Vec::new();
    let mut i: usize = 0;
    while i < orders.len()
        invariant
            i <= orders@.len(),
            r@ == refunded_orders(orders@.take(i as int), to_refund@),
        decreases orders@.len() - i,
    {
        proof {
            assert(orders@.take(i + 1).drop_last() =~= orders@.take(i as int));
            assert(orders@.take(i + 1).last() == orders@[i as int]);
        }
        if contains_uuid(to_refund, orders[i].uuid) {
            r.push(orders[i]);
        }
        i += 1;
    }
    proof {
        assert(orders@.take(i as int) =~= orders@);
    }
    r
}

/// An order held by a transaction, with the refund transaction that
/// refunded it, if any.
#[derive(Debug, Clone, Copy, PartialEq, Eq)]
pub struct TransactionOrder {
    pub order: BaseOrder,
    pub refund_transaction_id: Option<u64>,
}

/// A payment transaction of a user over some orders.
#[derive(Debug, Clone)]
pub struct Transaction {
    pub uuid: u128,
    pub user_id: u64,
    pub status: TransactionStatus,
    pub atomic: bool,
    pub orders: Vec<TransactionOrder>,
}

/// The transaction found under `transaction_id` for a payment or a refund:
/// `InvalidTransactionId` when there is none.
pub fn transaction_found(
    transaction_id: u128,
    found: Result<Option<Transaction>, RepositoryError>,
) -> (r: Result<Transaction, TransactionServiceError>)
    ensures
        match found {
            Err(e) => r == Err::<Transaction, _>(TransactionServiceError::InfrastructureError(e)),
            Ok(None) => r == Err::<Transaction, _>(TransactionServiceError::InvalidTransactionId(transaction_id)),
            Ok(Some(t)) => r == Ok::<Transaction, TransactionServiceError>(t),
        },
{
    match found {
        Err(e) => Err(TransactionServiceError::InfrastructureError(e)),
        Ok(None) => Err(TransactionServiceError::InvalidTransactionId(transaction_id)),
        Ok(Some(t)) => Ok(t),
    }
}

/// Marks the orders that a refund covers (those whose id is in
/// `to_refund`) with the id of the refund transaction; the other orders and
/// everything else are left as they are.
pub fn mark_refunded(orders: &mut Vec<TransactionOrder>, to_refund: &Vec<u128>, refund_transaction_id: u64)
    ensures
        final(orders)@.len() == old(orders)@.len(),
        forall|k: int|
            0 <= k < old(orders)@.len() ==> #[trigger] final(orders)@[k] == (if to_refund@.contains(
                old(orders)@[k].order.uuid,
            ) {
                TransactionOrder { refund_transaction_id: Some(refund_transaction_id), ..old(orders)@[k] }
            } else {
                old(orders)@[k]
            }),
{
    let ghost o0 = orders@;
    let mut i: usize = 0;
    while i < orders.len()
        invariant
            i <= orders@.len(),
            orders@.len() == o0.len(),
            forall|k: int|
                0 <= k < i ==> #[trigger] orders@[k] == (if to_refund@.contains(o0[k].order.uuid) {
                    TransactionOrder { refund_transaction_id: Some(refund_transaction_id), ..o0[k] }
                } else {
                    o0[k]
                }),
            forall|k: int| i <= k < o0.len() ==> #[trigger] orders@[k] == o0[k],
        decreases o0.len() - i,
    {
        let o = orders[i];
        if contains_uuid(to_refund, o.order.uuid) {
            orders.set(i, TransactionOrder { refund_transaction_id: Some(refund_transaction_id), ..o });
        }
        i += 1;
    }
}

/// The transaction once paid: paid, and every order of it paid; refused
/// as `pay_check` says (the balance is below the amount due, or it was paid
/// already).
pub fn paid_transaction(tx: Transaction, balance: Amount, raw_amount: Amount) -> (r: Result<
    Transaction,
    TransactionServiceError,
>)
    requires
        amount_ok(balance),
        amount_ok(raw_amount),
    ensures
        match pay_check(tx.uuid, tx.status, balance, raw_amount) {
            Err(e) => r == Err::<Transaction, _>(e),
            Ok(_) => r matches Ok(t) && t.uuid == tx.uuid && t.user_id == tx.user_id && t.atomic == tx.atomic
                && t.status == TransactionStatus::Paid && t.orders@.len() == tx.orders@.len() && forall|k: int|
                0 <= k < tx.orders@.len() ==> #[trigger] t.orders@[k] == (TransactionOrder {
                    order: BaseOrder { order_status: OrderStatus::Paid, ..tx.orders@[k].order },
                    ..tx.orders@[k]
                }),
        },
{
    match check_payment(tx.uuid, tx.status, balance, raw_amount) {
        Err(e) => Err(e),
        Ok(()) => {
            let mut orders = tx.orders;
            let ghost o0 = orders@;
            let mut i: usize = 0;
            while i < orders.len()
                invariant
                    i <= orders@.len(),
                    orders@.len() == o0.len(),
                    forall|k: int|
                        0 <= k < i ==> #[trigger] orders@[k] == (TransactionOrder {
                            order: BaseOrder { order_status: OrderStatus::Paid, ..o0[k].order },
                            ..o0[k]
                        }),
                    forall|k: int| i <= k < o0.len() ==> #[trigger] orders@[k] == o0[k],
                decreases o0.len() - i,
            {
                let o = orders[i];
                orders.set(
                    i,
                    TransactionOrder { order: BaseOrder { order_status: OrderStatus::Paid, ..o.order }, ..o },
                );
                i += 1;
            }
            Ok(Transaction { uuid: tx.uuid, user_id: tx.user_id, status: TransactionStatus::Paid, atomic: tx.atomic, orders })
        },
    }
}

/// The transaction service; the repositories and the other services are
/// reached by the caller.
pub struct TransactionServiceImpl<U, R, O, OS> {
    pub user_repository: Arc<U>,
    pub transaction_repository: Arc<R>,
    pub order_service: Arc<O>,
    pub order_status_manager_service: Arc<OS>,
}

impl<U, R, O, OS> TransactionServiceImpl<U, R, O, OS> {
    /// A service over its repositories and services.
    pub fn new(
        user_repository: Arc<U>,
        transaction_repository: Arc<R>,
        order_service: Arc<O>,
        order_status_manager_service: Arc<OS>,
    ) -> (s: Self)
        ensures
            s.user_repository == user_repository,
            s.transaction_repository == transaction_repository,
            s.order_service == order_service,
            s.order_status_manager_service == order_status_manager_service,
    {
        Self { user_repository, transaction_repository, order_service, order_status_manager_service }
    }
}

/// A transaction is paid at most once: once a payment goes through, a second
/// payment of it is refused whatever the balance.
pub proof fn law_paid_transaction_is_not_paid_twice(
    transaction_id: u128,
    balance: Amount,
    raw_amount: Amount,
    later_balance: Amount,
)
    requires
        pay_check(transaction_id, TransactionStatus::Unpaid, balance, raw_amount) is Ok,
    ensures
        pay_check(transaction_id, TransactionStatus::Paid, later_balance, raw_amount) is Err,
{
}

} // verus!

//! Payment escrow: weighs the attached amount against the cost of a request
//! and decides what goes back to the payer.

use crate::error::Error;
use vstd::prelude::*;

verus! {

/// A surplus of this much or less is kept: sending it back would cost more
/// than it is worth.
pub const DUST_THRESHOLD: u128 = 1;

/// An outbound transfer that the caller is to make on the library's behalf.
#[derive(Clone, Debug, PartialEq, Eq)]
pub struct Transfer {
    pub to: String,
    pub amount: u128,
}

/// How a payment was settled.
#[derive(Clone, Debug, PartialEq, Eq)]
pub struct Settlement {
    /// The attached amount less the required amount.
    pub refund_amount: u128,
    /// The refund to send, if it is worth sending.
    pub transfer: Option<Transfer>,
}

/// What is attached to one request and how its storage is metered. It lives
/// for the length of one call.
#[derive(Clone, Debug, PartialEq, Eq)]
pub struct Payment {
    /// Who pays, and who gets the surplus back.
    pub payer: String,
    pub attached_amount: u128,
    /// The bytes of storage that the request consumes.
    pub storage_bytes_delta: u64,
    /// The price of one byte of storage.
    pub byte_cost_rate: u128,
}

/// The cost of a request: the fixed price and the metered storage.
pub open spec fn required_amount(unit_price: int, storage_bytes_delta: int, byte_cost_rate: int) -> int {
    unit_price + byte_cost_rate * storage_bytes_delta
}

/// The transfer that a refund calls for: none for dust.
pub open spec fn refund_transfer(refund_amount: u128, payer: String) -> Option<Transfer> {
    if refund_amount > DUST_THRESHOLD {
        Some(Transfer { to: payer, amount: refund_amount })
    } else {
        None
    }
}

/// The outcome of settling a payment.
pub open spec fn settlement(
    attached_amount: u128,
    unit_price: u128,
    storage_bytes_delta: u64,
    byte_cost_rate: u128,
    payer: String,
) -> Result<Settlement, Error> {
    let required = required_amount(
        unit_price as int,
        storage_bytes_delta as int,
        byte_cost_rate as int,
    );
    if attached_amount < required {
        Err(Error::InsufficientPayment)
    } else {
        let refund_amount = (attached_amount - required) as u128;
        Ok(Settlement { refund_amount, transfer: refund_transfer(refund_amount, payer) })
    }
}

impl Payment {
    /// The outcome of settling this payment against a fixed price.
    pub open spec fn settlement(self, unit_price: u128) -> Result<Settlement, Error> {
        settlement(
            self.attached_amount,
            unit_price,
            self.storage_bytes_delta,
            self.byte_cost_rate,
            self.payer,
        )
    }

    /// Whether this payment covers a fixed price and its metered storage.
    pub open spec fn covers(self, unit_price: int) -> bool {
        self.attached_amount >= required_amount(
            unit_price,
            self.storage_bytes_delta as int,
            self.byte_cost_rate as int,
        )
    }
}

/// Settles a payment. It fails with `InsufficientPayment` exactly when the
/// attached amount is below the required one, a cost beyond the range of
/// amounts included. Otherwise the surplus is the refund, and a transfer of
/// it to the payer is called for when it is above the dust threshold.
pub fn settle(
    attached_amount: u128,
    unit_price: u128,
    storage_bytes_delta: u64,
    byte_cost_rate: u128,
    payer: String,
) -> (result: Result<Settlement, Error>)
    ensures
        result == settlement(
            attached_amount,
            unit_price,
            storage_bytes_delta,
            byte_cost_rate,
            payer,
        ),
{
    let storage_cost = match byte_cost_rate.checked_mul(storage_bytes_delta as u128) {
        Some(cost) => cost,
        None => {
            return Err(Error::InsufficientPayment);
        },
    };
    let required = match unit_price.checked_add(storage_cost) {
        Some(total) => total,
        None => {
            return Err(Error::InsufficientPayment);
        },
    };
    if attached_amount < required {
        return Err(Error::InsufficientPayment);
    }
    let refund_amount = attached_amount - required;
    let transfer = if refund_amount > DUST_THRESHOLD {
        Some(Transfer { to: payer, amount: refund_amount })
    } else {
        None
    };
    Ok(Settlement { refund_amount, transfer })
}

/// Payment exactness: a payment of exactly the required amount succeeds with
/// a refund of nothing; one unit less fails with `InsufficientPayment`; and a
/// surplus succeeds with a refund of exactly the surplus, which is sent to
/// the payer when it is above the dust threshold and kept when it is not.
pub proof fn lemma_payment_exactness(
    unit_price: u128,
    storage_bytes_delta: u64,
    byte_cost_rate: u128,
    payer: String,
    surplus: u128,
)
    requires
        required_amount(unit_price as int, storage_bytes_delta as int, byte_cost_rate as int)
            + surplus <= u128::MAX,
    ensures
        ({
            let required = required_amount(
                unit_price as int,
                storage_bytes_delta as int,
                byte_cost_rate as int,
            );
            &&& settlement(
                required as u128,
                unit_price,
                storage_bytes_delta,
                byte_cost_rate,
                payer,
            ) == Ok::<Settlement, Error>(Settlement { refund_amount: 0, transfer: None })
            &&& required >= 1 ==> settlement(
                (required - 1) as u128,
                unit_price,
                storage_bytes_delta,
                byte_cost_rate,
                payer,
            ) == Err::<Settlement, Error>(Error::InsufficientPayment)
            &&& settlement(
                (required + surplus) as u128,
                unit_price,
                storage_bytes_delta,
                byte_cost_rate,
                payer,
            ) == Ok::<Settlement, Error>(
                Settlement {
                    refund_amount: surplus,
                    transfer: if surplus > DUST_THRESHOLD {
                        Some(Transfer { to: payer, amount: surplus })
                    } else {
                        None
                    },
                },
            )
        }),
{
}

/// A payment is turned down exactly when it is below the required amount,
/// and never for any other reason.
pub proof fn lemma_settlement_fails_iff_short(
    attached_amount: u128,
    unit_price: u128,
    storage_bytes_delta: u64,
    byte_cost_rate: u128,
    payer: String,
)
    ensures
        settlement(attached_amount, unit_price, storage_bytes_delta, byte_cost_rate, payer) is Err
            <==> attached_amount < required_amount(
            unit_price as int,
            storage_bytes_delta as int,
            byte_cost_rate as int,
        ),
        settlement(attached_amount, unit_price, storage_bytes_delta, byte_cost_rate, payer)
            matches Ok(settled) ==> settled.refund_amount + required_amount(
            unit_price as int,
            storage_bytes_delta as int,
            byte_cost_rate as int,
        ) == attached_amount,
{
}

} // verus!

//! Checks on unsigned price updates carried from feeders' own nodes: the
//! signature verdict, the age of the update, the submission checks, and the
//! priority and deduplication tag of an accepted update.
use crate::asset::Asset;
use crate::oracle::{notified_after, submit_effect, Error, OnPriceSet, Oracle};
use vstd::prelude::*;

verus! {

/// The number of blocks an accepted update stays in the pool.
pub const UNSIGNED_LONGEVITY: u64 = 5;

/// An unsigned update: the feeder's key, the asset, the price and the block
/// it was made for.
#[derive(Clone, Copy, Debug, PartialEq, Eq, Structural)]
pub struct PricePayload {
    pub public: u64,
    pub asset: Asset,
    pub price: i64,
    pub block_number: u64,
}

/// Why an unsigned update is dropped.
#[derive(Clone, Copy, Debug, PartialEq, Eq, Structural)]
pub enum InvalidTransaction {
    /// The signature does not verify.
    BadProof,
    /// The update is from a future block or too old.
    Stale,
    /// The submission checks refused it.
    Call,
}

/// How an accepted update is kept in the pool.
#[derive(Clone, Copy, Debug, PartialEq, Eq, Structural)]
pub struct ValidTransaction {
    pub priority: u64,
    /// The deduplication tag: at most one pending update per feeder key
    /// and asset.
    pub provides_public: u64,
    pub provides_asset: u64,
    pub longevity: u64,
    pub propagate: bool,
}

/// The pool priority of an update made for block `block`.
pub open spec fn priority_of(base: u64, block: u64, modulus: u64) -> u64 {
    if base + block % modulus > u64::MAX {
        u64::MAX
    } else {
        (base + block % modulus) as u64
    }
}

/// What the checks on an unsigned update give.
pub open spec fn unsigned_outcome(
    o: Oracle,
    payload: PricePayload,
    signature_valid: bool,
    current_block: u64,
    extra_ok: bool,
) -> Result<ValidTransaction, InvalidTransaction> {
    if !signature_valid {
        Err(InvalidTransaction::BadProof)
    } else if payload.block_number > current_block {
        Err(InvalidTransaction::Stale)
    } else if payload.block_number + o.config.unsigned_lifetime_in_blocks < current_block {
        Err(InvalidTransaction::Stale)
    } else if o.validation_spec(payload.public, payload.asset, payload.price, extra_ok) is Err {
        Err(InvalidTransaction::Call)
    } else {
        Ok(
            ValidTransaction {
                priority: priority_of(
                    o.config.unsigned_priority,
                    payload.block_number,
                    o.config.min_transaction_weight,
                ),
                provides_public: payload.public,
                provides_asset: payload.asset.0,
                longevity: UNSIGNED_LONGEVITY,
                propagate: true,
            },
        )
    }
}

impl Oracle {
    /// Checks an unsigned update at block `current_block`; the signature
    /// has been checked by the caller, whose verdict is `signature_valid`,
    /// and `extra_ok` is the additional validation hook's verdict.
    pub fn validate_unsigned(
        &self,
        payload: &PricePayload,
        signature_valid: bool,
        current_block: u64,
        extra_ok: bool,
    ) -> (r: Result<ValidTransaction, InvalidTransaction>)
        requires
            self.config.min_transaction_weight > 0,
        ensures
            r == unsigned_outcome(*self, *payload, signature_valid, current_block, extra_ok),
    {
        if !signature_valid {
            return Err(InvalidTransaction::BadProof);
        }
        if payload.block_number > current_block {
            return Err(InvalidTransaction::Stale);
        }
        if (payload.block_number as u128) + (self.config.unsigned_lifetime_in_blocks as u128)
            < current_block as u128 {
            return Err(InvalidTransaction::Stale);
        }
        let checked: Result<(), Error> = self.validate_params(
            payload.public,
            payload.asset,
            payload.price,
            extra_ok,
        );
        if checked.is_err() {
            return Err(InvalidTransaction::Call);
        }
        let priority = self.config.unsigned_priority.saturating_add(
            payload.block_number % self.config.min_transaction_weight,
        );
        Ok(
            ValidTransaction {
                priority,
                provides_public: payload.public,
                provides_asset: payload.asset.0,
                longevity: UNSIGNED_LONGEVITY,
                propagate: true,
            },
        )
    }

    /// Takes an unsigned update that passed `validate_unsigned`: checks it
    /// again, adds it to the window at the current block and hands an
    /// accepted price to `sink`.
    pub fn set_price_unsigned<N: OnPriceSet>(
        &mut self,
        payload: &PricePayload,
        current_block: u64,
        now: u64,
        extra_ok: bool,
        sink: &mut N,
    ) -> (r: Result<i64, Error>)
        requires
            old(self).wf(),
        ensures
            final(self).same_settings(old(self)),
            final(self).wf(),
            (r, final(self).table()) == submit_effect(
                *old(self),
                payload.public,
                payload.asset,
                payload.price,
                current_block,
                now,
                extra_ok,
            ),
            final(sink).notified() == notified_after(
                old(sink).notified(),
                r,
                payload.asset,
                payload.price,
            ),
    {
        self.set_price(
            payload.public,
            payload.asset,
            payload.price,
            current_block,
            now,
            extra_ok,
            sink,
        )
    }
}

} // verus!

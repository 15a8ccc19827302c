//! A federated Chaumian e-cash mint core: threshold blind signatures over the
//! BLS12-381 curve, and the consensus replica that sequences and applies
//! client transactions for the federation's mint and wallet modules.

use vstd::prelude::*;

pub mod bls;
pub mod bytes;
pub mod consensus;
pub mod db;
pub mod filter;
pub mod hash;
pub mod mint;
pub mod poly;
pub mod tbs;
pub mod transaction;
pub mod wallet;

verus! {

/// Fee schedule fixed by consensus: every transaction must balance its
/// inputs against its outputs plus these per-item fees.  Each fee is flat
/// per input or output of the named kind.
#[derive(Clone, Copy, Debug)]
pub struct FeeConsensus {
    pub coin_spend_fee: u64,
    pub peg_in_fee: u64,
    pub coin_issuance_fee: u64,
    pub peg_out_fee: u64,
}

impl FeeConsensus {
    /// A schedule where every operation is free.
    pub fn zero() -> (r: FeeConsensus)
        ensures
            r.coin_spend_fee == 0,
            r.peg_in_fee == 0,
            r.coin_issuance_fee == 0,
            r.peg_out_fee == 0,
    {
        FeeConsensus { coin_spend_fee: 0, peg_in_fee: 0, coin_issuance_fee: 0, peg_out_fee: 0 }
    }
}

} // verus!

//! The safety-stock projector: converts a standard deviation into the five
//! service-level safety-stock figures through fixed standard-normal
//! quantiles.
use vstd::prelude::*;

verus! {

/// Standard-normal quantiles in Q4 fixed point, accurate to four
/// significant figures: z(0.95), z(0.97), z(0.98), z(0.99), z(0.999).
pub const Z95: u64 = 16449;

pub const Z97: u64 = 18808;

pub const Z98: u64 = 20537;

pub const Z99: u64 = 23263;

pub const Z999: u64 = 30902;

/// Safety stock at one service level: sigma times the quantile, in Q4.
pub open spec fn safety_stock_spec(sigma: int, z: int) -> int {
    (sigma * z) / 10000
}

/// A standard deviation of zero projects to zero safety stock at every
/// service level.
pub proof fn lemma_safety_zero_sigma(z: int)
    ensures
        safety_stock_spec(0, z) == 0,
{
}

/// The five projected safety-stock figures of one warehouse.
#[derive(Clone, Copy, PartialEq, Eq, Structural, Debug)]
pub struct SafetyStock {
    pub s95: u64,
    pub s97: u64,
    pub s98: u64,
    pub s99: u64,
    pub s999: u64,
}

fn scale_sigma(sigma: u64, z: u64) -> (r: u64)
    requires
        sigma <= 0x4_0000_0000_0000,
        z <= 40000,
    ensures
        r as int == safety_stock_spec(sigma as int, z as int),
        r <= 0x10_0000_0000_0000,
{
    proof {
        assert((sigma as int) * (z as int) <= 0x4_0000_0000_0000int * 40000) by (nonlinear_arith)
            requires
                0 <= sigma as int <= 0x4_0000_0000_0000int,
                0 <= z as int <= 40000,
        ;
        vstd::arithmetic::div_mod::lemma_div_is_ordered(
(            sigma as int) * (z as int),
            0x4_0000_0000_0000int * 40000,
            10000,
        );
        vstd::arithmetic::div_mod::lemma_div_multiples_vanish(0x10_0000_0000_0000int, 10000);
        assert(0x4_0000_0000_0000int * 40000 == 10000 * 0x10_0000_0000_0000int);
    }
    (((sigma as u128) * (z as u128)) / 10000) as u64
}

/// Projects a warehouse's standard deviation into safety stock at the five
/// service levels 95%, 97%, 98%, 99% and 99.9%.
pub fn project_safety(sigma: u64) -> (r: SafetyStock)
    requires
        sigma <= 0x4_0000_0000_0000,
    ensures
        r.s95 as int == safety_stock_spec(sigma as int, Z95 as int),
        r.s97 as int == safety_stock_spec(sigma as int, Z97 as int),
        r.s98 as int == safety_stock_spec(sigma as int, Z98 as int),
        r.s99 as int == safety_stock_spec(sigma as int, Z99 as int),
        r.s999 as int == safety_stock_spec(sigma as int, Z999 as int),
        r.s95 <= 0x10_0000_0000_0000,
        r.s97 <= 0x10_0000_0000_0000,
        r.s98 <= 0x10_0000_0000_0000,
        r.s99 <= 0x10_0000_0000_0000,
        r.s999 <= 0x10_0000_0000_0000,
{
    SafetyStock {
        s95: scale_sigma(sigma, Z95),
        s97: scale_sigma(sigma, Z97),
        s98: scale_sigma(sigma, Z98),
        s99: scale_sigma(sigma, Z99),
        s999: scale_sigma(sigma, Z999),
    }
}

} // verus!

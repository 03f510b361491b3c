//! Conversion of vendor-specific signal encodings to dBm.

use vstd::prelude::*;

verus! {

/// Integer division truncating toward zero, the semantics of `/` on Rust's
/// machine integers.
pub open spec fn trunc_div(a: int, b: int) -> int
    recommends
        b > 0,
{
    if a >= 0 {
        a / b
    } else {
        -((-a) / b)
    }
}

/// dBm from the `Signal level=NN/100` quality encoding of `iwlist`:
/// `((100 * pct) / 100) / 2 - 100` with truncating integer division.
pub open spec fn quality_to_dbm(pct: int) -> int {
    trunc_div(trunc_div(100 * pct, 100), 2) - 100
}

/// dBm from the percentage reported by `netsh`: `pct / 2 - 100` with
/// truncating integer division.
pub open spec fn percent_to_dbm(pct: int) -> int {
    trunc_div(pct, 2) - 100
}

/// Converts a quality percentage (`NN/100`) to dBm.
pub fn percent_to_dbm_quality(pct: i32) -> (r: i32)
    ensures
        r as int == quality_to_dbm(pct as int),
{
    if pct >= 0 {
        let h = (pct as u32) / 2;
        proof {
            assert((100 * (pct as int)) / 100 == pct as int) by (nonlinear_arith)
                requires
                    pct >= 0,
            ;
        }
        (h as i32) - 100
    } else {
        let m = (-(pct as i64)) as u64;
        let h = m / 2;
        proof {
            assert((100 * (m as int)) / 100 == m as int) by (nonlinear_arith)
                requires
                    m >= 0,
            ;
            assert(100 * (pct as int) == -(100 * (m as int)));
        }
        (-(h as i64) - 100) as i32
    }
}

/// Converts a plain percentage to dBm.
pub fn percent_to_dbm_netsh(pct: i32) -> (r: i32)
    ensures
        r as int == percent_to_dbm(pct as int),
{
    if pct >= 0 {
        let h = (pct as u32) / 2;
        (h as i32) - 100
    } else {
        let m = (-(pct as i64)) as u64;
        let h = m / 2;
        (-(h as i64) - 100) as i32
    }
}

} // verus!

//! Integer arithmetic as Rust's `i32` does it.

use vstd::prelude::*;

verus! {

/// Integer division that rounds toward zero, as Rust's `/` on signed integers.
pub open spec fn trunc_div(a: int, b: int) -> int {
    if a >= 0 && b > 0 {
        a / b
    } else if a < 0 && b > 0 {
        -((-a) / b)
    } else if a >= 0 && b < 0 {
        -(a / (-b))
    } else {
        (-a) / (-b)
    }
}

/// A quotient of non-negative numbers lies between zero and the dividend.
pub proof fn lemma_div_bound(x: int, d: int)
    requires
        x >= 0,
        d > 0,
    ensures
        0 <= x / d <= x,
{
    assert(0 <= x / d <= x) by (nonlinear_arith)
        requires
            x >= 0,
            d > 0,
    ;
}

/// `a / b` on `i32`; it panics in Rust on a zero divisor and on `i32::MIN / -1`.
pub fn div_i32(a: i32, b: i32) -> (r: i32)
    requires
        b != 0,
        !(a == i32::MIN && b == -1),
    ensures
        r == trunc_div(a as int, b as int),
{
    proof {
        let x = a as int;
        let d = b as int;
        if x >= 0 && d > 0 {
            lemma_div_bound(x, d);
        } else if x < 0 && d > 0 {
            lemma_div_bound(-x, d);
        } else if x >= 0 && d < 0 {
            lemma_div_bound(x, -d);
        } else {
            lemma_div_bound(-x, -d);
            if d != -1 {
                assert((-x) / (-d) <= (-x) / 2) by (nonlinear_arith)
                    requires
                        -x >= 0,
                        -d >= 2,
                ;
            }
        }
    }
    match a.checked_div(b) {
        Some(q) => q,
        None => 0,
    }
}

} // verus!

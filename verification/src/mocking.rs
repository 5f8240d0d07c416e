//! The squaring seam again, with the logger taken by value: the shape a
//! mocking library generates test doubles for.

use vstd::prelude::*;

verus! {

/// A sink for log lines, consumed by the computation that uses it.
pub trait Logger {
    fn log(&self, msg: &str);
}

/// Squares `x`, reporting the step to the logger it consumes.  The bound
/// on `x` is exactly what keeps the square inside `i32`.
pub fn square<L: Logger>(x: i32, logger: L) -> (r: i32)
    requires
        -46340 <= x <= 46340,
    ensures
        r == x * x,
{
    proof {
        assert(x * x <= 46340 * 46340) by (nonlinear_arith)
            requires
                -46340 <= x <= 46340,
        ;
        assert(x * x >= 0) by (nonlinear_arith);
    }
    let y = x * x;
    let line = crate::logging::square_log_line(x, y);
    logger.log(line.as_str());
    y
}

} // verus!

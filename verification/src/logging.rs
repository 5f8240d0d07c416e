//! Squaring with a pluggable logging seam: the computation is verified,
//! and the log sink is a trait the caller implements (a console logger in
//! a binary, a silent or recording logger in a test).

use vstd::prelude::*;

verus! {

/// A sink for log lines.  Implementations decide what a message's side
/// effect is; the library promises nothing about it.
pub trait Logger {
    fn log(&self, msg: &str);
}

/// Relies on `format!` (std's formatting of two `i32` values) to render
/// the log line for a squaring step.
#[verifier::external_body]
pub(crate) fn square_log_line(x: i32, y: i32) -> String {
    format!("{}^2 == {}", x, y)
}

/// Squares `x`, reporting the step to the logger.  The bound on `x` is
/// exactly what keeps the square inside `i32`.
pub fn square<TLog: Logger>(x: i32, logger: &TLog) -> (r: i32)
    requires
        -46340 <= x <= 46340,
    ensures
        r == x * x,
{
    proof {
        assert(x * x <= 46340 * 46340) by (nonlinear_arith)
            requires
                -46340 <= x <= 46340,
        ;
        assert(x * x >= 0) by (nonlinear_arith);
    }
    let y = x * x;
    let line = square_log_line(x, y);
    logger.log(line.as_str());
    y
}

} // verus!

use vstd::prelude::*;

verus! {

/// Immutable run configuration: grid geometry, value ceiling and time step.
///
/// `max_value_milli` is the value-axis ceiling in thousandths of a unit and
/// `step_ms` the time span of one column in milliseconds.
#[derive(Clone, Copy, PartialEq, Eq, Structural, Debug)]
pub struct Config {
    pub columns: u16,
    pub rows: u16,
    pub max_value_milli: i64,
    pub step_ms: i64,
}

impl Config {
    /// A usable configuration: a grid of at least 2 x 2, a positive value
    /// ceiling and step, and a visible window that fits in an `i64`.
    pub open spec fn valid(self) -> bool {
        &&& self.columns >= 2
        &&& self.rows >= 2
        &&& self.max_value_milli >= 1
        &&& self.step_ms >= 1
        &&& self.step_ms as int * self.columns as int <= i64::MAX as int
    }

    /// Width of the visible time window in milliseconds.
    pub open spec fn window_ms(self) -> int {
        self.step_ms as int * self.columns as int
    }

    /// Builds a configuration, or returns `None` when the parameters do not
    /// describe a usable one.
    pub fn new(columns: u16, rows: u16, max_value_milli: i64, step_ms: i64) -> (r: Option<Config>)
        ensures
            (match r {
                Some(c) => c == (Config { columns, rows, max_value_milli, step_ms }) && c.valid(),
                None => !(Config { columns, rows, max_value_milli, step_ms }).valid(),
            }),
    {
        if columns >= 2 && rows >= 2 && max_value_milli >= 1 && step_ms >= 1 {
            proof {
                assert(step_ms as int * columns as int <= i64::MAX as int * 65535int)
                    by (nonlinear_arith)
                    requires
                        1 <= step_ms as int <= i64::MAX as int,
                        0 <= columns as int <= 65535int,
                ;
            }
            let window: i128 = (step_ms as i128) * (columns as i128);
            if window <= i64::MAX as i128 {
                Some(Config { columns, rows, max_value_milli, step_ms })
            } else {
                None
            }
        } else {
            None
        }
    }
}

} // verus!

//! Bookkeeping of which initialisation steps a sensor asked for, and the
//! small arithmetic and test-runner helpers of the sensor logic.

use vstd::prelude::*;

verus! {

/// Tracks which setup routines of a sensor have been requested.
pub struct CallsFunct {
    pub init_sensor_timer: bool,
    pub init_spi: bool,
    pub init_twi: bool,
    pub update_value: bool,
    pub configure_sensor: bool,
}

/// Marks a sensor as configured: its timer and SPI bus are to be
/// initialised; the TWI bus and the value update are left as they were.
pub fn config_sensor(cf: &mut CallsFunct)
    ensures
        final(cf).init_sensor_timer,
        final(cf).configure_sensor,
        final(cf).init_spi,
        final(cf).init_twi == old(cf).init_twi,
        final(cf).update_value == old(cf).update_value,
{
    cf.init_sensor_timer = true;
    cf.configure_sensor = true;
    cf.init_spi = true;
}

/// Sum of two bytes; the sum must fit in a byte (an overflowing sum panics).
pub fn add(left: u8, right: u8) -> (sum: u8)
    requires
        left + right <= u8::MAX,
    ensures
        sum == left + right,
{
    left + right
}

/// Runs over registered test values, a value of zero standing for a passed
/// test. The outcome of each is looked at and not reported anywhere.
pub fn my_runner(tests: &[&i32]) {
    let mut i: usize = 0;
    while i < tests.len()
        invariant
            i <= tests@.len(),
        decreases tests@.len() - i,
    {
        if *tests[i] == 0 {
        } else {
        }
        i = i + 1;
    }
}

} // verus!

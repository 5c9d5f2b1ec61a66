pub mod constraints;
pub mod sizes;

pub use self::constraints::{max_for_bits, used_bits, BitsConstraintError, ConstrainedNum};
pub use self::sizes::{CalculationsType, FREQUENCY_BITS, INTERVAL_BITS};

pub mod rt;
pub mod time;

pub use rt::clock::{AdvanceClock, AdvanceToNextWake};
pub use rt::task::WakeTask;
pub use time::instant::Instant;

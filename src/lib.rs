//! Clock and interrupt core of a small kernel: a table of interrupt hooks
//! chained per IRQ line, their registration, the dispatch of a firing line,
//! the programming of the interval timer, and the clock tick handler.
use vstd::prelude::*;

pub mod clock;
pub mod dispatch;
pub mod process;
pub mod table;
pub mod timer;

pub use clock::{HardwareError, InitError, Kernel, CLOCK_TASK};
pub use dispatch::{DispatchReport, HandlerStatus, HookHandler};
pub use process::sys_wait;
pub use table::{
    Handler, Hook, IrqTable, RegistrationError, CLOCK_IRQ, IRQ_REENABLE, MAX_HOOK_IDS,
    NR_IRQ_VECTORS,
};
pub use timer::{configure_timer, PortWrite, HZ, SQUARE_WAVE, TIMER0, TIMER_FREQUENCY, TIMER_MODE};

verus! {

} // verus!

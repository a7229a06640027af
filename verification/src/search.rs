pub mod constants;
pub mod options;
pub mod pv;
pub mod thread;
pub mod utils;
pub mod eval;
pub mod evaluate;

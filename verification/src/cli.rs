//! The command line's decisions: which arguments it accepts, how much input it takes, what
//! it reports and how a run ends. Reading, printing and running belong to the program.

pub mod input;
pub mod inspect;
pub mod laws;
pub mod options;
pub mod run;

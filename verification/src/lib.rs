//! Process-control and breakpoint engine of a native command-line
//! debugger — raw memory patching, instruction-pointer rewinding, and
//! re-arming of software breakpoints across run/continue/restart/kill
//! cycles — together with verified cores for an upstream health tracker,
//! a per-client rate limiter, process inspection, and worker-pool
//! utilities.

pub mod breakpoint_set;
pub mod client;
pub mod controller;
pub mod farm;
pub mod hangman;
pub mod inferior;
pub mod parse;
pub mod pmap;
pub mod procinfo;
pub mod upstream;
pub mod word;

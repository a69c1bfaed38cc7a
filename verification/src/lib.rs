//! Verified core of a web-socket terminal: command-line lexing, variable
//! interpolation, escaping, wildcard matching, name completion and the
//! decisions of the terminal session loop.

pub mod text;
pub mod escape;
pub mod wildcard;
pub mod complete;
pub mod strmap;
pub mod interp;
pub mod cmdline;
pub mod alias;
pub mod paths;
pub mod session;
pub mod process;

pub use escape::unescape;
pub use wildcard::split_at_star;

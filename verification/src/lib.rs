//! Verified logic of a collection of small Unix programs: a shell's
//! variable table and command decisions, the argument collector of the
//! prompting shells, a directory lister's formatting, a calculator front
//! end, a tiny web server's request routing, two ticket (license) servers
//! and their clients, and the state machines of a few terminal animations.

pub mod text;
pub mod shell;
pub mod psh;
pub mod tickets;
pub mod counted;
pub mod client;
pub mod webserv;
pub mod remote;
pub mod calc;
pub mod ls;
pub mod fileinfo;
pub mod pwd;
pub mod tty;
pub mod wait;
pub mod bounce;

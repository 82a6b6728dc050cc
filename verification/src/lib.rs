//! Verified core of the LiteOS-A kernel extensions written in Rust:
//! error codes, kernel heap boxes, C-string helpers, the `cpup` shell
//! command, the blackbox fault log, the hidumper dumps and the trace agent.
#![allow(non_snake_case)]

pub mod types;
pub mod heap;
pub mod cstr;
pub mod fmt;
pub mod cpup;
pub mod trace;
pub mod blackbox;
pub mod hidumper;

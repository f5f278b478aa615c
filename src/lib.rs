//! Architectural capability permissions for CHERI-style systems, with the
//! rule that decides how a pointer validation request is forwarded.

pub mod arith;
pub mod perms;

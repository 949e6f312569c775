//! Performance history: session documents (XSPF), derived exports and the
//! session index rows.

pub mod xspf;
pub mod export;
pub mod parse;
pub mod store;
pub mod recorder;
pub mod session;

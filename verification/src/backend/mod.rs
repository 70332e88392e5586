//! The compositor backend's own logic: window bookkeeping for xdg-shell
//! toplevels and the backend's error type.
pub mod runtime;
pub mod state;

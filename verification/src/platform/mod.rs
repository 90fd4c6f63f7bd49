//! Platform adapters: an in-memory backend for tests and local work, and
//! the rules of the shell-script backend.
pub mod linux_shell;
pub mod mock;

//! A hook-chain manager: turns a host's single-slot callback registries into
//! ordered, inspectable, individually toggleable chains of handlers, with a
//! companion decorator chain for output rewriters, plus the data model of the
//! extension catalogue that the surrounding tooling reads.
//!
//! Callback values are carried as plain `u64` identities — what the host's
//! global function-pointer slots hold, with `0` for an empty slot — so every
//! decision the manager takes about them is stated and proved over plain
//! values.

pub mod api;
pub mod cli;
pub mod dispatch;
pub mod hook_mgr;
pub mod manager;
pub mod output_rewriter;
pub mod plugin;
pub mod resolve_pgxs;
pub mod status;
pub mod text;

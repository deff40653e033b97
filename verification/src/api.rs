//! The per-extension handle the manager hands back from the first lifecycle
//! call: it names the owning extension and carries the one registration
//! entry point chained extensions may call.

use vstd::prelude::*;

use crate::hook_mgr::HookError;
use crate::manager::{register_rewriter_post, Manager};
use crate::output_rewriter::OutputRewriter;

verus! {

/// The opaque per-owner handle handed to a loading extension.
pub struct PgExtApi {
    /// The owning extension's name.
    pub plugin: String,
}

impl PgExtApi {
    /// A handle for the named extension.
    pub fn new(plugin: String) -> (r: Self)
        ensures
            r.plugin == plugin,
    {
        PgExtApi { plugin }
    }

    /// Register an output rewriter under this handle's owner; see
    /// [`Manager::register_output_rewriter`].
    pub fn register_output_rewriter(&self, mgr: &mut Manager, rewriter: &OutputRewriter) -> (r:
        Result<(), HookError>)
        requires
            old(mgr).wf(),
            rewriter.receive_slot is Some,
        ensures
            final(mgr).wf(),
            register_rewriter_post(*old(mgr), *final(mgr), self.plugin@, *rewriter, r),
    {
        mgr.register_output_rewriter(self.plugin.clone(), *rewriter)
    }
}

} // verus!

//! Per-interception-point hook registry with two-phase registration.
//!
//! The host exposes one global callback slot per interception point; the last
//! writer silently replaces all previous writers.  `HookMgr` turns that slot
//! into an ordered chain of `(owner, handler)` entries.  Registration is a
//! two-phase handshake: `before_register` reserves a trampoline identity from
//! a fixed pool and hands it to the extension as its "previous hook";
//! `after_register` then inspects what the extension left in the slot to
//! decide whether the extension claimed the slot (append a `Compatible`
//! entry), registered through the managed interface (`PgExt` entry, already
//! appended by `register`), or never touched the slot (roll the reservation
//! back, leaving no trace).

use vstd::prelude::*;

verus! {

/// A handler registered under one owner at one interception point.
#[derive(Clone, Copy, PartialEq, Eq, Structural, Debug)]
pub enum HookType {
    /// Compatible mode, when the extension registered its hook the original
    /// way: a plain replacement-style callback, unaware of chaining.
    Compatible(u64),
    /// PgExt mode, where the extension registered a before/after pair that
    /// brackets the rest of the chain.
    PgExt(u64, u64),
}

/// How a registry operation fails.
///
/// `TooManyExtensions` and `ExtensionRegisteredTwice` are the fatal class: a
/// misconfiguration discovered at extension-load time, which the embedding is
/// expected to turn into an abort.  `UnknownExtension` is the lookup class: a
/// plain error reported back to the caller.
#[derive(Clone, Copy, PartialEq, Eq, Structural, Debug)]
pub enum HookError {
    /// The trampoline pool has no spare identity: the compile-time ceiling on
    /// coexisting extensions at this interception point is reached.
    TooManyExtensions,
    /// The same owner registered twice at the same interception point.
    ExtensionRegisteredTwice,
    /// An enable/disable request named an owner that never registered.
    UnknownExtension,
}

/// The mathematical state of a [`HookMgr`]: owners as character sequences,
/// the pool and the chain as sequences.
#[verifier::ext_equal]
pub struct HookChainModel {
    /// The trampoline pool of callback identities.
    pub pool: Seq<u64>,
    /// The chain of `(owner, handler)` entries, in registration order.
    pub hooks: Seq<(Seq<char>, HookType)>,
    /// Number of pool identities currently reserved.
    pub next_hook_id: int,
    /// Whether the in-flight registration went through the managed interface.
    pub registered: bool,
    /// Pending `(override_with, prev_hook)` context of the handshake.
    pub prev_hook: Option<(u64, u64)>,
}

impl HookChainModel {
    /// The registry never hands out more identities than the pool holds, and
    /// a pending reservation implies at least one identity is reserved.
    pub open spec fn wf(self) -> bool {
        &&& 0 <= self.next_hook_id <= self.pool.len()
        &&& (self.prev_hook is Some ==> 1 <= self.next_hook_id)
    }

    /// The identity handed out by the most recent `before_register`.
    pub open spec fn handed_out(self) -> u64 {
        self.pool[self.next_hook_id - 1]
    }

    /// Reservation step: reserve the next pool identity and record the
    /// pending context, or fail with the capacity error when the pool is
    /// exhausted, leaving the state unchanged.
    pub open spec fn spec_before_register(self, override_with: u64, prev_hook: u64) -> (Self,
        Result<u64, HookError>) {
        if self.next_hook_id < self.pool.len() {
            (
                Self {
                    next_hook_id: self.next_hook_id + 1,
                    registered: false,
                    prev_hook: Some((override_with, prev_hook)),
                    ..self
                },
                Ok(self.pool[self.next_hook_id]),
            )
        } else {
            (self, Err(HookError::TooManyExtensions))
        }
    }

    /// Decision step.  With `(override_with, prev)` the pending context and
    /// `hook` the slot value the extension left behind:
    /// - slot still holds the handed-out identity and the owner registered
    ///   through the managed interface: keep the entry `register` appended
    ///   and install the dispatcher (`override_with`);
    /// - slot still holds the handed-out identity and nothing was registered:
    ///   the owner does not use this interception point; roll the reservation
    ///   back and restore the original slot value (`prev`);
    /// - slot holds a new value: append a `Compatible` entry for the owner
    ///   and install the dispatcher;
    /// - slot holds a new value although the owner already registered through
    ///   the managed interface: double registration, the fatal error, state
    ///   unchanged.
    pub open spec fn spec_after_register(self, plugin: Seq<char>, hook: u64) -> (Self, Result<
        u64,
        HookError,
    >) {
        let (override_with, prev) = self.prev_hook->Some_0;
        if hook == self.handed_out() {
            if self.registered {
                (Self { prev_hook: None, ..self }, Ok(override_with))
            } else {
                (Self { prev_hook: None, next_hook_id: self.next_hook_id - 1, ..self }, Ok(prev))
            }
        } else {
            if self.registered {
                (self, Err(HookError::ExtensionRegisteredTwice))
            } else {
                (
                    Self {
                        prev_hook: None,
                        hooks: self.hooks.push((plugin, HookType::Compatible(hook))),
                        ..self
                    },
                    Ok(override_with),
                )
            }
        }
    }

    /// Managed registration step: append a before/after pair and mark the
    /// in-flight registration as claimed, or fail when it already was.
    pub open spec fn spec_register(self, plugin: Seq<char>, before: u64, after: u64) -> (Self,
        Result<(), HookError>) {
        if self.registered {
            (self, Err(HookError::ExtensionRegisteredTwice))
        } else {
            (
                Self {
                    registered: true,
                    hooks: self.hooks.push((plugin, HookType::PgExt(before, after))),
                    ..self
                },
                Ok(()),
            )
        }
    }
}

/// Ordered registry of hook handlers for one interception point.
pub struct HookMgr {
    /// The trampoline pool: pre-generated, statically distinct callback
    /// identities, one of which is handed out per registering extension.
    pub available_callbacks: Vec<u64>,
    /// The chain, in registration (= extension load) order.
    pub hooks: Vec<(String, HookType)>,
    /// Number of pool identities currently reserved.
    pub next_hook_id: usize,
    /// Whether the extension currently between `before_register` and
    /// `after_register` has registered through the managed interface.
    pub registered: bool,
    /// The pending reservation context `(override_with, prev_hook)` recorded
    /// by `before_register` and consumed by `after_register`.
    pub prev_hook: Option<(u64, u64)>,
}

impl View for HookMgr {
    type V = HookChainModel;

    open spec fn view(&self) -> HookChainModel {
        HookChainModel {
            pool: self.available_callbacks@,
            hooks: self.hooks@.map_values(|e: (String, HookType)| (e.0@, e.1)),
            next_hook_id: self.next_hook_id as int,
            registered: self.registered,
            prev_hook: self.prev_hook,
        }
    }
}

impl HookMgr {
    /// Well-formedness of the registry, stated on its model.
    pub open spec fn wf(self) -> bool {
        self@.wf()
    }

    /// A fresh registry over the given trampoline pool.
    pub fn new(available_callbacks: Vec<u64>) -> (r: Self)
        ensures
            r@.pool == available_callbacks@,
            r@.hooks =~= Seq::<(Seq<char>, HookType)>::empty(),
            r@.next_hook_id == 0,
            r@.registered == false,
            r@.prev_hook is None,
            r.wf(),
    {
        let r = Self {
            available_callbacks,
            hooks: Vec::new(),
            next_hook_id: 0,
            registered: false,
            prev_hook: None,
        };
        proof {
            assert(r@.hooks =~= Seq::<(Seq<char>, HookType)>::empty());
        }
        r
    }

    /// First phase of the handshake: reserve a trampoline identity for the
    /// extension about to initialize, and remember `(override_with,
    /// prev_hook)` so the second phase can either install the dispatcher or
    /// restore the slot.  Fails with the capacity error — never by
    /// overwriting another owner's identity — when the pool is exhausted.
    pub fn before_register(&mut self, override_with: u64, prev_hook: u64) -> (r: Result<
        u64,
        HookError,
    >)
        requires
            old(self).wf(),
        ensures
            final(self)@ == old(self)@.spec_before_register(override_with, prev_hook).0,
            r == old(self)@.spec_before_register(override_with, prev_hook).1,
            final(self).wf(),
            r is Err <==> old(self)@.next_hook_id == old(self)@.pool.len(),
            r is Err ==> *final(self) == *old(self),
    {
        if self.next_hook_id < self.available_callbacks.len() {
            let cb = self.available_callbacks[self.next_hook_id];
            self.registered = false;
            self.next_hook_id = self.next_hook_id + 1;
            self.prev_hook = Some((override_with, prev_hook));
            proof {
                assert(self@ =~= old(self)@.spec_before_register(override_with, prev_hook).0);
            }
            Ok(cb)
        } else {
            Err(HookError::TooManyExtensions)
        }
    }

    /// Second phase of the handshake: `hook` is what the extension left in
    /// the host's global slot after its own initialization ran.  Returns the
    /// value to (re)install into the slot; see
    /// [`HookChainModel::spec_after_register`] for the full case split.
    pub fn after_register(&mut self, plugin: String, hook: u64) -> (r: Result<u64, HookError>)
        requires
            old(self).wf(),
            old(self)@.prev_hook is Some,
        ensures
            final(self)@ == old(self)@.spec_after_register(plugin@, hook).0,
            r == old(self)@.spec_after_register(plugin@, hook).1,
            final(self).wf(),
            r is Err <==> hook != old(self)@.handed_out() && old(self)@.registered,
            r is Err ==> *final(self) == *old(self),
    {
        let ghost pre = self@;
        let (override_with, prev) = self.prev_hook.unwrap();
        let handed = self.available_callbacks[self.next_hook_id - 1];
        if hook == handed {
            self.prev_hook = None;
            if self.registered {
                proof {
                    assert(self@ =~= pre.spec_after_register(plugin@, hook).0);
                }
                Ok(override_with)
            } else {
                // the extension is not using this hook
                self.next_hook_id = self.next_hook_id - 1;
                proof {
                    assert(self@ =~= pre.spec_after_register(plugin@, hook).0);
                }
                Ok(prev)
            }
        } else {
            if self.registered {
                Err(HookError::ExtensionRegisteredTwice)
            } else {
                self.prev_hook = None;
                self.hooks.push((plugin, HookType::Compatible(hook)));
                proof {
                    assert(self@.hooks =~= pre.hooks.push((plugin@, HookType::Compatible(hook))));
                    assert(self@ =~= pre.spec_after_register(plugin@, hook).0);
                }
                Ok(override_with)
            }
        }
    }

    /// Managed registration: append a before/after pair for `plugin` and mark
    /// the in-flight registration as claimed, so `after_register` keeps the
    /// entry.  Fails with the double-registration error when the in-flight
    /// owner already registered at this point.
    pub fn register(&mut self, plugin: String, before: u64, after: u64) -> (r: Result<
        (),
        HookError,
    >)
        requires
            old(self).wf(),
        ensures
            final(self)@ == old(self)@.spec_register(plugin@, before, after).0,
            r == old(self)@.spec_register(plugin@, before, after).1,
            final(self).wf(),
            r is Err <==> old(self)@.registered,
            r is Err ==> *final(self) == *old(self),
    {
        if self.registered {
            Err(HookError::ExtensionRegisteredTwice)
        } else {
            let ghost pre = self@;
            self.registered = true;
            self.hooks.push((plugin, HookType::PgExt(before, after)));
            proof {
                assert(self@.hooks =~= pre.hooks.push((plugin@, HookType::PgExt(before, after))));
                assert(self@ =~= pre.spec_register(plugin@, before, after).0);
            }
            Ok(())
        }
    }

    /// The chain, in registration order.
    pub fn hooks(&self) -> (r: &Vec<(String, HookType)>)
        ensures
            r == &self.hooks,
            r@.map_values(|e: (String, HookType)| (e.0@, e.1)) == self@.hooks,
    {
        &self.hooks
    }
}

/// Rollback law: an extension that leaves the slot exactly as it was handed
/// out, and never registers through the managed interface, leaves the chain
/// and the reserved counter exactly as they were before its
/// `before_register`/`after_register` pair ran — no phantom entry, no leaked
/// identity — and the slot gets back its original value.
pub proof fn lemma_rollback_restores(
    m: HookChainModel,
    override_with: u64,
    prev_hook: u64,
    plugin: Seq<char>,
)
    requires
        m.wf(),
        m.next_hook_id < m.pool.len(),
    ensures
        ({
            let (m1, r1) = m.spec_before_register(override_with, prev_hook);
            let (m2, r2) = m1.spec_after_register(plugin, r1->Ok_0);
            &&& m2.hooks == m.hooks
            &&& m2.next_hook_id == m.next_hook_id
            &&& m2.pool == m.pool
            &&& m2.prev_hook is None
            &&& r2 == Ok::<u64, HookError>(prev_hook)
        }),
{
}

} // verus!

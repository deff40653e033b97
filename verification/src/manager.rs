//! The process-wide manager: five hook chains, the owner status table, the
//! registered output rewriters, and the extension-facing lifecycle calls.
//!
//! Each loading extension is bracketed by [`Manager::before_init`] and
//! [`Manager::after_init`].  The first reserves one trampoline identity per
//! interception point and hands the identities back as the values to install
//! into the host's global slots — the extension is deceived into taking a
//! trampoline for "the previous hook".  The second compares what each slot
//! holds after the extension's own initialization against what was handed
//! out, folds the result into the chains, and returns the values to
//! (re)install.

use vstd::prelude::*;

use crate::hook_mgr::{HookChainModel, HookError, HookMgr, HookType};
use crate::output_rewriter::{OutputRewriter, RewriterEntry, RewriterEntryModel};
use crate::status::{spec_lookup, spec_set, spec_set_all, StatusTable};
use crate::text::str_eq;

verus! {

/// The value of each interception point's global callback slot.
#[derive(Clone, Copy, PartialEq, Eq, Structural, Debug)]
pub struct HookSlots {
    /// The planning slot.
    pub planner: u64,
    /// The execution-start slot.
    pub executor_start: u64,
    /// The execution-run slot.
    pub executor_run: u64,
    /// The execution-finish slot.
    pub executor_finish: u64,
    /// The execution-end slot.
    pub executor_end: u64,
}

/// One hook chain per interception point, plus the registered output
/// rewriters.
pub struct AllHooks {
    /// The planning chain.
    pub planner_hook: HookMgr,
    /// The execution-start chain.
    pub executor_start_hook: HookMgr,
    /// The execution-run chain.
    pub executor_run_hook: HookMgr,
    /// The execution-finish chain.
    pub executor_finish_hook: HookMgr,
    /// The execution-end chain.
    pub executor_end_hook: HookMgr,
    /// The registered output rewriters, in registration order.
    pub rewriters: Vec<RewriterEntry>,
}

impl AllHooks {
    /// All five chains are well-formed and every rewriter has a row
    /// callback.
    pub open spec fn wf(self) -> bool {
        &&& self.planner_hook.wf()
        &&& self.executor_start_hook.wf()
        &&& self.executor_run_hook.wf()
        &&& self.executor_finish_hook.wf()
        &&& self.executor_end_hook.wf()
        &&& forall|i: int|
            0 <= i < self.rewriters@.len() ==> (#[trigger] self.rewriters@[i]).rewriter.receive_slot
                is Some
    }

    /// Fresh chains over the five trampoline pools, with no rewriters.
    pub fn new(a: Vec<u64>, b: Vec<u64>, c: Vec<u64>, d: Vec<u64>, e: Vec<u64>) -> (r: Self)
        ensures
            r.planner_hook@ == (HookChainModel {
                pool: a@,
                hooks: Seq::empty(),
                next_hook_id: 0,
                registered: false,
                prev_hook: None,
            }),
            r.executor_start_hook@ == (HookChainModel {
                pool: b@,
                hooks: Seq::empty(),
                next_hook_id: 0,
                registered: false,
                prev_hook: None,
            }),
            r.executor_run_hook@ == (HookChainModel {
                pool: c@,
                hooks: Seq::empty(),
                next_hook_id: 0,
                registered: false,
                prev_hook: None,
            }),
            r.executor_finish_hook@ == (HookChainModel {
                pool: d@,
                hooks: Seq::empty(),
                next_hook_id: 0,
                registered: false,
                prev_hook: None,
            }),
            r.executor_end_hook@ == (HookChainModel {
                pool: e@,
                hooks: Seq::empty(),
                next_hook_id: 0,
                registered: false,
                prev_hook: None,
            }),
            r.rewriters@ =~= Seq::<RewriterEntry>::empty(),
            r.wf(),
    {
        let r = Self {
            planner_hook: HookMgr::new(a),
            executor_start_hook: HookMgr::new(b),
            executor_run_hook: HookMgr::new(c),
            executor_finish_hook: HookMgr::new(d),
            executor_end_hook: HookMgr::new(e),
            rewriters: Vec::new(),
        };
        proof {
            assert(r.planner_hook@ =~= (HookChainModel {
                pool: r.planner_hook@.pool,
                hooks: Seq::empty(),
                next_hook_id: 0,
                registered: false,
                prev_hook: None,
            }));
            assert(r.executor_start_hook@ =~= (HookChainModel {
                pool: r.executor_start_hook@.pool,
                hooks: Seq::empty(),
                next_hook_id: 0,
                registered: false,
                prev_hook: None,
            }));
            assert(r.executor_run_hook@ =~= (HookChainModel {
                pool: r.executor_run_hook@.pool,
                hooks: Seq::empty(),
                next_hook_id: 0,
                registered: false,
                prev_hook: None,
            }));
            assert(r.executor_finish_hook@ =~= (HookChainModel {
                pool: r.executor_finish_hook@.pool,
                hooks: Seq::empty(),
                next_hook_id: 0,
                registered: false,
                prev_hook: None,
            }));
            assert(r.executor_end_hook@ =~= (HookChainModel {
                pool: r.executor_end_hook@.pool,
                hooks: Seq::empty(),
                next_hook_id: 0,
                registered: false,
                prev_hook: None,
            }));
        }
        r
    }
}

/// One chain advanced by a reservation step: `post` is `pre` after
/// `spec_before_register(override_with, prev)`, and `out` is the trampoline
/// identity it handed out.
pub open spec fn chain_reserved(
    pre: HookChainModel,
    post: HookChainModel,
    override_with: u64,
    prev: u64,
    out: u64,
) -> bool {
    &&& post == pre.spec_before_register(override_with, prev).0
    &&& Ok::<u64, HookError>(out) == pre.spec_before_register(override_with, prev).1
}

/// One chain advanced by a decision step: `post` is `pre` after
/// `spec_after_register(plugin, slot)`, and `out` is the value to reinstall
/// into the slot.
pub open spec fn chain_decided(
    pre: HookChainModel,
    post: HookChainModel,
    plugin: Seq<char>,
    slot: u64,
    out: u64,
) -> bool {
    &&& post == pre.spec_after_register(plugin, slot).0
    &&& Ok::<u64, HookError>(out) == pre.spec_after_register(plugin, slot).1
}

/// The process-wide registry: extension load order, per-owner status, the
/// five chains, the manager's own dispatcher identities, and its rewriter
/// bracket callbacks.
pub struct Manager {
    /// Owners in extension load order.
    pub installed_plugins: Vec<String>,
    /// Per-owner enabled flag.
    pub installed_plugins_status: StatusTable,
    /// The five chains and the rewriters.
    pub all_hooks: AllHooks,
    /// Per interception point, the manager's own dispatch entry: the value
    /// installed into the host slot once a chain is in use.
    pub overrides: HookSlots,
    /// The manager's own before callback bracketing the execution-run chain
    /// for the rewriter machinery.
    pub rewriter_before_run: u64,
    /// The manager's own after callback for the rewriter machinery.
    pub rewriter_after_run: u64,
}

impl Manager {
    /// Chains and rewriters are well-formed.
    pub open spec fn wf(self) -> bool {
        self.all_hooks.wf()
    }

    /// Every chain still has a spare trampoline identity.
    pub open spec fn has_capacity(self) -> bool {
        &&& self.all_hooks.planner_hook@.next_hook_id < self.all_hooks.planner_hook@.pool.len()
        &&& self.all_hooks.executor_start_hook@.next_hook_id
            < self.all_hooks.executor_start_hook@.pool.len()
        &&& self.all_hooks.executor_run_hook@.next_hook_id
            < self.all_hooks.executor_run_hook@.pool.len()
        &&& self.all_hooks.executor_finish_hook@.next_hook_id
            < self.all_hooks.executor_finish_hook@.pool.len()
        &&& self.all_hooks.executor_end_hook@.next_hook_id
            < self.all_hooks.executor_end_hook@.pool.len()
    }

    /// Every chain has a pending reservation: `before_init` ran and
    /// `after_init` has not yet consumed it.
    pub open spec fn mid_registration(self) -> bool {
        &&& self.all_hooks.planner_hook@.prev_hook is Some
        &&& self.all_hooks.executor_start_hook@.prev_hook is Some
        &&& self.all_hooks.executor_run_hook@.prev_hook is Some
        &&& self.all_hooks.executor_finish_hook@.prev_hook is Some
        &&& self.all_hooks.executor_end_hook@.prev_hook is Some
        &&& self.installed_plugins@.len() > 0
    }

    /// No chain is in the double-registration state the decision step treats
    /// as fatal: wherever an extension moved a slot away from the handed-out
    /// identity, it did not also register through the managed interface.
    pub open spec fn no_double_registration(self, slots: HookSlots) -> bool {
        &&& (slots.planner == self.all_hooks.planner_hook@.handed_out()
            || !self.all_hooks.planner_hook@.registered)
        &&& (slots.executor_start == self.all_hooks.executor_start_hook@.handed_out()
            || !self.all_hooks.executor_start_hook@.registered)
        &&& (slots.executor_run == self.all_hooks.executor_run_hook@.handed_out()
            || !self.all_hooks.executor_run_hook@.registered)
        &&& (slots.executor_finish == self.all_hooks.executor_finish_hook@.handed_out()
            || !self.all_hooks.executor_finish_hook@.registered)
        &&& (slots.executor_end == self.all_hooks.executor_end_hook@.handed_out()
            || !self.all_hooks.executor_end_hook@.registered)
    }

    /// A fresh manager over the five trampoline pools, with the manager's
    /// own dispatcher identities and rewriter bracket callbacks.
    pub fn new(
        a: Vec<u64>,
        b: Vec<u64>,
        c: Vec<u64>,
        d: Vec<u64>,
        e: Vec<u64>,
        overrides: HookSlots,
        rewriter_before_run: u64,
        rewriter_after_run: u64,
    ) -> (r: Self)
        ensures
            r.installed_plugins@ =~= Seq::<String>::empty(),
            r.installed_plugins_status@ =~= Seq::<(Seq<char>, bool)>::empty(),
            r.all_hooks.planner_hook@.pool == a@,
            r.all_hooks.executor_start_hook@.pool == b@,
            r.all_hooks.executor_run_hook@.pool == c@,
            r.all_hooks.executor_finish_hook@.pool == d@,
            r.all_hooks.executor_end_hook@.pool == e@,
            r.all_hooks.planner_hook@.hooks =~= Seq::<(Seq<char>, HookType)>::empty(),
            r.all_hooks.executor_start_hook@.hooks =~= Seq::<(Seq<char>, HookType)>::empty(),
            r.all_hooks.executor_run_hook@.hooks =~= Seq::<(Seq<char>, HookType)>::empty(),
            r.all_hooks.executor_finish_hook@.hooks =~= Seq::<(Seq<char>, HookType)>::empty(),
            r.all_hooks.executor_end_hook@.hooks =~= Seq::<(Seq<char>, HookType)>::empty(),
            r.all_hooks.planner_hook@.next_hook_id == 0,
            r.all_hooks.executor_start_hook@.next_hook_id == 0,
            r.all_hooks.executor_run_hook@.next_hook_id == 0,
            r.all_hooks.executor_finish_hook@.next_hook_id == 0,
            r.all_hooks.executor_end_hook@.next_hook_id == 0,
            r.all_hooks.planner_hook@.prev_hook is None,
            r.all_hooks.executor_start_hook@.prev_hook is None,
            r.all_hooks.executor_run_hook@.prev_hook is None,
            r.all_hooks.executor_finish_hook@.prev_hook is None,
            r.all_hooks.executor_end_hook@.prev_hook is None,
            r.all_hooks.executor_run_hook@.registered == false,
            r.all_hooks.rewriters@ =~= Seq::<RewriterEntry>::empty(),
            r.overrides == overrides,
            r.rewriter_before_run == rewriter_before_run,
            r.rewriter_after_run == rewriter_after_run,
            r.wf(),
    {
        Self {
            installed_plugins: Vec::new(),
            installed_plugins_status: StatusTable::new(),
            all_hooks: AllHooks::new(a, b, c, d, e),
            overrides,
            rewriter_before_run,
            rewriter_after_run,
        }
    }

    /// First lifecycle call, made as extension `name` begins loading with
    /// the host's slots holding `slots`: record the owner as installed and
    /// enabled, reserve one trampoline identity per interception point, and
    /// return the identities to install into the slots.  When some chain's
    /// pool is exhausted the capacity error comes back and nothing changes —
    /// no owner's identity is overwritten.
    pub fn before_init(&mut self, name: String, slots: HookSlots) -> (r: Result<
        HookSlots,
        HookError,
    >)
        requires
            old(self).wf(),
        ensures
            final(self).wf(),
            !old(self).has_capacity() ==> r == Err::<HookSlots, HookError>(
                HookError::TooManyExtensions,
            ) && *final(self) == *old(self),
            old(self).has_capacity() ==> r is Ok && ({
                let out = r->Ok_0;
                &&& chain_reserved(
                    old(self).all_hooks.planner_hook@,
                    final(self).all_hooks.planner_hook@,
                    old(self).overrides.planner,
                    slots.planner,
                    out.planner,
                )
                &&& chain_reserved(
                    old(self).all_hooks.executor_start_hook@,
                    final(self).all_hooks.executor_start_hook@,
                    old(self).overrides.executor_start,
                    slots.executor_start,
                    out.executor_start,
                )
                &&& chain_reserved(
                    old(self).all_hooks.executor_run_hook@,
                    final(self).all_hooks.executor_run_hook@,
                    old(self).overrides.executor_run,
                    slots.executor_run,
                    out.executor_run,
                )
                &&& chain_reserved(
                    old(self).all_hooks.executor_finish_hook@,
                    final(self).all_hooks.executor_finish_hook@,
                    old(self).overrides.executor_finish,
                    slots.executor_finish,
                    out.executor_finish,
                )
                &&& chain_reserved(
                    old(self).all_hooks.executor_end_hook@,
                    final(self).all_hooks.executor_end_hook@,
                    old(self).overrides.executor_end,
                    slots.executor_end,
                    out.executor_end,
                )
                &&& final(self).installed_plugins@ == old(self).installed_plugins@.push(name)
                &&& (spec_lookup(old(self).installed_plugins_status@, name@) is Some
                    ==> final(self).installed_plugins_status@ == spec_set(
                    old(self).installed_plugins_status@,
                    name@,
                    true,
                ))
                &&& (spec_lookup(old(self).installed_plugins_status@, name@) is None
                    ==> final(self).installed_plugins_status@ == old(self).installed_plugins_status@.push(
                    (name@, true),
                ))
                &&& final(self).all_hooks.rewriters == old(self).all_hooks.rewriters
                &&& final(self).overrides == old(self).overrides
                &&& final(self).rewriter_before_run == old(self).rewriter_before_run
                &&& final(self).rewriter_after_run == old(self).rewriter_after_run
                &&& final(self).mid_registration()
            }),
    {
        if !(self.all_hooks.planner_hook.next_hook_id < self.all_hooks.planner_hook.available_callbacks.len()
            && self.all_hooks.executor_start_hook.next_hook_id < self.all_hooks.executor_start_hook.available_callbacks.len()
            && self.all_hooks.executor_run_hook.next_hook_id < self.all_hooks.executor_run_hook.available_callbacks.len()
            && self.all_hooks.executor_finish_hook.next_hook_id < self.all_hooks.executor_finish_hook.available_callbacks.len()
            && self.all_hooks.executor_end_hook.next_hook_id < self.all_hooks.executor_end_hook.available_callbacks.len()) {
            return Err(HookError::TooManyExtensions);
        }
        self.installed_plugins.push(name.clone());
        self.installed_plugins_status.upsert(name, true);
        let planner = match self.all_hooks.planner_hook.before_register(
            self.overrides.planner,
            slots.planner,
        ) {
            Ok(v) => v,
            Err(e) => { return Err(e) },
        };
        let executor_run = match self.all_hooks.executor_run_hook.before_register(
            self.overrides.executor_run,
            slots.executor_run,
        ) {
            Ok(v) => v,
            Err(e) => { return Err(e) },
        };
        let executor_start = match self.all_hooks.executor_start_hook.before_register(
            self.overrides.executor_start,
            slots.executor_start,
        ) {
            Ok(v) => v,
            Err(e) => { return Err(e) },
        };
        let executor_end = match self.all_hooks.executor_end_hook.before_register(
            self.overrides.executor_end,
            slots.executor_end,
        ) {
            Ok(v) => v,
            Err(e) => { return Err(e) },
        };
        let executor_finish = match self.all_hooks.executor_finish_hook.before_register(
            self.overrides.executor_finish,
            slots.executor_finish,
        ) {
            Ok(v) => v,
            Err(e) => { return Err(e) },
        };
        Ok(HookSlots { planner, executor_start, executor_run, executor_finish, executor_end })
    }

    /// Second lifecycle call, made right after the newest extension's own
    /// initialization, with the host's slots now holding `slots`: fold each
    /// slot's fate into its chain — keep the extension's new hook as a
    /// `Compatible` entry, keep a managed registration, or roll an untouched
    /// reservation back — and return the values to (re)install.
    pub fn after_init(&mut self, slots: HookSlots) -> (r: HookSlots)
        requires
            old(self).wf(),
            old(self).mid_registration(),
            old(self).no_double_registration(slots),
        ensures
            final(self).wf(),
            ({
                let p = old(self).installed_plugins@.last()@;
                &&& chain_decided(
                    old(self).all_hooks.planner_hook@,
                    final(self).all_hooks.planner_hook@,
                    p,
                    slots.planner,
                    r.planner,
                )
                &&& chain_decided(
                    old(self).all_hooks.executor_start_hook@,
                    final(self).all_hooks.executor_start_hook@,
                    p,
                    slots.executor_start,
                    r.executor_start,
                )
                &&& chain_decided(
                    old(self).all_hooks.executor_run_hook@,
                    final(self).all_hooks.executor_run_hook@,
                    p,
                    slots.executor_run,
                    r.executor_run,
                )
                &&& chain_decided(
                    old(self).all_hooks.executor_finish_hook@,
                    final(self).all_hooks.executor_finish_hook@,
                    p,
                    slots.executor_finish,
                    r.executor_finish,
                )
                &&& chain_decided(
                    old(self).all_hooks.executor_end_hook@,
                    final(self).all_hooks.executor_end_hook@,
                    p,
                    slots.executor_end,
                    r.executor_end,
                )
                &&& final(self).installed_plugins == old(self).installed_plugins
                &&& final(self).installed_plugins_status == old(self).installed_plugins_status
                &&& final(self).all_hooks.rewriters == old(self).all_hooks.rewriters
                &&& final(self).overrides == old(self).overrides
                &&& final(self).rewriter_before_run == old(self).rewriter_before_run
                &&& final(self).rewriter_after_run == old(self).rewriter_after_run
            }),
    {
        let p = self.installed_plugins[self.installed_plugins.len() - 1].clone();
        let planner = match self.all_hooks.planner_hook.after_register(p.clone(), slots.planner) {
            Ok(v) => v,
            Err(_) => unreached(),
        };
        let executor_start = match self.all_hooks.executor_start_hook.after_register(
            p.clone(),
            slots.executor_start,
        ) {
            Ok(v) => v,
            Err(_) => unreached(),
        };
        let executor_run = match self.all_hooks.executor_run_hook.after_register(
            p.clone(),
            slots.executor_run,
        ) {
            Ok(v) => v,
            Err(_) => unreached(),
        };
        let executor_finish = match self.all_hooks.executor_finish_hook.after_register(
            p.clone(),
            slots.executor_finish,
        ) {
            Ok(v) => v,
            Err(_) => unreached(),
        };
        let executor_end = match self.all_hooks.executor_end_hook.after_register(
            p,
            slots.executor_end,
        ) {
            Ok(v) => v,
            Err(_) => unreached(),
        };
        HookSlots { planner, executor_start, executor_run, executor_finish, executor_end }
    }

    /// Install the manager itself: run its own `before_init`/`after_init`
    /// pair under the reserved owner name, registering its before/after
    /// bracket pair on the execution-run chain in between (the pair that
    /// builds and tears down the rewriter destination around every query).
    /// The four other chains come out exactly as they were — their slots are
    /// restored — while the run chain gains the bracket entry and its slot
    /// takes the manager's dispatcher.
    pub fn bootstrap(&mut self, slots: HookSlots) -> (r: Result<HookSlots, HookError>)
        requires
            old(self).wf(),
        ensures
            final(self).wf(),
            !old(self).has_capacity() ==> r == Err::<HookSlots, HookError>(
                HookError::TooManyExtensions,
            ) && *final(self) == *old(self),
            old(self).has_capacity() ==> {
                &&& r == Ok::<HookSlots, HookError>(
                    HookSlots {
                        planner: slots.planner,
                        executor_start: slots.executor_start,
                        executor_run: old(self).overrides.executor_run,
                        executor_finish: slots.executor_finish,
                        executor_end: slots.executor_end,
                    },
                )
                &&& final(self).all_hooks.planner_hook@ == (HookChainModel {
                    registered: false,
                    prev_hook: None,
                    ..old(self).all_hooks.planner_hook@
                })
                &&& final(self).all_hooks.executor_start_hook@ == (HookChainModel {
                    registered: false,
                    prev_hook: None,
                    ..old(self).all_hooks.executor_start_hook@
                })
                &&& final(self).all_hooks.executor_finish_hook@ == (HookChainModel {
                    registered: false,
                    prev_hook: None,
                    ..old(self).all_hooks.executor_finish_hook@
                })
                &&& final(self).all_hooks.executor_end_hook@ == (HookChainModel {
                    registered: false,
                    prev_hook: None,
                    ..old(self).all_hooks.executor_end_hook@
                })
                &&& final(self).all_hooks.executor_run_hook@ == (HookChainModel {
                    next_hook_id: old(self).all_hooks.executor_run_hook@.next_hook_id + 1,
                    registered: true,
                    prev_hook: None,
                    hooks: old(self).all_hooks.executor_run_hook@.hooks.push(
                        (
                            "__pgext"@,
                            HookType::PgExt(
                                old(self).rewriter_before_run,
                                old(self).rewriter_after_run,
                            ),
                        ),
                    ),
                    ..old(self).all_hooks.executor_run_hook@
                })
                &&& final(self).installed_plugins.deep_view() == old(
                    self,
                ).installed_plugins.deep_view().push("__pgext"@)
                &&& (spec_lookup(old(self).installed_plugins_status@, "__pgext"@) is Some
                    ==> final(self).installed_plugins_status@ == spec_set(
                    old(self).installed_plugins_status@,
                    "__pgext"@,
                    true,
                ))
                &&& (spec_lookup(old(self).installed_plugins_status@, "__pgext"@) is None
                    ==> final(self).installed_plugins_status@ == old(
                    self,
                ).installed_plugins_status@.push(("__pgext"@, true)))
                &&& final(self).all_hooks.rewriters == old(self).all_hooks.rewriters
                &&& final(self).overrides == old(self).overrides
                &&& final(self).rewriter_before_run == old(self).rewriter_before_run
                &&& final(self).rewriter_after_run == old(self).rewriter_after_run
            },
    {
        let ghost pre = *old(self);
        let name: String = "__pgext".to_owned();
        let handed = match self.before_init(name, slots) {
            Ok(h) => h,
            Err(e) => { return Err(e) },
        };
        let bracket_owner: String = "__pgext".to_owned();
        match self.all_hooks.executor_run_hook.register(
            bracket_owner,
            self.rewriter_before_run,
            self.rewriter_after_run,
        ) {
            Ok(_) => {},
            Err(_) => unreached(),
        }
        let out = self.after_init(handed);
        proof {
            assert(final(self).all_hooks.planner_hook@ =~= (HookChainModel {
                registered: false,
                prev_hook: None,
                ..pre.all_hooks.planner_hook@
            }));
            assert(final(self).all_hooks.executor_start_hook@ =~= (HookChainModel {
                registered: false,
                prev_hook: None,
                ..pre.all_hooks.executor_start_hook@
            }));
            assert(final(self).all_hooks.executor_finish_hook@ =~= (HookChainModel {
                registered: false,
                prev_hook: None,
                ..pre.all_hooks.executor_finish_hook@
            }));
            assert(final(self).all_hooks.executor_end_hook@ =~= (HookChainModel {
                registered: false,
                prev_hook: None,
                ..pre.all_hooks.executor_end_hook@
            }));
            assert(final(self).all_hooks.executor_run_hook@ =~= (HookChainModel {
                next_hook_id: pre.all_hooks.executor_run_hook@.next_hook_id + 1,
                registered: true,
                prev_hook: None,
                hooks: pre.all_hooks.executor_run_hook@.hooks.push(
                    (
                        "__pgext"@,
                        HookType::PgExt(pre.rewriter_before_run, pre.rewriter_after_run),
                    ),
                ),
                ..pre.all_hooks.executor_run_hook@
            }));
            assert(final(self).installed_plugins.deep_view()
                =~= pre.installed_plugins.deep_view().push("__pgext"@));
        }
        Ok(out)
    }

    /// List installed owners: `(order, owner, status)` rows in extension
    /// load order, the status rendered as `enabled` or `disabled`.
    pub fn all(&self) -> (r: Vec<(i64, String, String)>)
        requires
            self.installed_plugins@.len() <= i64::MAX,
        ensures
            r@.len() == self.installed_plugins@.len(),
            forall|i: int|
                0 <= i < r@.len() ==> {
                    &&& (#[trigger] r@[i]).0 == i as i64
                    &&& r@[i].1@ == self.installed_plugins.deep_view()[i]
                    &&& r@[i].2@ == (if self.installed_plugins_status.spec_enabled(
                        self.installed_plugins.deep_view()[i],
                    ) {
                        "enabled"@
                    } else {
                        "disabled"@
                    })
                },
    {
        let mut r: Vec<(i64, String, String)> = Vec::new();
        let n = self.installed_plugins.len();
        let mut i: usize = 0;
        while i < n
            invariant
                0 <= i <= n,
                n == self.installed_plugins@.len(),
                n <= i64::MAX,
                r@.len() == i,
                forall|j: int|
                    0 <= j < i ==> {
                        &&& (#[trigger] r@[j]).0 == j as i64
                        &&& r@[j].1@ == self.installed_plugins.deep_view()[j]
                        &&& r@[j].2@ == (if self.installed_plugins_status.spec_enabled(
                            self.installed_plugins.deep_view()[j],
                        ) {
                            "enabled"@
                        } else {
                            "disabled"@
                        })
                    },
            decreases n - i,
        {
            let name = self.installed_plugins[i].clone();
            let enabled = self.installed_plugins_status.is_enabled(name.as_str());
            let status: String = if enabled {
                "enabled".to_owned()
            } else {
                "disabled".to_owned()
            };
            r.push((i as i64, name, status));
            i = i + 1;
        }
        r
    }

    /// List active chain entries: `(interception point, order, owner)` rows,
    /// one segment per chain in the fixed point order, the order restarting
    /// per segment, closing with the registered rewriters.
    pub fn hooks(&self) -> (r: Vec<(String, i64, String)>)
        requires
            self.all_hooks.planner_hook@.hooks.len() <= i64::MAX,
            self.all_hooks.executor_start_hook@.hooks.len() <= i64::MAX,
            self.all_hooks.executor_run_hook@.hooks.len() <= i64::MAX,
            self.all_hooks.executor_finish_hook@.hooks.len() <= i64::MAX,
            self.all_hooks.executor_end_hook@.hooks.len() <= i64::MAX,
            self.all_hooks.rewriters@.len() <= i64::MAX,
        ensures
            r.deep_view() == spec_rows("planner_hook"@, chain_owners(self.all_hooks.planner_hook@.hooks))
                + spec_rows(
                "executor_start_hook"@,
                chain_owners(self.all_hooks.executor_start_hook@.hooks),
            ) + spec_rows("executor_run_hook"@, chain_owners(self.all_hooks.executor_run_hook@.hooks))
                + spec_rows(
                "executor_finish_hook"@,
                chain_owners(self.all_hooks.executor_finish_hook@.hooks),
            ) + spec_rows("executor_end_hook"@, chain_owners(self.all_hooks.executor_end_hook@.hooks))
                + spec_rows("pgext_rewriters"@, rewriter_owners(self.all_hooks.rewriters.deep_view())),
    {
        let mut r: Vec<(String, i64, String)> = Vec::new();
        push_chain_rows(&mut r, "planner_hook", &self.all_hooks.planner_hook.hooks);
        push_chain_rows(&mut r, "executor_start_hook", &self.all_hooks.executor_start_hook.hooks);
        push_chain_rows(&mut r, "executor_run_hook", &self.all_hooks.executor_run_hook.hooks);
        push_chain_rows(&mut r, "executor_finish_hook", &self.all_hooks.executor_finish_hook.hooks);
        push_chain_rows(&mut r, "executor_end_hook", &self.all_hooks.executor_end_hook.hooks);
        push_rewriter_rows(&mut r, "pgext_rewriters", &self.all_hooks.rewriters);
        proof {
            assert(Seq::<(Seq<char>, i64, Seq<char>)>::empty() + spec_rows(
                "planner_hook"@,
                chain_owners(self.all_hooks.planner_hook@.hooks),
            ) =~= spec_rows("planner_hook"@, chain_owners(self.all_hooks.planner_hook@.hooks)));
        }
        r
    }

    /// Flip one owner's status: its table flag and — for owners that also
    /// registered rewriters — the matching rewriter entries.  The chains and
    /// every entry's position stay untouched; an unknown owner comes back as
    /// the lookup-class error.
    pub fn change_status(&mut self, extension: &str, status: bool) -> (r: Result<i64, HookError>)
        requires
            old(self).wf(),
        ensures
            final(self).wf(),
            spec_lookup(old(self).installed_plugins_status@, extension@) is None ==> r == Err::<
                i64,
                HookError,
            >(HookError::UnknownExtension) && *final(self) == *old(self),
            spec_lookup(old(self).installed_plugins_status@, extension@) is Some ==> {
                &&& r == Ok::<i64, HookError>(1)
                &&& final(self).installed_plugins_status@ == spec_set(
                    old(self).installed_plugins_status@,
                    extension@,
                    status,
                )
                &&& final(self).all_hooks.rewriters.deep_view() == spec_set_rewriters(
                    old(self).all_hooks.rewriters.deep_view(),
                    extension@,
                    status,
                )
                &&& final(self).installed_plugins == old(self).installed_plugins
                &&& final(self).all_hooks.planner_hook == old(self).all_hooks.planner_hook
                &&& final(self).all_hooks.executor_start_hook == old(
                    self,
                ).all_hooks.executor_start_hook
                &&& final(self).all_hooks.executor_run_hook == old(self).all_hooks.executor_run_hook
                &&& final(self).all_hooks.executor_finish_hook == old(
                    self,
                ).all_hooks.executor_finish_hook
                &&& final(self).all_hooks.executor_end_hook == old(self).all_hooks.executor_end_hook
                &&& final(self).overrides == old(self).overrides
                &&& final(self).rewriter_before_run == old(self).rewriter_before_run
                &&& final(self).rewriter_after_run == old(self).rewriter_after_run
            },
    {
        let found = self.installed_plugins_status.set_status(extension, status);
        if !found {
            return Err(HookError::UnknownExtension);
        }
        set_rewriter_status(&mut self.all_hooks.rewriters, extension, status);
        proof {
            assert(self.all_hooks.rewriters.deep_view().len() == self.all_hooks.rewriters@.len());
            assert(old(self).all_hooks.rewriters.deep_view().len() == old(
                self,
            ).all_hooks.rewriters@.len());
            assert(self.all_hooks.rewriters@.len() == old(self).all_hooks.rewriters@.len());
            assert forall|i: int| 0 <= i < self.all_hooks.rewriters@.len() implies (
            #[trigger] self.all_hooks.rewriters@[i]).rewriter.receive_slot is Some by {
                assert(self.all_hooks.rewriters@[i].rewriter == old(
                    self,
                ).all_hooks.rewriters@[i].rewriter);
            }
        }
        Ok(1)
    }

    /// Flip every owner's status, the rewriter entries included, and report
    /// how many owners the table holds.
    pub fn change_status_all(&mut self, status: bool) -> (r: i64)
        requires
            old(self).wf(),
            old(self).installed_plugins_status@.len() <= i64::MAX,
        ensures
            final(self).wf(),
            r == old(self).installed_plugins_status@.len(),
            final(self).installed_plugins_status@ == spec_set_all(
                old(self).installed_plugins_status@,
                status,
            ),
            final(self).all_hooks.rewriters.deep_view() == spec_set_all_rewriters(
                old(self).all_hooks.rewriters.deep_view(),
                status,
            ),
            final(self).installed_plugins == old(self).installed_plugins,
            final(self).all_hooks.planner_hook == old(self).all_hooks.planner_hook,
            final(self).all_hooks.executor_start_hook == old(self).all_hooks.executor_start_hook,
            final(self).all_hooks.executor_run_hook == old(self).all_hooks.executor_run_hook,
            final(self).all_hooks.executor_finish_hook == old(self).all_hooks.executor_finish_hook,
            final(self).all_hooks.executor_end_hook == old(self).all_hooks.executor_end_hook,
            final(self).overrides == old(self).overrides,
            final(self).rewriter_before_run == old(self).rewriter_before_run,
            final(self).rewriter_after_run == old(self).rewriter_after_run,
    {
        self.installed_plugins_status.set_all(status);
        set_all_rewriter_status(&mut self.all_hooks.rewriters, status);
        proof {
            assert(self.all_hooks.rewriters.deep_view().len() == self.all_hooks.rewriters@.len());
            assert(old(self).all_hooks.rewriters.deep_view().len() == old(
                self,
            ).all_hooks.rewriters@.len());
            assert(self.all_hooks.rewriters@.len() == old(self).all_hooks.rewriters@.len());
            assert forall|i: int| 0 <= i < self.all_hooks.rewriters@.len() implies (
            #[trigger] self.all_hooks.rewriters@[i]).rewriter.receive_slot is Some by {
                assert(self.all_hooks.rewriters@[i].rewriter == old(
                    self,
                ).all_hooks.rewriters@[i].rewriter);
            }
        }
        self.installed_plugins_status.len() as i64
    }

    /// Enable one owner; unknown owners come back as the lookup-class error.
    pub fn enable(&mut self, extension: &str) -> (r: Result<i64, HookError>)
        requires
            old(self).wf(),
        ensures
            final(self).wf(),
            r == (spec_change_status_result(old(self).installed_plugins_status@, extension@)),
            spec_lookup(old(self).installed_plugins_status@, extension@) is None ==> *final(self)
                == *old(self),
            spec_lookup(old(self).installed_plugins_status@, extension@) is Some ==> final(self).installed_plugins_status@
                == spec_set(
                old(self).installed_plugins_status@,
                extension@,
                true,
            ) && final(self).all_hooks.rewriters.deep_view() == spec_set_rewriters(
                old(self).all_hooks.rewriters.deep_view(),
                extension@,
                true,
            ) && final(self).installed_plugins == old(self).installed_plugins,
    {
        self.change_status(extension, true)
    }

    /// Disable one owner; unknown owners come back as the lookup-class
    /// error.
    pub fn disable(&mut self, extension: &str) -> (r: Result<i64, HookError>)
        requires
            old(self).wf(),
        ensures
            final(self).wf(),
            r == (spec_change_status_result(old(self).installed_plugins_status@, extension@)),
            spec_lookup(old(self).installed_plugins_status@, extension@) is None ==> *final(self)
                == *old(self),
            spec_lookup(old(self).installed_plugins_status@, extension@) is Some ==> final(self).installed_plugins_status@
                == spec_set(
                old(self).installed_plugins_status@,
                extension@,
                false,
            ) && final(self).all_hooks.rewriters.deep_view() == spec_set_rewriters(
                old(self).all_hooks.rewriters.deep_view(),
                extension@,
                false,
            ) && final(self).installed_plugins == old(self).installed_plugins,
    {
        self.change_status(extension, false)
    }

    /// Enable every owner; reports how many owners the table holds.
    pub fn enable_all(&mut self) -> (r: i64)
        requires
            old(self).wf(),
            old(self).installed_plugins_status@.len() <= i64::MAX,
        ensures
            final(self).wf(),
            r == old(self).installed_plugins_status@.len(),
            final(self).installed_plugins_status@ == spec_set_all(
                old(self).installed_plugins_status@,
                true,
            ),
            final(self).all_hooks.rewriters.deep_view() == spec_set_all_rewriters(
                old(self).all_hooks.rewriters.deep_view(),
                true,
            ),
            final(self).installed_plugins == old(self).installed_plugins,
    {
        self.change_status_all(true)
    }

    /// Register an output rewriter under `plugin`.  The first registration
    /// also installs the manager's own before/after bracket pair on the
    /// execution-run chain under the reserved owner name, so the rewriter
    /// destination gets built and torn down around every query; it comes
    /// back with the double-registration error when the in-flight owner
    /// already registered there.  The entry starts enabled.
    pub fn register_output_rewriter(&mut self, plugin: String, rewriter: OutputRewriter) -> (r:
        Result<(), HookError>)
        requires
            old(self).wf(),
            rewriter.receive_slot is Some,
        ensures
            final(self).wf(),
            register_rewriter_post(*old(self), *final(self), plugin@, rewriter, r),
    {
        let has_bracket = contains_owner(&self.all_hooks.executor_run_hook.hooks, "__pgext");
        if !has_bracket {
            let bracket_owner: String = "__pgext".to_owned();
            match self.all_hooks.executor_run_hook.register(
                bracket_owner,
                self.rewriter_before_run,
                self.rewriter_after_run,
            ) {
                Ok(_) => {},
                Err(e) => { return Err(e) },
            }
        }
        let ghost pre_push = self.all_hooks.rewriters.deep_view();
        self.all_hooks.rewriters.push(RewriterEntry { owner: plugin, rewriter, enabled: true });
        proof {
            assert(self.all_hooks.rewriters.deep_view() =~= pre_push.push(
                RewriterEntryModel { owner: plugin@, rewriter, enabled: true },
            ));
        }
        Ok(())
    }

    /// Disable every owner; reports how many owners the table holds.
    pub fn disable_all(&mut self) -> (r: i64)
        requires
            old(self).wf(),
            old(self).installed_plugins_status@.len() <= i64::MAX,
        ensures
            final(self).wf(),
            r == old(self).installed_plugins_status@.len(),
            final(self).installed_plugins_status@ == spec_set_all(
                old(self).installed_plugins_status@,
                false,
            ),
            final(self).all_hooks.rewriters.deep_view() == spec_set_all_rewriters(
                old(self).all_hooks.rewriters.deep_view(),
                false,
            ),
            final(self).installed_plugins == old(self).installed_plugins,
    {
        self.change_status_all(false)
    }
}

/// Whether some entry of the chain belongs to `name`.
pub open spec fn spec_contains_owner(hooks: Seq<(Seq<char>, HookType)>, name: Seq<char>) -> bool {
    exists|i: int| 0 <= i < hooks.len() && hooks[i].0 == name
}

/// What registering an output rewriter does: when the execution-run chain
/// has no entry under the reserved owner name yet, the manager's bracket
/// pair is appended there first (failing with the double-registration error
/// when the in-flight owner already registered, the state then unchanged);
/// the rewriter entry itself is appended enabled, everything else stays.
pub open spec fn register_rewriter_post(
    pre: Manager,
    post: Manager,
    plugin: Seq<char>,
    rewriter: OutputRewriter,
    r: Result<(), HookError>,
) -> bool {
    let had_bracket = spec_contains_owner(pre.all_hooks.executor_run_hook@.hooks, "__pgext"@);
    &&& (!had_bracket && pre.all_hooks.executor_run_hook@.registered ==> r == Err::<
        (),
        HookError,
    >(HookError::ExtensionRegisteredTwice) && post == pre)
    &&& ((had_bracket || !pre.all_hooks.executor_run_hook@.registered) ==> {
        &&& r is Ok
        &&& (had_bracket ==> post.all_hooks.executor_run_hook == pre.all_hooks.executor_run_hook)
        &&& (!had_bracket ==> post.all_hooks.executor_run_hook@
            == pre.all_hooks.executor_run_hook@.spec_register(
            "__pgext"@,
            pre.rewriter_before_run,
            pre.rewriter_after_run,
        ).0)
        &&& post.all_hooks.rewriters.deep_view() == pre.all_hooks.rewriters.deep_view().push(
            RewriterEntryModel { owner: plugin, rewriter, enabled: true },
        )
        &&& post.all_hooks.planner_hook == pre.all_hooks.planner_hook
        &&& post.all_hooks.executor_start_hook == pre.all_hooks.executor_start_hook
        &&& post.all_hooks.executor_finish_hook == pre.all_hooks.executor_finish_hook
        &&& post.all_hooks.executor_end_hook == pre.all_hooks.executor_end_hook
        &&& post.installed_plugins == pre.installed_plugins
        &&& post.installed_plugins_status == pre.installed_plugins_status
        &&& post.overrides == pre.overrides
        &&& post.rewriter_before_run == pre.rewriter_before_run
        &&& post.rewriter_after_run == pre.rewriter_after_run
    })
}

/// Whether some entry of the chain belongs to `name`.
fn contains_owner(hooks: &Vec<(String, HookType)>, name: &str) -> (r: bool)
    ensures
        r == spec_contains_owner(
            hooks@.map_values(|e: (String, HookType)| (e.0@, e.1)),
            name@,
        ),
{
    let ghost model = hooks@.map_values(|e: (String, HookType)| (e.0@, e.1));
    let n = hooks.len();
    let mut i: usize = 0;
    while i < n
        invariant
            0 <= i <= n,
            n == hooks@.len(),
            model == hooks@.map_values(|e: (String, HookType)| (e.0@, e.1)),
            forall|j: int| 0 <= j < i ==> (#[trigger] model[j]).0 != name@,
        decreases n - i,
    {
        if str_eq(hooks[i].0.as_str(), name) {
            proof {
                assert(model[i as int].0 == name@);
            }
            return true;
        }
        i = i + 1;
    }
    false
}

/// What flipping one owner's status reports: `1` for a known owner, the
/// lookup-class error for an unknown one.
pub open spec fn spec_change_status_result(
    entries: Seq<(Seq<char>, bool)>,
    extension: Seq<char>,
) -> Result<i64, HookError> {
    if spec_lookup(entries, extension) is Some {
        Ok(1)
    } else {
        Err(HookError::UnknownExtension)
    }
}

/// The owners of a chain's entries, in registration order.
pub open spec fn chain_owners(hooks: Seq<(Seq<char>, HookType)>) -> Seq<Seq<char>> {
    hooks.map_values(|e: (Seq<char>, HookType)| e.0)
}

/// The owners of the rewriter entries, in registration order.
pub open spec fn rewriter_owners(entries: Seq<RewriterEntryModel>) -> Seq<Seq<char>> {
    entries.map_values(|e: RewriterEntryModel| e.owner)
}

/// Listing rows for one segment: the same label on every row, the order
/// restarting at zero, one row per owner.
pub open spec fn spec_rows(label: Seq<char>, owners: Seq<Seq<char>>) -> Seq<
    (Seq<char>, i64, Seq<char>),
> {
    Seq::new(owners.len(), |i: int| (label, i as i64, owners[i]))
}

/// Rewriter entries with every entry of `name` flipped to `status`.
pub open spec fn spec_set_rewriters(
    entries: Seq<RewriterEntryModel>,
    name: Seq<char>,
    status: bool,
) -> Seq<RewriterEntryModel> {
    entries.map_values(
        |e: RewriterEntryModel|
            if e.owner == name {
                RewriterEntryModel { enabled: status, ..e }
            } else {
                e
            },
    )
}

/// Rewriter entries with every entry flipped to `status`.
pub open spec fn spec_set_all_rewriters(entries: Seq<RewriterEntryModel>, status: bool) -> Seq<
    RewriterEntryModel,
> {
    entries.map_values(|e: RewriterEntryModel| RewriterEntryModel { enabled: status, ..e })
}

/// Append one chain's listing rows.
fn push_chain_rows(out: &mut Vec<(String, i64, String)>, label: &str, hooks: &Vec<(String, HookType)>)
    requires
        hooks@.len() <= i64::MAX,
    ensures
        final(out).deep_view() == old(out).deep_view() + spec_rows(
            label@,
            chain_owners(hooks@.map_values(|e: (String, HookType)| (e.0@, e.1))),
        ),
{
    let ghost rows = spec_rows(
        label@,
        chain_owners(hooks@.map_values(|e: (String, HookType)| (e.0@, e.1))),
    );
    let n = hooks.len();
    let mut i: usize = 0;
    while i < n
        invariant
            0 <= i <= n,
            n == hooks@.len(),
            n <= i64::MAX,
            rows == spec_rows(
                label@,
                chain_owners(hooks@.map_values(|e: (String, HookType)| (e.0@, e.1))),
            ),
            out.deep_view() == old(out).deep_view() + rows.take(i as int),
        decreases n - i,
    {
        let ghost pre = out.deep_view();
        out.push((label.to_owned(), i as i64, hooks[i].0.clone()));
        proof {
            assert(out.deep_view() =~= pre.push((label@, i as i64, hooks@[i as int].0@)));
            assert(out.deep_view() =~= old(out).deep_view() + rows.take(i as int + 1));
        }
        i = i + 1;
    }
    proof {
        assert(rows.take(n as int) =~= rows);
    }
}

/// Append the rewriter segment's listing rows.
fn push_rewriter_rows(out: &mut Vec<(String, i64, String)>, label: &str, entries: &Vec<RewriterEntry>)
    requires
        entries@.len() <= i64::MAX,
    ensures
        final(out).deep_view() == old(out).deep_view() + spec_rows(
            label@,
            rewriter_owners(entries.deep_view()),
        ),
{
    let ghost rows = spec_rows(label@, rewriter_owners(entries.deep_view()));
    let n = entries.len();
    let mut i: usize = 0;
    while i < n
        invariant
            0 <= i <= n,
            n == entries@.len(),
            n <= i64::MAX,
            rows == spec_rows(label@, rewriter_owners(entries.deep_view())),
            out.deep_view() == old(out).deep_view() + rows.take(i as int),
        decreases n - i,
    {
        let ghost pre = out.deep_view();
        out.push((label.to_owned(), i as i64, entries[i].owner.clone()));
        proof {
            assert(out.deep_view() =~= pre.push((label@, i as i64, entries@[i as int].owner@)));
            assert(out.deep_view() =~= old(out).deep_view() + rows.take(i as int + 1));
        }
        i = i + 1;
    }
    proof {
        assert(rows.take(n as int) =~= rows);
    }
}

/// Flip the rewriter entries of one owner to `status`.
fn set_rewriter_status(entries: &mut Vec<RewriterEntry>, name: &str, status: bool)
    ensures
        final(entries).deep_view() == spec_set_rewriters(old(entries).deep_view(), name@, status),
        forall|i: int|
            0 <= i < final(entries)@.len() ==> (#[trigger] final(entries)@[i]).rewriter == old(
                entries,
            )@[i].rewriter,
{
    let ghost pre = entries.deep_view();
    let n = entries.len();
    let mut i: usize = 0;
    while i < n
        invariant
            0 <= i <= n,
            n == entries@.len(),
            n == old(entries)@.len(),
            n == pre.len(),
            forall|j: int|
                0 <= j < i ==> (#[trigger] entries.deep_view()[j]) == spec_set_rewriters(
                    pre,
                    name@,
                    status,
                )[j],
            forall|j: int| i <= j < n ==> (#[trigger] entries.deep_view()[j]) == pre[j],
            forall|j: int|
                0 <= j < n ==> (#[trigger] entries@[j]).rewriter == old(entries)@[j].rewriter,
        decreases n - i,
    {
        let ghost prev_view = entries.deep_view();
        proof {
            assert(prev_view[i as int] == pre[i as int]);
            assert(prev_view[i as int].owner == entries@[i as int].owner@);
        }
        if str_eq(entries[i].owner.as_str(), name) {
            let owner = entries[i].owner.clone();
            let rewriter = entries[i].rewriter;
            proof {
                assert(owner@ == pre[i as int].owner);
                assert(rewriter == pre[i as int].rewriter);
            }
            entries[i] = RewriterEntry { owner, rewriter, enabled: status };
            proof {
                assert forall|j: int| 0 <= j < i + 1 implies (#[trigger] entries.deep_view()[j])
                    == spec_set_rewriters(pre, name@, status)[j] by {
                    if j == i as int {
                        assert(entries.deep_view()[j] == (RewriterEntryModel {
                            enabled: status,
                            ..pre[j]
                        }));
                    } else {
                        assert(entries.deep_view()[j] == prev_view[j]);
                    }
                }
                assert forall|j: int| i + 1 <= j < n implies (#[trigger] entries.deep_view()[j])
                    == pre[j] by {
                    assert(entries.deep_view()[j] == prev_view[j]);
                }
            }
        } else {
            proof {
                assert(pre[i as int].owner != name@);
                assert(entries.deep_view()[i as int] == pre[i as int]);
            }
        }
        i = i + 1;
    }
    proof {
        assert(entries.deep_view() =~= spec_set_rewriters(pre, name@, status));
    }
}

/// Flip every rewriter entry to `status`.
fn set_all_rewriter_status(entries: &mut Vec<RewriterEntry>, status: bool)
    ensures
        final(entries).deep_view() == spec_set_all_rewriters(old(entries).deep_view(), status),
        forall|i: int|
            0 <= i < final(entries)@.len() ==> (#[trigger] final(entries)@[i]).rewriter == old(
                entries,
            )@[i].rewriter,
{
    let ghost pre = entries.deep_view();
    let n = entries.len();
    let mut i: usize = 0;
    while i < n
        invariant
            0 <= i <= n,
            n == entries@.len(),
            n == old(entries)@.len(),
            n == pre.len(),
            forall|j: int|
                0 <= j < i ==> (#[trigger] entries.deep_view()[j]) == spec_set_all_rewriters(
                    pre,
                    status,
                )[j],
            forall|j: int| i <= j < n ==> (#[trigger] entries.deep_view()[j]) == pre[j],
            forall|j: int|
                0 <= j < n ==> (#[trigger] entries@[j]).rewriter == old(entries)@[j].rewriter,
        decreases n - i,
    {
        let ghost prev_view = entries.deep_view();
        proof {
            assert(prev_view[i as int] == pre[i as int]);
            assert(prev_view[i as int].owner == entries@[i as int].owner@);
        }
        let owner = entries[i].owner.clone();
        let rewriter = entries[i].rewriter;
        proof {
            assert(owner@ == pre[i as int].owner);
            assert(rewriter == pre[i as int].rewriter);
        }
        entries[i] = RewriterEntry { owner, rewriter, enabled: status };
        proof {
            assert forall|j: int| 0 <= j < i + 1 implies (#[trigger] entries.deep_view()[j])
                == spec_set_all_rewriters(pre, status)[j] by {
                if j == i as int {
                    assert(entries.deep_view()[j] == (RewriterEntryModel {
                        enabled: status,
                        ..pre[j]
                    }));
                } else {
                    assert(entries.deep_view()[j] == prev_view[j]);
                }
            }
            assert forall|j: int| i + 1 <= j < n implies (#[trigger] entries.deep_view()[j])
                == pre[j] by {
                assert(entries.deep_view()[j] == prev_view[j]);
            }
        }
        i = i + 1;
    }
    proof {
        assert(entries.deep_view() =~= spec_set_all_rewriters(pre, status));
    }
}

} // verus!

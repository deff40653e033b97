//! The chain walk: dispatching one interception point's ordered hook chain.
//!
//! The host invokes the single installed trampoline, which enters the walk at
//! its baked-in index.  From there the walk visits entries in registration
//! order: an enabled `Compatible` entry is invoked and terminates the walk
//! (the callback was written by an extension unaware of chaining; whatever
//! *it* calls next — typically the trampoline it was handed, which re-enters
//! the walk one index further — is its own business); an enabled `PgExt`
//! entry brackets the rest of the walk between its before and after
//! callbacks; a disabled entry is skipped; past the end, the host's standard
//! implementation runs.
//!
//! [`dispatch_step`] is the single decision the runtime driver needs at one
//! index.  [`dispatch_trace`] unfolds a whole walk into the sequence of calls
//! it performs, given for each `Compatible` entry whether its callback chains
//! on to the identity it was handed; the ordering, nesting and transparency
//! laws at the end of this module are stated over that trace.

use vstd::prelude::*;

use crate::hook_mgr::HookType;
use crate::status::{lemma_lookup_after_set, spec_lookup, spec_set, StatusTable};

verus! {

/// What happens at one index of the walk.
#[derive(Clone, Copy, PartialEq, Eq, Structural, Debug)]
pub enum DispatchAction {
    /// Invoke this enabled `Compatible` callback and return its result: the
    /// owner is a terminal link.
    InvokeCompatible(u64),
    /// Invoke the before callback, walk the rest of the chain, then invoke
    /// the after callback.
    InvokeWrapped(u64, u64),
    /// Entry disabled: continue at the next index without invoking anything.
    Skip,
    /// Chain exhausted: invoke the host's standard implementation.
    HostDefault,
}

/// One call performed during a chain walk.
#[derive(Debug)]
pub enum HookEvent {
    /// An enabled `Compatible` entry's callback ran.
    Call { owner: String, callback: u64 },
    /// An enabled `PgExt` entry's before callback ran.
    Before { owner: String, callback: u64 },
    /// An enabled `PgExt` entry's after callback ran.
    After { owner: String, callback: u64 },
    /// The host's standard implementation ran.
    HostDefault,
}

/// A [`HookEvent`] with the owner as a character sequence: the form the
/// specifications below speak about.
pub enum HookEventModel {
    /// An enabled `Compatible` entry's callback ran.
    Call { owner: Seq<char>, callback: u64 },
    /// An enabled `PgExt` entry's before callback ran.
    Before { owner: Seq<char>, callback: u64 },
    /// An enabled `PgExt` entry's after callback ran.
    After { owner: Seq<char>, callback: u64 },
    /// The host's standard implementation ran.
    HostDefault,
}

impl View for HookEvent {
    type V = HookEventModel;

    open spec fn view(&self) -> HookEventModel {
        match self {
            HookEvent::Call { owner, callback } => HookEventModel::Call {
                owner: owner@,
                callback: *callback,
            },
            HookEvent::Before { owner, callback } => HookEventModel::Before {
                owner: owner@,
                callback: *callback,
            },
            HookEvent::After { owner, callback } => HookEventModel::After {
                owner: owner@,
                callback: *callback,
            },
            HookEvent::HostDefault => HookEventModel::HostDefault,
        }
    }
}

impl DeepView for HookEvent {
    type V = HookEventModel;

    open spec fn deep_view(&self) -> HookEventModel {
        self.view()
    }
}

impl HookEventModel {
    /// The owner whose handler produced this event; the host default has
    /// none.
    pub open spec fn spec_owner(self) -> Option<Seq<char>> {
        match self {
            HookEventModel::Call { owner, .. } => Some(owner),
            HookEventModel::Before { owner, .. } => Some(owner),
            HookEventModel::After { owner, .. } => Some(owner),
            HookEventModel::HostDefault => None,
        }
    }
}

/// The walk decision at index `id`, as the dispatcher takes it.
pub open spec fn spec_step(
    hooks: Seq<(Seq<char>, HookType)>,
    status: Seq<(Seq<char>, bool)>,
    id: int,
) -> DispatchAction {
    if !(0 <= id < hooks.len()) {
        DispatchAction::HostDefault
    } else if spec_lookup(status, hooks[id].0) != Some(true) {
        DispatchAction::Skip
    } else {
        match hooks[id].1 {
            HookType::Compatible(cb) => DispatchAction::InvokeCompatible(cb),
            HookType::PgExt(before, after) => DispatchAction::InvokeWrapped(before, after),
        }
    }
}

/// The calls a whole walk performs from index `id` on.  `chains[k]` says
/// whether the `Compatible` callback at `k`, once invoked, chains on to the
/// trampoline it was handed (re-entering the walk at `k + 1`); `PgExt`
/// entries always continue, that being the point of the managed interface.
pub open spec fn spec_trace(
    hooks: Seq<(Seq<char>, HookType)>,
    status: Seq<(Seq<char>, bool)>,
    chains: Seq<bool>,
    id: int,
) -> Seq<HookEventModel>
    decreases hooks.len() - id
        when 0 <= id <= hooks.len()
{
    if id >= hooks.len() {
        seq![HookEventModel::HostDefault]
    } else if spec_lookup(status, hooks[id].0) != Some(true) {
        spec_trace(hooks, status, chains, id + 1)
    } else {
        match hooks[id].1 {
            HookType::Compatible(cb) => {
                let call = seq![HookEventModel::Call { owner: hooks[id].0, callback: cb }];
                if chains[id] {
                    call + spec_trace(hooks, status, chains, id + 1)
                } else {
                    call
                }
            },
            HookType::PgExt(before, after) => {
                seq![HookEventModel::Before { owner: hooks[id].0, callback: before }] + spec_trace(
                    hooks,
                    status,
                    chains,
                    id + 1,
                ) + seq![HookEventModel::After { owner: hooks[id].0, callback: after }]
            },
        }
    }
}

/// The calls of the `Compatible` entries of `hooks` from index `lo` up to
/// (excluding) `hi`, in registration order.
pub open spec fn compat_calls(hooks: Seq<(Seq<char>, HookType)>, lo: int, hi: int) -> Seq<
    HookEventModel,
> {
    Seq::new(
        (hi - lo) as nat,
        |j: int|
            HookEventModel::Call {
                owner: hooks[lo + j].0,
                callback: hooks[lo + j].1->Compatible_0,
            },
    )
}

/// The deep view of a chain as the specifications use it.
pub open spec fn chain_view(hooks: Seq<(String, HookType)>) -> Seq<(Seq<char>, HookType)> {
    hooks.map_values(|e: (String, HookType)| (e.0@, e.1))
}

/// The walk decision at index `id` of `hooks`: exactly the case split of the
/// runtime dispatcher, with no call performed.
pub fn dispatch_step(hooks: &Vec<(String, HookType)>, status: &StatusTable, id: usize) -> (r:
    DispatchAction)
    ensures
        r == spec_step(chain_view(hooks@), status@, id as int),
{
    if id >= hooks.len() {
        DispatchAction::HostDefault
    } else if !status.is_enabled(hooks[id].0.as_str()) {
        DispatchAction::Skip
    } else {
        match hooks[id].1 {
            HookType::Compatible(cb) => DispatchAction::InvokeCompatible(cb),
            HookType::PgExt(before, after) => DispatchAction::InvokeWrapped(before, after),
        }
    }
}

/// Unfold the whole walk from index `id` into the sequence of calls it
/// performs, under the stated chaining behavior of each `Compatible` entry.
pub fn dispatch_trace(
    hooks: &Vec<(String, HookType)>,
    status: &StatusTable,
    chains: &Vec<bool>,
    id: usize,
) -> (r: Vec<HookEvent>)
    requires
        id <= hooks@.len(),
        chains@.len() == hooks@.len(),
    ensures
        r.deep_view() == spec_trace(chain_view(hooks@), status@, chains@, id as int),
    decreases hooks@.len() - id,
{
    let ghost goal = spec_trace(chain_view(hooks@), status@, chains@, id as int);
    let mut r: Vec<HookEvent> = Vec::new();
    if id >= hooks.len() {
        r.push(HookEvent::HostDefault);
        proof {
            assert(r.deep_view() =~= goal);
        }
        return r;
    }
    let owner = &hooks[id].0;
    if !status.is_enabled(owner.as_str()) {
        let rest = dispatch_trace(hooks, status, chains, id + 1);
        proof {
            assert(rest.deep_view() =~= goal);
        }
        return rest;
    }
    match hooks[id].1 {
        HookType::Compatible(cb) => {
            r.push(HookEvent::Call { owner: owner.clone(), callback: cb });
            if chains[id] {
                let mut rest = dispatch_trace(hooks, status, chains, id + 1);
                r.append(&mut rest);
            }
            proof {
                assert(r.deep_view() =~= goal);
            }
            r
        },
        HookType::PgExt(before, after) => {
            r.push(HookEvent::Before { owner: owner.clone(), callback: before });
            let mut rest = dispatch_trace(hooks, status, chains, id + 1);
            r.append(&mut rest);
            r.push(HookEvent::After { owner: owner.clone(), callback: after });
            proof {
                assert(r.deep_view() =~= goal);
            }
            r
        },
    }
}

/// Ordering law: when every entry from `id` on is an enabled `Compatible`
/// handler whose callback chains on to the identity it was handed, a walk
/// invokes them in exact registration order and then falls back to the
/// host's standard implementation.
pub proof fn lemma_compatible_ordering(
    hooks: Seq<(Seq<char>, HookType)>,
    status: Seq<(Seq<char>, bool)>,
    chains: Seq<bool>,
    id: int,
)
    requires
        0 <= id <= hooks.len(),
        chains.len() == hooks.len(),
        forall|k: int| id <= k < hooks.len() ==> (#[trigger] hooks[k].1) is Compatible,
        forall|k: int| id <= k < hooks.len() ==> spec_lookup(status, (#[trigger] hooks[k]).0)
            == Some(true),
        forall|k: int| id <= k < hooks.len() ==> #[trigger] chains[k],
    ensures
        spec_trace(hooks, status, chains, id) == compat_calls(hooks, id, hooks.len() as int)
            + seq![HookEventModel::HostDefault],
    decreases hooks.len() - id,
{
    if id == hooks.len() {
        assert(spec_trace(hooks, status, chains, id) =~= compat_calls(
            hooks,
            id,
            hooks.len() as int,
        ) + seq![HookEventModel::HostDefault]);
    } else {
        lemma_compatible_ordering(hooks, status, chains, id + 1);
        assert(spec_trace(hooks, status, chains, id) =~= compat_calls(
            hooks,
            id,
            hooks.len() as int,
        ) + seq![HookEventModel::HostDefault]);
    }
}

/// Fallback law: when every entry from `id` on is skipped — disabled or
/// unknown to the status table — or the chain is empty, the walk performs
/// exactly the host's standard implementation and nothing else.
pub proof fn lemma_all_skipped_falls_back(
    hooks: Seq<(Seq<char>, HookType)>,
    status: Seq<(Seq<char>, bool)>,
    chains: Seq<bool>,
    id: int,
)
    requires
        0 <= id <= hooks.len(),
        forall|k: int| id <= k < hooks.len() ==> spec_lookup(status, (#[trigger] hooks[k]).0)
            != Some(true),
    ensures
        spec_trace(hooks, status, chains, id) == seq![HookEventModel::HostDefault],
    decreases hooks.len() - id,
{
    if id < hooks.len() {
        lemma_all_skipped_falls_back(hooks, status, chains, id + 1);
    }
}

/// Nesting law: for an enabled `PgExt` entry at `k` preceded (from `id` on)
/// by enabled, chaining `Compatible` entries, the walk runs those handlers in
/// order, then the before callback, then the whole rest of the walk, then the
/// after callback: the pair brackets every later-registered entry's effect.
pub proof fn lemma_wrapped_nesting(
    hooks: Seq<(Seq<char>, HookType)>,
    status: Seq<(Seq<char>, bool)>,
    chains: Seq<bool>,
    id: int,
    k: int,
)
    requires
        0 <= id <= k < hooks.len(),
        chains.len() == hooks.len(),
        forall|j: int| id <= j < k ==> (#[trigger] hooks[j].1) is Compatible,
        forall|j: int| id <= j < k ==> spec_lookup(status, (#[trigger] hooks[j]).0) == Some(true),
        forall|j: int| id <= j < k ==> #[trigger] chains[j],
        hooks[k].1 is PgExt,
        spec_lookup(status, hooks[k].0) == Some(true),
    ensures
        spec_trace(hooks, status, chains, id) == compat_calls(hooks, id, k) + seq![
            HookEventModel::Before { owner: hooks[k].0, callback: hooks[k].1->PgExt_0 },
        ] + spec_trace(hooks, status, chains, k + 1) + seq![
            HookEventModel::After { owner: hooks[k].0, callback: hooks[k].1->PgExt_1 },
        ],
    decreases k - id,
{
    if id == k {
        assert(spec_trace(hooks, status, chains, id) =~= compat_calls(hooks, id, k) + seq![
            HookEventModel::Before { owner: hooks[k].0, callback: hooks[k].1->PgExt_0 },
        ] + spec_trace(hooks, status, chains, k + 1) + seq![
            HookEventModel::After { owner: hooks[k].0, callback: hooks[k].1->PgExt_1 },
        ]);
    } else {
        lemma_wrapped_nesting(hooks, status, chains, id + 1, k);
        assert(spec_trace(hooks, status, chains, id) =~= compat_calls(hooks, id, k) + seq![
            HookEventModel::Before { owner: hooks[k].0, callback: hooks[k].1->PgExt_0 },
        ] + spec_trace(hooks, status, chains, k + 1) + seq![
            HookEventModel::After { owner: hooks[k].0, callback: hooks[k].1->PgExt_1 },
        ]);
    }
}

/// Every call a walk performs belongs to an owner the status table enables;
/// a disabled owner contributes no event.
pub proof fn lemma_trace_events_enabled(
    hooks: Seq<(Seq<char>, HookType)>,
    status: Seq<(Seq<char>, bool)>,
    chains: Seq<bool>,
    id: int,
)
    requires
        0 <= id <= hooks.len(),
    ensures
        forall|j: int|
            0 <= j < spec_trace(hooks, status, chains, id).len() && (#[trigger] spec_trace(
                hooks,
                status,
                chains,
                id,
            )[j]).spec_owner() is Some ==> spec_lookup(
                status,
                spec_trace(hooks, status, chains, id)[j].spec_owner()->Some_0,
            ) == Some(true),
    decreases hooks.len() - id,
{
    if id < hooks.len() {
        lemma_trace_events_enabled(hooks, status, chains, id + 1);
    }
}

/// A walk reads the status table only through lookups: two tables that
/// answer every owner lookup alike induce the same trace.
pub proof fn lemma_trace_depends_on_lookup(
    hooks: Seq<(Seq<char>, HookType)>,
    s1: Seq<(Seq<char>, bool)>,
    s2: Seq<(Seq<char>, bool)>,
    chains: Seq<bool>,
    id: int,
)
    requires
        0 <= id <= hooks.len(),
        forall|n: Seq<char>| #[trigger] spec_lookup(s1, n) == spec_lookup(s2, n),
    ensures
        spec_trace(hooks, s1, chains, id) == spec_trace(hooks, s2, chains, id),
    decreases hooks.len() - id,
{
    if id < hooks.len() {
        lemma_trace_depends_on_lookup(hooks, s1, s2, chains, id + 1);
    }
}

/// Transparency law: disabling an owner removes every one of its calls from
/// the next walk while the chain itself — every other owner's entry and its
/// position — stays untouched, and re-enabling the owner restores exactly
/// the original walk.
pub proof fn lemma_toggle_round_trip(
    hooks: Seq<(Seq<char>, HookType)>,
    status: Seq<(Seq<char>, bool)>,
    chains: Seq<bool>,
    owner: Seq<char>,
    id: int,
)
    requires
        0 <= id <= hooks.len(),
        spec_lookup(status, owner) == Some(true),
    ensures
        forall|j: int|
            0 <= j < spec_trace(hooks, spec_set(status, owner, false), chains, id).len()
                ==> (#[trigger] spec_trace(hooks, spec_set(status, owner, false), chains, id)[j])
                .spec_owner() != Some(owner),
        spec_trace(hooks, spec_set(spec_set(status, owner, false), owner, true), chains, id)
            == spec_trace(hooks, status, chains, id),
{
    let disabled = spec_set(status, owner, false);
    let restored = spec_set(disabled, owner, true);
    lemma_lookup_after_set(status, owner, false, owner);
    lemma_trace_events_enabled(hooks, disabled, chains, id);
    assert forall|n: Seq<char>| #[trigger] spec_lookup(restored, n) == spec_lookup(
        status,
        n,
    ) by {
        lemma_lookup_after_set(disabled, owner, true, n);
        lemma_lookup_after_set(status, owner, false, n);
    }
    lemma_trace_depends_on_lookup(hooks, restored, status, chains, id);
}

} // verus!

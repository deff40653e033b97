//! The decorator chain over the host's tuple-destination object.
//!
//! Extensions register rewriters: descriptors of callbacks around the
//! destination lifecycle (an optional query filter, optional startup,
//! shutdown and destroy callbacks, and the mandatory row callback).  When a
//! query starts delivering rows, the rewriters whose filter accepts the
//! query are snapshotted into an [`OutputDest`] wrapping the query's
//! original destination, tagged with a private marker so teardown code can
//! tell the decorator from destinations it does not own.
//!
//! Rows flow through the selected rewriters in registration order: each
//! receives a continuation and decides whether to pass the row on; the last
//! continuation is the original destination's own row callback.

use vstd::prelude::*;

verus! {

/// The private destination tag marking a decorator instance.
pub const OUTPUT_REWRITER_DEST: u32 = 2333;

/// The callbacks one extension registers around the destination lifecycle.
/// Callbacks are identities of host-callable entry points; an absent entry
/// is a no-op at that lifecycle stage.  The row callback is mandatory.
#[derive(Clone, Copy, PartialEq, Eq, Structural, Debug)]
pub struct OutputRewriter {
    /// Decides per query whether this rewriter takes part; absent means
    /// always.
    pub filter: Option<u64>,
    /// Run at result-shape announcement; returns this rewriter's per-query
    /// instance handle.
    pub startup: Option<u64>,
    /// Run when row delivery shuts down.
    pub shutdown: Option<u64>,
    /// Run when the destination is destroyed.
    pub destroy: Option<u64>,
    /// Run per row, with the continuation to the rest of the chain.
    pub receive_slot: Option<u64>,
}

/// One registered rewriter: the owning extension, its callbacks, and
/// whether it currently takes part in new queries.
#[derive(Debug)]
pub struct RewriterEntry {
    /// The registering extension.
    pub owner: String,
    /// The registered callbacks.
    pub rewriter: OutputRewriter,
    /// Disabled entries keep their position but are not selected.
    pub enabled: bool,
}

/// The model of a rewriter entry: owner as a character sequence.
pub struct RewriterEntryModel {
    /// The registering extension.
    pub owner: Seq<char>,
    /// The registered callbacks.
    pub rewriter: OutputRewriter,
    /// Whether the entry currently takes part in new queries.
    pub enabled: bool,
}

impl View for RewriterEntry {
    type V = RewriterEntryModel;

    open spec fn view(&self) -> RewriterEntryModel {
        RewriterEntryModel { owner: self.owner@, rewriter: self.rewriter, enabled: self.enabled }
    }
}

impl DeepView for RewriterEntry {
    type V = RewriterEntryModel;

    open spec fn deep_view(&self) -> RewriterEntryModel {
        self.view()
    }
}

/// The rewriters a query selects: the enabled entries whose filter is absent
/// or accepted the query, in registration order.  `accepted[i]` is what
/// entry `i`'s filter callback answered; it is read only where a filter is
/// present.
pub open spec fn spec_selected(entries: Seq<RewriterEntryModel>, accepted: Seq<bool>) -> Seq<
    OutputRewriter,
>
    decreases entries.len(),
{
    if entries.len() == 0 {
        Seq::empty()
    } else {
        let rest = spec_selected(entries.drop_first(), accepted.drop_first());
        if entries[0].enabled && (entries[0].rewriter.filter is None || accepted[0]) {
            seq![entries[0].rewriter] + rest
        } else {
            rest
        }
    }
}

/// One call of the row path.
#[derive(Clone, Copy, PartialEq, Eq, Structural, Debug)]
pub enum SinkCall {
    /// Invoke a selected rewriter's row callback with its instance handle
    /// and the continuation to the rest of the chain.
    Rewriter { callback: u64, instance: u64 },
    /// Forward to the original destination's own row callback.
    Original,
}

/// The ephemeral decorator wrapping one query's original destination.
pub struct OutputDest {
    /// The destination tag; [`OUTPUT_REWRITER_DEST`] marks the decorator.
    pub mydest: u32,
    /// The rewriters selected for this query, in registration order.
    pub rewriters: Vec<OutputRewriter>,
    /// Per-rewriter opaque instance handles collected at startup; `0` for a
    /// rewriter that declined or has no startup callback.
    pub rewriter_instances: Vec<u64>,
    /// Handle of the original destination this decorator wraps.
    pub original_dest: u64,
}

impl OutputDest {
    /// Every selected rewriter carries a row callback.
    pub open spec fn wf(self) -> bool {
        forall|i: int|
            0 <= i < self.rewriters@.len() ==> (#[trigger] self.rewriters@[i]).receive_slot
                is Some
    }

    /// Startup has run: one instance handle per selected rewriter.
    pub open spec fn started(self) -> bool {
        self.rewriter_instances@.len() == self.rewriters@.len()
    }

    /// A fresh decorator over the selected rewriters, marked with the
    /// private tag, with no instance handles yet.
    pub fn new(rewriters: Vec<OutputRewriter>, original_dest: u64) -> (r: Self)
        requires
            forall|i: int|
                0 <= i < rewriters@.len() ==> (#[trigger] rewriters@[i]).receive_slot is Some,
        ensures
            r.mydest == OUTPUT_REWRITER_DEST,
            r.rewriters == rewriters,
            r.rewriter_instances@ =~= Seq::<u64>::empty(),
            r.original_dest == original_dest,
            r.wf(),
    {
        Self { mydest: OUTPUT_REWRITER_DEST, rewriters, rewriter_instances: Vec::new(), original_dest }
    }

    /// The startup callbacks to run after forwarding startup to the original
    /// destination: one entry per selected rewriter, in order, `None` where
    /// the rewriter has no startup callback (its instance handle is then the
    /// null handle, with no call made).
    pub fn startup_callbacks(&self) -> (r: Vec<Option<u64>>)
        ensures
            r@ == self.rewriters@.map_values(|rw: OutputRewriter| rw.startup),
    {
        let mut r: Vec<Option<u64>> = Vec::new();
        let n = self.rewriters.len();
        let mut i: usize = 0;
        while i < n
            invariant
                0 <= i <= n,
                n == self.rewriters@.len(),
                r@.len() == i,
                forall|j: int| 0 <= j < i ==> r@[j] == (#[trigger] self.rewriters@[j]).startup,
            decreases n - i,
        {
            r.push(self.rewriters[i].startup);
            i = i + 1;
        }
        proof {
            assert(r@ =~= self.rewriters@.map_values(|rw: OutputRewriter| rw.startup));
        }
        r
    }

    /// Record the instance handles the startup callbacks returned, one per
    /// selected rewriter.
    pub fn record_instances(&mut self, instances: Vec<u64>)
        requires
            instances@.len() == old(self).rewriters@.len(),
        ensures
            *final(self) == (OutputDest { rewriter_instances: instances, ..*old(self) }),
            final(self).started(),
    {
        self.rewriter_instances = instances;
    }

    /// The row-path call at `depth`: the next selected rewriter's row
    /// callback with its instance handle, or — past the last rewriter — the
    /// forward to the original destination.
    pub fn receive_step(&self, depth: usize) -> (r: SinkCall)
        requires
            self.wf(),
            self.started(),
            depth <= self.rewriters@.len(),
        ensures
            depth < self.rewriters@.len() ==> r == (SinkCall::Rewriter {
                callback: self.rewriters@[depth as int].receive_slot->Some_0,
                instance: self.rewriter_instances@[depth as int],
            }),
            depth == self.rewriters@.len() ==> r == SinkCall::Original,
    {
        if depth < self.rewriters.len() {
            let cb = self.rewriters[depth].receive_slot.unwrap();
            SinkCall::Rewriter { callback: cb, instance: self.rewriter_instances[depth] }
        } else {
            SinkCall::Original
        }
    }

    /// The calls one row's delivery performs from `depth` on, when
    /// `continues[k]` says whether rewriter `k` invokes its continuation: a
    /// rewriter that declines suppresses the row for the rest of the chain.
    pub open spec fn spec_receive_trace(self, continues: Seq<bool>, depth: int) -> Seq<SinkCall>
        decreases self.rewriters@.len() - depth
            when 0 <= depth <= self.rewriters@.len()
    {
        if depth >= self.rewriters@.len() {
            seq![SinkCall::Original]
        } else {
            let call = seq![
                SinkCall::Rewriter {
                    callback: self.rewriters@[depth].receive_slot->Some_0,
                    instance: self.rewriter_instances@[depth],
                },
            ];
            if continues[depth] {
                call + self.spec_receive_trace(continues, depth + 1)
            } else {
                call
            }
        }
    }

    /// Unfold one row's delivery into the calls it performs, under the
    /// stated continuation behavior of each selected rewriter.
    pub fn receive_trace(&self, continues: &Vec<bool>, depth: usize) -> (r: Vec<SinkCall>)
        requires
            self.wf(),
            self.started(),
            depth <= self.rewriters@.len(),
            continues@.len() == self.rewriters@.len(),
        ensures
            r@ == self.spec_receive_trace(continues@, depth as int),
        decreases self.rewriters@.len() - depth,
    {
        let ghost goal = self.spec_receive_trace(continues@, depth as int);
        let mut r: Vec<SinkCall> = Vec::new();
        let step = self.receive_step(depth);
        r.push(step);
        if depth < self.rewriters.len() && continues[depth] {
            let mut rest = self.receive_trace(continues, depth + 1);
            r.append(&mut rest);
        }
        proof {
            assert(r@ =~= goal);
        }
        r
    }

    /// The shutdown calls: each selected rewriter's shutdown callback with
    /// its instance handle — rewriters without one are skipped — in order;
    /// the caller then forwards shutdown to the original destination.
    pub fn shutdown_calls(&self) -> (r: Vec<(u64, u64)>)
        requires
            self.started(),
        ensures
            r@ == spec_lifecycle_calls(
                self.rewriters@.map_values(|rw: OutputRewriter| rw.shutdown),
                self.rewriter_instances@,
            ),
    {
        let ghost cbs = self.rewriters@.map_values(|rw: OutputRewriter| rw.shutdown);
        let ghost inst = self.rewriter_instances@;
        let mut r: Vec<(u64, u64)> = Vec::new();
        let n = self.rewriters.len();
        let mut i: usize = 0;
        proof {
            assert(Seq::<(u64, u64)>::empty() + spec_lifecycle_calls(cbs, inst)
                =~= spec_lifecycle_calls(cbs, inst));
            assert(cbs.skip(0) =~= cbs);
            assert(inst.skip(0) =~= inst);
        }
        while i < n
            invariant
                0 <= i <= n,
                n == self.rewriters@.len(),
                n == self.rewriter_instances@.len(),
                cbs == self.rewriters@.map_values(|rw: OutputRewriter| rw.shutdown),
                inst == self.rewriter_instances@,
                r@ + spec_lifecycle_calls(cbs.skip(i as int), inst.skip(i as int))
                    == spec_lifecycle_calls(cbs, inst),
            decreases n - i,
        {
            proof {
                assert(cbs.skip(i as int).drop_first() =~= cbs.skip(i as int + 1));
                assert(inst.skip(i as int).drop_first() =~= inst.skip(i as int + 1));
                assert(cbs.skip(i as int)[0] == cbs[i as int]);
                assert(inst.skip(i as int)[0] == inst[i as int]);
            }
            match self.rewriters[i].shutdown {
                Some(c) => {
                    let ghost pre = r@;
                    r.push((c, self.rewriter_instances[i]));
                    proof {
                        assert(r@ + spec_lifecycle_calls(cbs.skip(i as int + 1), inst.skip(i as int + 1))
                            =~= pre + spec_lifecycle_calls(cbs.skip(i as int), inst.skip(i as int)));
                    }
                },
                None => {},
            }
            i = i + 1;
        }
        proof {
            assert(cbs.skip(n as int) =~= Seq::<Option<u64>>::empty());
            assert(spec_lifecycle_calls(cbs.skip(n as int), inst.skip(n as int)) =~= Seq::<
                (u64, u64),
            >::empty());
            assert(r@ =~= r@ + Seq::<(u64, u64)>::empty());
        }
        r
    }

    /// The destroy calls: as [`Self::shutdown_calls`], for the destroy
    /// callbacks; the caller then forwards destroy to the original
    /// destination, releasing the decorator.
    pub fn destroy_calls(&self) -> (r: Vec<(u64, u64)>)
        requires
            self.started(),
        ensures
            r@ == spec_lifecycle_calls(
                self.rewriters@.map_values(|rw: OutputRewriter| rw.destroy),
                self.rewriter_instances@,
            ),
    {
        let ghost cbs = self.rewriters@.map_values(|rw: OutputRewriter| rw.destroy);
        let ghost inst = self.rewriter_instances@;
        let mut r: Vec<(u64, u64)> = Vec::new();
        let n = self.rewriters.len();
        let mut i: usize = 0;
        proof {
            assert(Seq::<(u64, u64)>::empty() + spec_lifecycle_calls(cbs, inst)
                =~= spec_lifecycle_calls(cbs, inst));
            assert(cbs.skip(0) =~= cbs);
            assert(inst.skip(0) =~= inst);
        }
        while i < n
            invariant
                0 <= i <= n,
                n == self.rewriters@.len(),
                n == self.rewriter_instances@.len(),
                cbs == self.rewriters@.map_values(|rw: OutputRewriter| rw.destroy),
                inst == self.rewriter_instances@,
                r@ + spec_lifecycle_calls(cbs.skip(i as int), inst.skip(i as int))
                    == spec_lifecycle_calls(cbs, inst),
            decreases n - i,
        {
            proof {
                assert(cbs.skip(i as int).drop_first() =~= cbs.skip(i as int + 1));
                assert(inst.skip(i as int).drop_first() =~= inst.skip(i as int + 1));
                assert(cbs.skip(i as int)[0] == cbs[i as int]);
                assert(inst.skip(i as int)[0] == inst[i as int]);
            }
            match self.rewriters[i].destroy {
                Some(c) => {
                    let ghost pre = r@;
                    r.push((c, self.rewriter_instances[i]));
                    proof {
                        assert(r@ + spec_lifecycle_calls(cbs.skip(i as int + 1), inst.skip(i as int + 1))
                            =~= pre + spec_lifecycle_calls(cbs.skip(i as int), inst.skip(i as int)));
                    }
                },
                None => {},
            }
            i = i + 1;
        }
        proof {
            assert(cbs.skip(n as int) =~= Seq::<Option<u64>>::empty());
            assert(spec_lifecycle_calls(cbs.skip(n as int), inst.skip(n as int)) =~= Seq::<
                (u64, u64),
            >::empty());
            assert(r@ =~= r@ + Seq::<(u64, u64)>::empty());
        }
        r
    }
}

/// The `(callback, instance)` pairs of the present callbacks, in order.
pub open spec fn spec_lifecycle_calls(callbacks: Seq<Option<u64>>, instances: Seq<u64>) -> Seq<
    (u64, u64),
>
    decreases callbacks.len(),
{
    if callbacks.len() == 0 || instances.len() == 0 {
        Seq::empty()
    } else {
        let rest = spec_lifecycle_calls(callbacks.drop_first(), instances.drop_first());
        match callbacks[0] {
            Some(cb) => seq![(cb, instances[0])] + rest,
            None => rest,
        }
    }
}

/// Select the rewriters taking part in a query: the enabled entries whose
/// filter is absent or answered true.  `accepted[i]` is entry `i`'s filter
/// answer, read only where a filter is present.
pub fn select_rewriters(entries: &Vec<RewriterEntry>, accepted: &Vec<bool>) -> (r: Vec<
    OutputRewriter,
>)
    requires
        accepted@.len() == entries@.len(),
    ensures
        r@ == spec_selected(entries.deep_view(), accepted@),
    decreases entries@.len(),
{
    let ghost goal = spec_selected(entries.deep_view(), accepted@);
    let mut r: Vec<OutputRewriter> = Vec::new();
    let n = entries.len();
    let mut i: usize = 0;
    proof {
        lemma_selected_skip_empty(entries.deep_view(), accepted@);
        assert(entries.deep_view().skip(0) =~= entries.deep_view());
        assert(accepted@.skip(0) =~= accepted@);
    }
    while i < n
        invariant
            0 <= i <= n,
            n == entries@.len(),
            n == accepted@.len(),
            n == entries.deep_view().len(),
            r@ + spec_selected(entries.deep_view().skip(i as int), accepted@.skip(i as int))
                == spec_selected(entries.deep_view(), accepted@),
        decreases n - i,
    {
        proof {
            assert(entries.deep_view().skip(i as int).drop_first() =~= entries.deep_view().skip(
                i as int + 1,
            ));
            assert(accepted@.skip(i as int).drop_first() =~= accepted@.skip(i as int + 1));
            assert(entries.deep_view().skip(i as int)[0] == entries.deep_view()[i as int]);
            assert(accepted@.skip(i as int)[0] == accepted@[i as int]);
        }
        let take_it = entries[i].enabled && (entries[i].rewriter.filter.is_none() || accepted[i]);
        if take_it {
            let ghost pre = r@;
            r.push(entries[i].rewriter);
            proof {
                assert(r@ + spec_selected(
                    entries.deep_view().skip(i as int + 1),
                    accepted@.skip(i as int + 1),
                ) =~= pre + spec_selected(
                    entries.deep_view().skip(i as int),
                    accepted@.skip(i as int),
                ));
            }
        }
        i = i + 1;
    }
    proof {
        assert(entries.deep_view().skip(n as int) =~= Seq::<RewriterEntryModel>::empty());
        assert(spec_selected(entries.deep_view().skip(n as int), accepted@.skip(n as int)) =~= Seq::<
            OutputRewriter,
        >::empty());
        assert(r@ =~= r@ + Seq::<OutputRewriter>::empty());
    }
    r
}

/// Helper for the loop above: the invariant starts trivially.
proof fn lemma_selected_skip_empty(entries: Seq<RewriterEntryModel>, accepted: Seq<bool>)
    ensures
        Seq::<OutputRewriter>::empty() + spec_selected(entries, accepted) == spec_selected(
            entries,
            accepted,
        ),
{
    assert(Seq::<OutputRewriter>::empty() + spec_selected(entries, accepted) =~= spec_selected(
        entries,
        accepted,
    ));
}

/// Every selected rewriter is one of the entries' descriptor.
proof fn lemma_selected_from_entries(entries: Seq<RewriterEntryModel>, accepted: Seq<bool>)
    ensures
        forall|k: int|
            0 <= k < spec_selected(entries, accepted).len() ==> exists|i: int|
                0 <= i < entries.len() && #[trigger] spec_selected(entries, accepted)[k]
                    == entries[i].rewriter,
    decreases entries.len(),
{
    if entries.len() > 0 {
        lemma_selected_from_entries(entries.drop_first(), accepted.drop_first());
        let sel = spec_selected(entries, accepted);
        let sub = spec_selected(entries.drop_first(), accepted.drop_first());
        assert forall|k: int| 0 <= k < sel.len() implies exists|i: int|
            0 <= i < entries.len() && #[trigger] sel[k] == entries[i].rewriter by {
            if entries[0].enabled && (entries[0].rewriter.filter is None || accepted[0]) {
                if k == 0 {
                    assert(sel[k] == entries[0].rewriter);
                } else {
                    assert(sel[k] == sub[k - 1]);
                    let i = choose|i: int|
                        0 <= i < entries.drop_first().len()
                            && sub[k - 1] == entries.drop_first()[i].rewriter;
                    assert(sel[k] == entries[i + 1].rewriter);
                }
            } else {
                assert(sel[k] == sub[k]);
                let i = choose|i: int|
                    0 <= i < entries.drop_first().len()
                        && sub[k] == entries.drop_first()[i].rewriter;
                assert(sel[k] == entries[i + 1].rewriter);
            }
        }
    }
}

/// Construction trigger, at the start of a query's result delivery: when at
/// least one enabled rewriter's filter is absent or accepted the query, the
/// selected rewriters wrap the query's original destination in a fresh
/// tagged decorator; with none selected the destination is left untouched.
pub fn before_executor_run(
    entries: &Vec<RewriterEntry>,
    accepted: &Vec<bool>,
    original_dest: u64,
) -> (r: Option<OutputDest>)
    requires
        accepted@.len() == entries@.len(),
        forall|i: int|
            0 <= i < entries@.len() ==> (#[trigger] entries@[i]).rewriter.receive_slot is Some,
    ensures
        r is None <==> spec_selected(entries.deep_view(), accepted@).len() == 0,
        r is Some ==> {
            &&& r->Some_0.mydest == OUTPUT_REWRITER_DEST
            &&& r->Some_0.rewriters@ == spec_selected(entries.deep_view(), accepted@)
            &&& r->Some_0.rewriter_instances@ == Seq::<u64>::empty()
            &&& r->Some_0.original_dest == original_dest
            &&& r->Some_0.wf()
        },
{
    let selected = select_rewriters(entries, accepted);
    if selected.is_empty() {
        None
    } else {
        proof {
            lemma_selected_from_entries(entries.deep_view(), accepted@);
            assert forall|i: int| 0 <= i < selected@.len() implies (
            #[trigger] selected@[i]).receive_slot is Some by {
                let k = choose|k: int|
                    0 <= k < entries.deep_view().len()
                        && selected@[i] == entries.deep_view()[k].rewriter;
                assert(entries.deep_view()[k].rewriter == entries@[k].rewriter);
            }
        }
        Some(OutputDest::new(selected, original_dest))
    }
}

/// Composition law: when every selected rewriter invokes its continuation,
/// one row's delivery runs each rewriter's row callback exactly once, in
/// registration order, and the original destination's row callback exactly
/// once, after all of them.
pub proof fn lemma_receive_all_continue(dest: OutputDest, continues: Seq<bool>, depth: int)
    requires
        dest.wf(),
        dest.started(),
        0 <= depth <= dest.rewriters@.len(),
        continues.len() == dest.rewriters@.len(),
        forall|k: int| depth <= k < continues.len() ==> #[trigger] continues[k],
    ensures
        ({
            let trace = dest.spec_receive_trace(continues, depth);
            &&& trace.len() == dest.rewriters@.len() - depth + 1
            &&& forall|k: int|
                depth <= k < dest.rewriters@.len() ==> trace[k - depth] == (SinkCall::Rewriter {
                    callback: (#[trigger] dest.rewriters@[k]).receive_slot->Some_0,
                    instance: dest.rewriter_instances@[k],
                })
            &&& trace[trace.len() - 1] == SinkCall::Original
            &&& forall|k: int| 0 <= k < trace.len() - 1 ==> (#[trigger] trace[k]) is Rewriter
        }),
    decreases dest.rewriters@.len() - depth,
{
    if depth < dest.rewriters@.len() {
        lemma_receive_all_continue(dest, continues, depth + 1);
    }
}

/// Teardown decision: only a destination carrying the decorator's private
/// tag is ours to destroy; any other destination is left untouched.
pub fn is_rewriter_dest(mydest: u32) -> (r: bool)
    ensures
        r == (mydest == OUTPUT_REWRITER_DEST),
{
    mydest == OUTPUT_REWRITER_DEST
}

} // verus!

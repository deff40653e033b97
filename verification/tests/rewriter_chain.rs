//! Tests of the output-rewriter decorator chain.

use pgextmgr::output_rewriter::{
    before_executor_run, is_rewriter_dest, select_rewriters, OutputDest, OutputRewriter,
    RewriterEntry, SinkCall, OUTPUT_REWRITER_DEST,
};

fn full_rewriter(filter: Option<u64>, base: u64) -> OutputRewriter {
    OutputRewriter {
        filter,
        startup: Some(base + 1),
        shutdown: Some(base + 2),
        destroy: Some(base + 3),
        receive_slot: Some(base + 4),
    }
}

fn entry(owner: &str, rewriter: OutputRewriter, enabled: bool) -> RewriterEntry {
    RewriterEntry {
        owner: owner.to_string(),
        rewriter,
        enabled,
    }
}

#[test]
fn filter_rejection_deselects_a_rewriter() {
    // R1 takes every query (no filter); R2's filter answers per query.
    let r1 = full_rewriter(None, 10);
    let r2 = full_rewriter(Some(99), 20);
    let entries = vec![entry("one", r1, true), entry("two", r2, true)];

    // A query R2's filter rejects: only R1 takes part.
    let selected = select_rewriters(&entries, &vec![true, false]);
    assert_eq!(selected.len(), 1);
    assert_eq!(selected[0].receive_slot, Some(14));

    // A query R2's filter accepts: R1 then R2, in registration order.
    let selected = select_rewriters(&entries, &vec![true, true]);
    assert_eq!(selected.len(), 2);
    assert_eq!(selected[0].receive_slot, Some(14));
    assert_eq!(selected[1].receive_slot, Some(24));
}

#[test]
fn disabled_entries_are_never_selected() {
    let entries = vec![
        entry("one", full_rewriter(None, 10), false),
        entry("two", full_rewriter(None, 20), true),
    ];
    let selected = select_rewriters(&entries, &vec![true, true]);
    assert_eq!(selected.len(), 1);
    assert_eq!(selected[0].receive_slot, Some(24));
}

#[test]
fn lifecycle_calls_visit_every_selected_rewriter_once() {
    let selected = vec![full_rewriter(None, 10), full_rewriter(Some(99), 20)];
    let mut dest = OutputDest::new(selected, 600);
    assert_eq!(dest.mydest, OUTPUT_REWRITER_DEST);

    let startups = dest.startup_callbacks();
    assert_eq!(startups, vec![Some(11), Some(21)]);
    dest.record_instances(vec![71, 72]);

    assert_eq!(dest.shutdown_calls(), vec![(12, 71), (22, 72)]);
    assert_eq!(dest.destroy_calls(), vec![(13, 71), (23, 72)]);
}

#[test]
fn absent_lifecycle_callbacks_are_skipped() {
    let quiet = OutputRewriter {
        filter: None,
        startup: None,
        shutdown: None,
        destroy: None,
        receive_slot: Some(34),
    };
    let mut dest = OutputDest::new(vec![quiet, full_rewriter(None, 20)], 600);
    assert_eq!(dest.startup_callbacks(), vec![None, Some(21)]);
    dest.record_instances(vec![0, 72]);
    assert_eq!(dest.shutdown_calls(), vec![(22, 72)]);
    assert_eq!(dest.destroy_calls(), vec![(23, 72)]);
}

#[test]
fn row_walk_steps_through_rewriters_then_original() {
    let mut dest = OutputDest::new(vec![full_rewriter(None, 10), full_rewriter(None, 20)], 600);
    dest.record_instances(vec![71, 72]);
    assert_eq!(
        dest.receive_step(0),
        SinkCall::Rewriter { callback: 14, instance: 71 }
    );
    assert_eq!(
        dest.receive_step(1),
        SinkCall::Rewriter { callback: 24, instance: 72 }
    );
    assert_eq!(dest.receive_step(2), SinkCall::Original);
}

#[test]
fn row_reaches_the_original_exactly_once_when_all_continue() {
    let mut dest = OutputDest::new(vec![full_rewriter(None, 10), full_rewriter(None, 20)], 600);
    dest.record_instances(vec![71, 72]);
    let trace = dest.receive_trace(&vec![true, true], 0);
    assert_eq!(
        trace,
        vec![
            SinkCall::Rewriter { callback: 14, instance: 71 },
            SinkCall::Rewriter { callback: 24, instance: 72 },
            SinkCall::Original,
        ]
    );
    let originals = trace.iter().filter(|c| matches!(c, SinkCall::Original)).count();
    assert_eq!(originals, 1);
}

#[test]
fn declining_the_continuation_suppresses_the_row() {
    let mut dest = OutputDest::new(vec![full_rewriter(None, 10), full_rewriter(None, 20)], 600);
    dest.record_instances(vec![71, 72]);
    let trace = dest.receive_trace(&vec![false, true], 0);
    assert_eq!(trace, vec![SinkCall::Rewriter { callback: 14, instance: 71 }]);
}

#[test]
fn no_selection_leaves_the_destination_untouched() {
    let entries = vec![entry("one", full_rewriter(Some(99), 10), true)];
    // The only rewriter's filter rejects the query: no decorator is built.
    assert!(before_executor_run(&entries, &vec![false], 600).is_none());
    // It accepts: the decorator wraps the original destination, tagged.
    let dest = before_executor_run(&entries, &vec![true], 600).unwrap();
    assert_eq!(dest.mydest, OUTPUT_REWRITER_DEST);
    assert_eq!(dest.original_dest, 600);
    assert_eq!(dest.rewriters.len(), 1);
    assert!(dest.rewriter_instances.is_empty());
}

#[test]
fn teardown_only_touches_the_tagged_destination() {
    assert!(is_rewriter_dest(OUTPUT_REWRITER_DEST));
    assert!(!is_rewriter_dest(0));
    assert!(!is_rewriter_dest(1));
}

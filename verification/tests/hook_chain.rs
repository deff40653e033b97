//! Tests of the per-point hook registry and the chain walk.

use pgextmgr::dispatch::{dispatch_step, dispatch_trace, DispatchAction, HookEvent};
use pgextmgr::hook_mgr::{HookError, HookMgr, HookType};
use pgextmgr::status::StatusTable;

fn chain_of(entries: &[(&str, HookType)]) -> Vec<(String, HookType)> {
    entries.iter().map(|(n, h)| (n.to_string(), *h)).collect()
}

fn status_of(entries: &[(&str, bool)]) -> StatusTable {
    let mut t = StatusTable::new();
    for (n, b) in entries {
        t.upsert(n.to_string(), *b);
    }
    t
}

fn owners_of(trace: &[HookEvent]) -> Vec<String> {
    trace
        .iter()
        .map(|e| match e {
            HookEvent::Call { owner, .. } => format!("call:{}", owner),
            HookEvent::Before { owner, .. } => format!("before:{}", owner),
            HookEvent::After { owner, .. } => format!("after:{}", owner),
            HookEvent::HostDefault => "host".to_string(),
        })
        .collect()
}

#[test]
fn handshake_keeps_a_new_hook_as_compatible() {
    let mut mgr = HookMgr::new(vec![101, 102, 103]);
    let handed = mgr.before_register(900, 7).unwrap();
    assert_eq!(handed, 101);
    // The extension installed its own callback 555 into the slot.
    let install = mgr.after_register("ext_a".to_string(), 555).unwrap();
    assert_eq!(install, 900);
    assert_eq!(mgr.hooks().len(), 1);
    assert_eq!(mgr.hooks()[0].0, "ext_a");
    assert!(matches!(mgr.hooks()[0].1, HookType::Compatible(555)));
}

#[test]
fn handshake_rolls_back_an_untouched_slot() {
    let mut mgr = HookMgr::new(vec![101, 102, 103]);
    let handed = mgr.before_register(900, 7).unwrap();
    // The extension never touched the slot: it still holds the handed value.
    let install = mgr.after_register("ext_a".to_string(), handed).unwrap();
    assert_eq!(install, 7, "the original slot value is restored");
    assert_eq!(mgr.hooks().len(), 0, "no phantom entry");
    assert_eq!(mgr.next_hook_id, 0, "no leaked identity");
    // The identity can be handed out again.
    assert_eq!(mgr.before_register(900, 7).unwrap(), 101);
}

#[test]
fn managed_registration_survives_the_handshake() {
    let mut mgr = HookMgr::new(vec![101, 102]);
    let handed = mgr.before_register(900, 7).unwrap();
    mgr.register("ext_a".to_string(), 11, 12).unwrap();
    let install = mgr.after_register("ext_a".to_string(), handed).unwrap();
    assert_eq!(install, 900, "the dispatcher goes into the slot");
    assert_eq!(mgr.hooks().len(), 1);
    assert!(matches!(mgr.hooks()[0].1, HookType::PgExt(11, 12)));
}

#[test]
fn pool_exhaustion_is_a_capacity_error() {
    let mut mgr = HookMgr::new(vec![101, 102]);
    for k in 0..2 {
        let handed = mgr.before_register(900, 7).unwrap();
        assert_eq!(handed, 101 + k);
        mgr.after_register(format!("ext_{}", k), 500 + k).unwrap();
    }
    // One more owner than the pool size: a capacity error, no overwriting.
    let r = mgr.before_register(900, 7);
    assert_eq!(r, Err(HookError::TooManyExtensions));
    assert_eq!(mgr.hooks().len(), 2, "existing owners keep their entries");
    assert_eq!(mgr.next_hook_id, 2);
}

#[test]
fn double_registration_is_an_error() {
    let mut mgr = HookMgr::new(vec![101, 102]);
    let _ = mgr.before_register(900, 7).unwrap();
    mgr.register("ext_a".to_string(), 11, 12).unwrap();
    assert_eq!(
        mgr.register("ext_a".to_string(), 13, 14),
        Err(HookError::ExtensionRegisteredTwice)
    );
    // Registering through the managed interface and also moving the slot is
    // the same fault, seen at the second phase.
    assert_eq!(
        mgr.after_register("ext_a".to_string(), 555),
        Err(HookError::ExtensionRegisteredTwice)
    );
}

#[test]
fn dispatch_step_follows_the_case_split() {
    let hooks = chain_of(&[
        ("a", HookType::Compatible(41)),
        ("b", HookType::PgExt(42, 43)),
        ("c", HookType::Compatible(44)),
    ]);
    let status = status_of(&[("a", true), ("b", true), ("c", false)]);
    assert_eq!(dispatch_step(&hooks, &status, 0), DispatchAction::InvokeCompatible(41));
    assert_eq!(dispatch_step(&hooks, &status, 1), DispatchAction::InvokeWrapped(42, 43));
    assert_eq!(dispatch_step(&hooks, &status, 2), DispatchAction::Skip);
    assert_eq!(dispatch_step(&hooks, &status, 3), DispatchAction::HostDefault);
}

#[test]
fn unknown_owner_counts_as_disabled() {
    let hooks = chain_of(&[("ghostly", HookType::Compatible(41))]);
    let status = StatusTable::new();
    assert_eq!(dispatch_step(&hooks, &status, 0), DispatchAction::Skip);
}

#[test]
fn ordering_all_compatible_in_registration_order() {
    let hooks = chain_of(&[
        ("a", HookType::Compatible(41)),
        ("b", HookType::Compatible(42)),
        ("c", HookType::Compatible(43)),
    ]);
    let status = status_of(&[("a", true), ("b", true), ("c", true)]);
    let chains = vec![true, true, true];
    let trace = dispatch_trace(&hooks, &status, &chains, 0);
    assert_eq!(owners_of(&trace), vec!["call:a", "call:b", "call:c", "host"]);
}

#[test]
fn empty_chain_falls_back_to_host() {
    let hooks: Vec<(String, HookType)> = Vec::new();
    let status = StatusTable::new();
    let chains: Vec<bool> = Vec::new();
    let trace = dispatch_trace(&hooks, &status, &chains, 0);
    assert_eq!(owners_of(&trace), vec!["host"]);
}

#[test]
fn all_disabled_falls_back_to_host() {
    let hooks = chain_of(&[
        ("a", HookType::Compatible(41)),
        ("b", HookType::PgExt(42, 43)),
    ]);
    let status = status_of(&[("a", false), ("b", false)]);
    let chains = vec![true, true];
    let trace = dispatch_trace(&hooks, &status, &chains, 0);
    assert_eq!(owners_of(&trace), vec!["host"]);
}

#[test]
fn non_chaining_compatible_ends_the_walk() {
    let hooks = chain_of(&[
        ("a", HookType::Compatible(41)),
        ("b", HookType::Compatible(42)),
    ]);
    let status = status_of(&[("a", true), ("b", true)]);
    let chains = vec![false, true];
    let trace = dispatch_trace(&hooks, &status, &chains, 0);
    assert_eq!(owners_of(&trace), vec!["call:a"]);
}

#[test]
fn wrapped_entry_brackets_every_later_effect() {
    let hooks = chain_of(&[
        ("a", HookType::Compatible(41)),
        ("w", HookType::PgExt(51, 52)),
        ("b", HookType::Compatible(42)),
    ]);
    let status = status_of(&[("a", true), ("w", true), ("b", true)]);
    let chains = vec![true, true, true];
    let trace = dispatch_trace(&hooks, &status, &chains, 0);
    assert_eq!(
        owners_of(&trace),
        vec!["call:a", "before:w", "call:b", "host", "after:w"]
    );
}

#[test]
fn nested_wrapped_entries_close_inner_to_outer() {
    let hooks = chain_of(&[
        ("w1", HookType::PgExt(51, 52)),
        ("w2", HookType::PgExt(61, 62)),
        ("c", HookType::Compatible(42)),
    ]);
    let status = status_of(&[("w1", true), ("w2", true), ("c", true)]);
    let chains = vec![true, true, true];
    let trace = dispatch_trace(&hooks, &status, &chains, 0);
    assert_eq!(
        owners_of(&trace),
        vec!["before:w1", "before:w2", "call:c", "host", "after:w2", "after:w1"]
    );
}

#[test]
fn disabling_and_reenabling_restores_the_walk() {
    let hooks = chain_of(&[
        ("a", HookType::Compatible(41)),
        ("b", HookType::Compatible(42)),
        ("c", HookType::Compatible(43)),
    ]);
    let mut status = status_of(&[("a", true), ("b", true), ("c", true)]);
    let chains = vec![true, true, true];
    let before = owners_of(&dispatch_trace(&hooks, &status, &chains, 0));

    assert!(status.set_status("b", false));
    let disabled = owners_of(&dispatch_trace(&hooks, &status, &chains, 0));
    assert_eq!(disabled, vec!["call:a", "call:c", "host"]);
    assert!(!disabled.iter().any(|o| o.contains(":b")));

    assert!(status.set_status("b", true));
    let restored = owners_of(&dispatch_trace(&hooks, &status, &chains, 0));
    assert_eq!(restored, before);
}

#[test]
fn upserting_an_existing_owner_keeps_one_entry() {
    let mut status = StatusTable::new();
    status.upsert("twin".to_string(), true);
    status.upsert("twin".to_string(), false);
    assert_eq!(status.len(), 1);
    assert_eq!(status.lookup("twin"), Some(false));
}

#[test]
fn status_of_unknown_owner_is_not_flipped() {
    let mut status = status_of(&[("a", true)]);
    assert!(!status.set_status("nobody", false));
    assert_eq!(status.lookup("a"), Some(true));
    assert_eq!(status.lookup("nobody"), None);
}

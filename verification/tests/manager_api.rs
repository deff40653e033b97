//! Tests of the process-wide manager: lifecycle handshakes, listings, and
//! the enable/disable surface.

use pgextmgr::api::PgExtApi;
use pgextmgr::dispatch::{dispatch_trace, HookEvent};
use pgextmgr::hook_mgr::{HookError, HookType};
use pgextmgr::manager::{HookSlots, Manager};
use pgextmgr::output_rewriter::OutputRewriter;

fn pool(base: u64) -> Vec<u64> {
    vec![base + 1, base + 2, base + 3, base + 4, base + 5]
}

fn overrides() -> HookSlots {
    HookSlots {
        planner: 910,
        executor_start: 920,
        executor_run: 930,
        executor_finish: 940,
        executor_end: 950,
    }
}

fn fresh_manager() -> Manager {
    Manager::new(
        pool(100),
        pool(200),
        pool(300),
        pool(400),
        pool(500),
        overrides(),
        971,
        972,
    )
}

fn empty_slots() -> HookSlots {
    HookSlots {
        planner: 0,
        executor_start: 0,
        executor_run: 0,
        executor_finish: 0,
        executor_end: 0,
    }
}

fn row_rewriter(filter: Option<u64>) -> OutputRewriter {
    OutputRewriter {
        filter,
        startup: None,
        shutdown: None,
        destroy: None,
        receive_slot: Some(700),
    }
}

/// Run one extension's load bracket; `planner_cb` is what the extension
/// leaves in the planning slot (`None` means it leaves the slot alone).
fn load_extension(mgr: &mut Manager, name: &str, slots: HookSlots, planner_cb: Option<u64>) -> HookSlots {
    let handed = mgr.before_init(name.to_string(), slots).unwrap();
    let after = HookSlots {
        planner: planner_cb.unwrap_or(handed.planner),
        ..handed
    };
    mgr.after_init(after)
}

#[test]
fn before_init_hands_out_one_identity_per_point() {
    let mut mgr = fresh_manager();
    let handed = mgr.before_init("ext_a".to_string(), empty_slots()).unwrap();
    assert_eq!(handed.planner, 101);
    assert_eq!(handed.executor_start, 201);
    assert_eq!(handed.executor_run, 301);
    assert_eq!(handed.executor_finish, 401);
    assert_eq!(handed.executor_end, 501);
}

#[test]
fn after_init_keeps_only_the_claimed_points() {
    let mut mgr = fresh_manager();
    let installed = load_extension(&mut mgr, "ext_a", empty_slots(), Some(777));
    // The planning slot was claimed: the manager's dispatcher goes in.
    assert_eq!(installed.planner, 910);
    // The other slots were untouched: their original (empty) values return.
    assert_eq!(installed.executor_start, 0);
    assert_eq!(installed.executor_run, 0);
    assert_eq!(installed.executor_finish, 0);
    assert_eq!(installed.executor_end, 0);
    assert_eq!(mgr.all_hooks.planner_hook.hooks().len(), 1);
    assert_eq!(mgr.all_hooks.executor_start_hook.hooks().len(), 0);
}

#[test]
fn slot_value_threads_through_successive_extensions() {
    let mut mgr = fresh_manager();
    let slots1 = load_extension(&mut mgr, "ext_a", empty_slots(), Some(777));
    // The next extension loads with the slots as the first one left them.
    let handed = mgr.before_init("ext_b".to_string(), slots1).unwrap();
    assert_eq!(handed.planner, 102, "second identity of the planning pool");
    let slots2 = mgr.after_init(HookSlots { planner: 778, ..handed });
    assert_eq!(slots2.planner, 910);
    let owners: Vec<&str> = mgr
        .all_hooks
        .planner_hook
        .hooks()
        .iter()
        .map(|(n, _)| n.as_str())
        .collect();
    assert_eq!(owners, vec!["ext_a", "ext_b"]);
}

#[test]
fn capacity_error_when_a_pool_runs_dry() {
    let mut mgr = Manager::new(
        vec![101],
        vec![201],
        vec![301],
        vec![401],
        vec![501],
        overrides(),
        971,
        972,
    );
    let _ = load_extension(&mut mgr, "ext_a", empty_slots(), Some(777));
    let r = mgr.before_init("ext_b".to_string(), empty_slots());
    assert_eq!(r, Err(HookError::TooManyExtensions));
    assert_eq!(mgr.installed_plugins.len(), 1, "nothing was recorded");
}

#[test]
fn all_lists_owners_in_load_order_with_status() {
    let mut mgr = fresh_manager();
    let s1 = load_extension(&mut mgr, "ext_a", empty_slots(), Some(777));
    let _ = load_extension(&mut mgr, "ext_b", s1, None);
    let rows = mgr.all();
    assert_eq!(rows.len(), 2);
    assert_eq!(rows[0].0, 0);
    assert_eq!(rows[0].1, "ext_a");
    assert_eq!(rows[0].2, "enabled");
    assert_eq!(rows[1].0, 1);
    assert_eq!(rows[1].1, "ext_b");
    assert_eq!(rows[1].2, "enabled");

    mgr.disable("ext_b").unwrap();
    let rows = mgr.all();
    assert_eq!(rows[1].2, "disabled");
    assert_eq!(rows[1].1, "ext_b", "toggling does not reorder");
}

#[test]
fn hooks_lists_chain_entries_per_point() {
    let mut mgr = fresh_manager();
    let _ = load_extension(&mut mgr, "ext_a", empty_slots(), Some(777));
    let api = PgExtApi::new("ext_a".to_string());
    api.register_output_rewriter(&mut mgr, &row_rewriter(None)).unwrap();
    let rows = mgr.hooks();
    let rendered: Vec<String> = rows
        .iter()
        .map(|(h, i, p)| format!("{}:{}:{}", h, i, p))
        .collect();
    assert_eq!(
        rendered,
        vec![
            "planner_hook:0:ext_a",
            "executor_run_hook:0:__pgext",
            "pgext_rewriters:0:ext_a",
        ]
    );
}

#[test]
fn enable_disable_unknown_owner_is_reported() {
    let mut mgr = fresh_manager();
    assert_eq!(mgr.enable("nobody"), Err(HookError::UnknownExtension));
    assert_eq!(mgr.disable("nobody"), Err(HookError::UnknownExtension));
}

#[test]
fn enable_disable_all_reports_the_owner_count() {
    let mut mgr = fresh_manager();
    let s1 = load_extension(&mut mgr, "ext_a", empty_slots(), Some(777));
    let _ = load_extension(&mut mgr, "ext_b", s1, Some(778));
    assert_eq!(mgr.disable_all(), 2);
    let rows = mgr.all();
    assert_eq!(rows[0].2, "disabled");
    assert_eq!(rows[1].2, "disabled");
    assert_eq!(mgr.enable_all(), 2);
    let rows = mgr.all();
    assert_eq!(rows[0].2, "enabled");
    assert_eq!(rows[1].2, "enabled");
}

#[test]
fn scenario_three_owners_and_a_disabled_middle() {
    let mut mgr = fresh_manager();
    let mut slots = empty_slots();
    for (name, cb) in [("A", 801u64), ("B", 802), ("C", 803)] {
        slots = load_extension(&mut mgr, name, slots, Some(cb));
    }
    // All three registered compatible handlers at the planning point; each
    // compatible callback chains on through the trampoline it was handed.
    let chains = vec![true, true, true];
    let trace = dispatch_trace(
        mgr.all_hooks.planner_hook.hooks(),
        &mgr.installed_plugins_status,
        &chains,
        0,
    );
    let rendered: Vec<String> = trace
        .iter()
        .map(|e| match e {
            HookEvent::Call { owner, callback } => format!("{}:{}", owner, callback),
            HookEvent::HostDefault => "host".to_string(),
            _ => "other".to_string(),
        })
        .collect();
    assert_eq!(rendered, vec!["A:801", "B:802", "C:803", "host"]);

    mgr.disable("B").unwrap();
    let trace = dispatch_trace(
        mgr.all_hooks.planner_hook.hooks(),
        &mgr.installed_plugins_status,
        &chains,
        0,
    );
    let rendered: Vec<String> = trace
        .iter()
        .map(|e| match e {
            HookEvent::Call { owner, callback } => format!("{}:{}", owner, callback),
            HookEvent::HostDefault => "host".to_string(),
            _ => "other".to_string(),
        })
        .collect();
    assert_eq!(rendered, vec!["A:801", "C:803", "host"]);
}

#[test]
fn reloading_an_owner_lists_it_twice_but_keeps_one_flag() {
    let mut mgr = fresh_manager();
    let s1 = load_extension(&mut mgr, "ext_a", empty_slots(), Some(777));
    let _ = load_extension(&mut mgr, "ext_a", s1, Some(778));
    let rows = mgr.all();
    assert_eq!(rows.len(), 2, "load order keeps both loads");
    assert_eq!(mgr.installed_plugins_status.len(), 1, "one status flag");
    mgr.disable("ext_a").unwrap();
    let rows = mgr.all();
    assert_eq!(rows[0].2, "disabled");
    assert_eq!(rows[1].2, "disabled");
}

#[test]
fn bootstrap_installs_the_managers_own_bracket() {
    let mut mgr = fresh_manager();
    let installed = mgr.bootstrap(empty_slots()).unwrap();
    // Only the execution-run slot takes the manager's dispatcher; the other
    // slots are restored to their original values.
    assert_eq!(installed.planner, 0);
    assert_eq!(installed.executor_run, 930);
    assert_eq!(mgr.all_hooks.executor_run_hook.hooks().len(), 1);
    let (owner, hook) = &mgr.all_hooks.executor_run_hook.hooks()[0];
    assert_eq!(owner, "__pgext");
    assert!(matches!(hook, HookType::PgExt(971, 972)));
    assert_eq!(mgr.all_hooks.planner_hook.hooks().len(), 0);
    let rows = mgr.all();
    assert_eq!(rows.len(), 1);
    assert_eq!(rows[0].1, "__pgext");
}

#[test]
fn registering_a_rewriter_adds_the_bracket_once() {
    let mut mgr = fresh_manager();
    let _ = load_extension(&mut mgr, "ext_a", empty_slots(), None);
    let api = PgExtApi::new("ext_a".to_string());
    api.register_output_rewriter(&mut mgr, &row_rewriter(None)).unwrap();
    api.register_output_rewriter(&mut mgr, &row_rewriter(Some(41))).unwrap();
    assert_eq!(mgr.all_hooks.rewriters.len(), 2);
    let bracket_entries = mgr
        .all_hooks
        .executor_run_hook
        .hooks()
        .iter()
        .filter(|(n, _)| n == "__pgext")
        .count();
    assert_eq!(bracket_entries, 1, "the bracket pair is installed once");
}

#[test]
fn disabling_an_owner_disables_its_rewriters() {
    let mut mgr = fresh_manager();
    let _ = load_extension(&mut mgr, "ext_a", empty_slots(), None);
    let api = PgExtApi::new("ext_a".to_string());
    api.register_output_rewriter(&mut mgr, &row_rewriter(None)).unwrap();
    assert!(mgr.all_hooks.rewriters[0].enabled);
    mgr.disable("ext_a").unwrap();
    assert!(!mgr.all_hooks.rewriters[0].enabled);
    mgr.enable("ext_a").unwrap();
    assert!(mgr.all_hooks.rewriters[0].enabled);
}

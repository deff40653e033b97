//! Tests of the extension catalogue queries and the build-file patcher.

use pgextmgr::plugin::{
    collect_shared_preload_libraries, default_check_strategy, default_install_strategy,
    find_plugin, CheckStrategy, InstallStrategy, Plugin, PluginDb, PluginError,
};
use pgextmgr::resolve_pgxs::patch_makefile;
use pgextmgr::text::{find_sub, str_eq};

fn plugin(name: &str, strategy: InstallStrategy, deps: &[&str]) -> Plugin {
    Plugin {
        name: name.to_string(),
        version: "1.0".to_string(),
        download_url_tar: None,
        download_url_zip: None,
        download_git: None,
        copy_from_contrib: None,
        no_download: None,
        resolver: "pgxs".to_string(),
        resolver_args: Vec::new(),
        install_strategy: strategy,
        check_strategy: CheckStrategy::Install,
        dependencies: deps.iter().map(|d| d.to_string()).collect(),
    }
}

#[test]
fn defaults_are_plain_install() {
    assert!(matches!(default_install_strategy(), InstallStrategy::Install));
    assert!(matches!(default_check_strategy(), CheckStrategy::Install));
}

#[test]
fn strategy_classes() {
    assert!(InstallStrategy::Preload.is_preload());
    assert!(InstallStrategy::PreloadInstall.is_preload());
    assert!(!InstallStrategy::Install.is_preload());
    assert!(!InstallStrategy::Load.is_preload());
    assert!(InstallStrategy::Install.is_install());
    assert!(InstallStrategy::PreloadInstall.is_install());
    assert!(InstallStrategy::LoadInstall.is_install());
    assert!(!InstallStrategy::Preload.is_install());
    assert!(InstallStrategy::Load.is_load());
    assert!(InstallStrategy::LoadInstall.is_load());
    assert!(!InstallStrategy::Install.is_load());
}

#[test]
fn find_plugin_returns_the_first_match() {
    let db = PluginDb {
        plugins: vec![
            plugin("alpha", InstallStrategy::Install, &[]),
            plugin("beta", InstallStrategy::Preload, &[]),
        ],
    };
    let p = find_plugin(&db, "beta").unwrap();
    assert_eq!(p.name, "beta");
    assert!(matches!(p.install_strategy, InstallStrategy::Preload));
}

#[test]
fn find_plugin_unknown_name_errors() {
    let db = PluginDb {
        plugins: vec![plugin("alpha", InstallStrategy::Install, &[])],
    };
    assert!(matches!(
        find_plugin(&db, "gamma"),
        Err(PluginError::PluginNotFound)
    ));
}

#[test]
fn preloads_collects_the_dependency_closure() {
    // gamma -> beta -> alpha, with alpha and gamma preloaded, beta not.
    let db = PluginDb {
        plugins: vec![
            plugin("alpha", InstallStrategy::Preload, &[]),
            plugin("beta", InstallStrategy::Install, &["alpha"]),
            plugin("gamma", InstallStrategy::PreloadInstall, &["beta"]),
        ],
    };
    let given = vec![plugin("gamma", InstallStrategy::PreloadInstall, &["beta"])];
    let mut r = collect_shared_preload_libraries(&db, &given);
    r.sort();
    assert_eq!(r, vec!["alpha".to_string(), "gamma".to_string()]);
}

#[test]
fn preloads_deduplicates_a_diamond() {
    // top depends on left and right, both depending on the preloaded base.
    let db = PluginDb {
        plugins: vec![
            plugin("base", InstallStrategy::Preload, &[]),
            plugin("left", InstallStrategy::Install, &["base"]),
            plugin("right", InstallStrategy::Install, &["base"]),
            plugin("top", InstallStrategy::Install, &["left", "right"]),
        ],
    };
    let given = vec![plugin("top", InstallStrategy::Install, &["left", "right"])];
    let r = collect_shared_preload_libraries(&db, &given);
    assert_eq!(r, vec!["base".to_string()]);
}

#[test]
fn preloads_of_an_install_only_set_are_empty() {
    let db = PluginDb {
        plugins: vec![
            plugin("alpha", InstallStrategy::Install, &[]),
            plugin("beta", InstallStrategy::Load, &["alpha"]),
        ],
    };
    let given = vec![plugin("beta", InstallStrategy::Load, &["alpha"])];
    let r = collect_shared_preload_libraries(&db, &given);
    assert!(r.is_empty());
}

#[test]
fn find_plugin_prefers_the_earlier_of_equal_names() {
    let db = PluginDb {
        plugins: vec![
            plugin("twin", InstallStrategy::Preload, &[]),
            plugin("twin", InstallStrategy::Load, &[]),
        ],
    };
    let p = find_plugin(&db, "twin").unwrap();
    assert!(matches!(p.install_strategy, InstallStrategy::Preload));
}

#[test]
fn preloads_names_an_overlapping_source_once() {
    // The given plugin is preloaded itself and also reachable as its own
    // catalogue entry through another source's dependency.
    let db = PluginDb {
        plugins: vec![
            plugin("shared", InstallStrategy::Preload, &[]),
            plugin("user", InstallStrategy::Install, &["shared"]),
        ],
    };
    let given = vec![
        plugin("user", InstallStrategy::Install, &["shared"]),
        plugin("shared", InstallStrategy::Preload, &[]),
    ];
    let r = collect_shared_preload_libraries(&db, &given);
    assert_eq!(r, vec!["shared".to_string()]);
}

#[test]
fn str_eq_compares_contents() {
    assert!(str_eq("chain", "chain"));
    assert!(!str_eq("chain", "chains"));
    assert!(!str_eq("chain", "chaim"));
    assert!(str_eq("", ""));
}

#[test]
fn find_sub_reports_the_first_occurrence() {
    assert_eq!(find_sub("abcabc", "bc"), Some(1));
    assert_eq!(find_sub("abcabc", "abc"), Some(0));
    assert_eq!(find_sub("abcabc", "cab"), Some(2));
    assert_eq!(find_sub("abcabc", "zz"), None);
    assert_eq!(find_sub("abc", ""), Some(0));
    assert_eq!(find_sub("ab", "abc"), None);
}

#[test]
fn patch_makefile_appends_a_fresh_block() {
    let content = "all:\n\techo hi\n";
    let patched = patch_makefile(content, "target:\n\techo t\n");
    assert_eq!(
        patched,
        "all:\n\techo hi\n\n# *****BEGIN PGEXT-CLI***** #\ntarget:\n\techo t\n\n# *****END PGEXT-CLI***** #\n"
    );
}

#[test]
fn patch_makefile_replaces_an_existing_block() {
    let content = "all:\n\techo hi\n";
    let once = patch_makefile(content, "old:\n\techo o\n");
    let twice = patch_makefile(&once, "new:\n\techo n\n");
    assert_eq!(
        twice,
        "all:\n\techo hi\n\n# *****BEGIN PGEXT-CLI***** #\nnew:\n\techo n\n\n# *****END PGEXT-CLI***** #\n"
    );
}

#[test]
fn patch_makefile_keeps_text_after_the_block() {
    let content = "before\n\n# *****BEGIN PGEXT-CLI***** #\nstale\n# *****END PGEXT-CLI***** #\nafter\n";
    let patched = patch_makefile(content, "fresh\n");
    assert_eq!(
        patched,
        "before\n\n# *****BEGIN PGEXT-CLI***** #\nfresh\n\n# *****END PGEXT-CLI***** #\nafter\n"
    );
}

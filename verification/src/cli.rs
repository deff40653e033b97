//! The command surface and workspace configuration of the surrounding
//! tooling: plain data carried between the argument parser, the
//! configuration file and the commands.  The argument parsing and file
//! handling themselves live outside the library.

use vstd::prelude::*;

verus! {

/// Where the workspace keeps its host installation: the configuration
/// tool, the data directory, and the in-tree extension sources.
pub struct WorkspaceConfig {
    /// Path to `pg_config`.
    pub pg_config: String,
    /// Directory that stores the host's configuration and data.
    pub pg_data: String,
    /// Source code contrib directory.
    pub pg_contrib: String,
}

impl WorkspaceConfig {
    /// A configuration from its three paths.
    pub fn new(pg_config: String, pg_data: String, pg_contrib: String) -> (r: Self)
        ensures
            r.pg_config == pg_config,
            r.pg_data == pg_data,
            r.pg_contrib == pg_contrib,
    {
        WorkspaceConfig { pg_config, pg_data, pg_contrib }
    }
}

/// Repeatedly run one extension's unit test while installing all other
/// extensions one by one
pub struct CmdDemo {
    /// The name of the extension (in the catalogue)
    pub name: String,
}

/// Init workspace
pub struct CmdInit {
    /// Path to `pg_config`
    pub pg_config: String,
    /// Directory that stores the host's configuration and data
    pub pg_data: String,
    /// Source code contrib directory
    pub pg_contrib: String,
}

/// Install extension
pub struct CmdInstall {
    /// The name of the extension (in the catalogue)
    pub name: String,
    /// Enable verbose mode
    pub verbose: bool,
}

/// Install the hook-inspection extensions
pub struct CmdInstallHook {}

/// Install all extensions in the catalogue
pub struct CmdInstallAll {
    /// Enable verbose mode
    pub verbose: bool,
}

/// List all extensions in the catalogue
pub struct CmdList {}

/// Test one extension
pub struct CmdTestSingle {
    /// The name of the extension (in the catalogue)
    pub name: String,
    /// Run extension unit tests
    pub check: bool,
}

/// Testing compatibility of a list of extensions
pub struct CmdTest {
    /// Extension names in the catalogue
    pub exts: Vec<String>,
    /// Run the last extension's unit tests after installing all extensions
    pub check_last: bool,
    /// Run custom statements after installing all extensions
    pub run_custom_sql: bool,
}

/// Test all extensions in the catalogue individually
pub struct CmdTestAll {
    /// Dump results to a file
    pub dump_to: Option<String>,
    /// Run extension unit tests
    pub check: bool,
}

} // verus!

//! The configuration record's defaults.  Loading and saving the
//! configuration file is I/O and lives with the caller, which validates
//! every loaded record with [`crate::models::AgentSyncConfig::validate`].

use vstd::prelude::*;

use crate::models::{AgentSyncConfig, default_base_dirs, default_tools};

verus! {

/// The configuration used when none exists yet: all three tools enabled,
/// rooted at the project directory.
pub fn create_default_config() -> (r: AgentSyncConfig)
    ensures
        r@.tools =~= seq!["cursor"@, "copilot"@, "windsurf"@],
        r@.base_dirs =~= seq!["."@],
{
    AgentSyncConfig { tools: default_tools(), base_dirs: default_base_dirs() }
}

} // verus!

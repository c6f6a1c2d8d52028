//! The plain configuration values the engine is driven by. Discovering and
//! reading the configuration file itself is orchestration around the engine.

use vstd::prelude::*;

verus! {

/// Where the layout document lives and which layout to start on.
#[derive(Debug, Clone)]
pub struct ControllerConfig {
    /// The path of the controller-layout document.
    pub input_config_path: String,
    /// The name of the layout to resolve at startup.
    pub layout: String,
}

/// Which skin to load and which of its backgrounds to select.
#[derive(Debug, Clone)]
pub struct SkinConfig {
    /// The directory under which each skin directory lives.
    pub skins_path: String,
    /// The name of the skin directory to load.
    pub skin_name: String,
    /// The declared background to select; the document's first background
    /// when absent.
    pub skin_background: Option<String>,
}

} // verus!

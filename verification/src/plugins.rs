//! What a plugin of the router is to the library.

use crate::error::ZResult;
use crate::runtime::Runtime;
use vstd::prelude::*;

verus! {

/// How the name of the library file of a plugin begins.
pub const PLUGIN_PREFIX: &'static str = "zplugin_";

/// A value of the crate `serde_json`.
#[verifier::external_type_specification]
#[verifier::external_body]
pub struct ExValue(serde_json::Value);

/// One answer of a plugin to a request on the admin space: a key and the
/// value under it.
#[non_exhaustive]
pub struct Response {
    pub key: String,
    pub value: serde_json::Value,
}

impl Response {
    /// The answer of the given key and value.
    pub fn new(key: String, value: serde_json::Value) -> (response: Self)
        ensures
            response.key == key,
            response.value == value,
    {
        Self { key, value }
    }
}

/// What a plugin is once started.
pub trait RunningPluginTrait {
    /// The answers of the plugin to a request on the admin space.
    fn adminspace_getter(&self, selector: &str, plugin_status_key: &str) -> ZResult<Vec<Response>>;
}

/// What can be started as a plugin.
pub trait Plugin {
    /// What the plugin is handed when it is started.
    type StartArgs;

    /// What the plugin is once started.
    type RunningPlugin;

    /// Starts the plugin under the given name.
    fn start(name: &str, args: &Self::StartArgs) -> ZResult<Self::RunningPlugin>;
}

/// A plugin of the router: it is handed the runtime when it is started.
pub trait ZenohPlugin: Plugin<StartArgs = Runtime> {

}

} // verus!

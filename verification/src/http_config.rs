//! Configuration of the HTTP trigger.

use vstd::prelude::*;

verus! {

/// Configuration for the HTTP trigger.
pub struct HttpTriggerConfig {
    /// Component ID to invoke.
    pub component: String,
    /// HTTP route the component will be invoked for.
    pub route: String,
    /// The HTTP executor the component requires; the inferred default
    /// is the native interface.
    pub executor: Option<HttpExecutorType>,
}

/// The executor for the HTTP component: the native interface, the
/// CGI-style interface with its own configuration, or the
/// standardized HTTP interface.
pub enum HttpExecutorType {
    /// The component implements the native HTTP interface.
    Spin,
    /// The component implements the CGI-style interface.
    Wagi(WagiTriggerConfig),
    /// The component implements the standardized HTTP interface.
    Wasi,
}

/// CGI-specific configuration for the HTTP executor.
pub struct WagiTriggerConfig {
    /// The name of the entrypoint.
    pub entrypoint: String,
    /// A space-separated representation of the argv array, with
    /// placeholders for the script name and the query arguments.
    pub argv: String,
}

impl Default for WagiTriggerConfig {
    /// The default entrypoint and argv placeholders.
    fn default() -> (r: WagiTriggerConfig)
        ensures
            r.entrypoint@ == "_start"@,
            r.argv@ == "${SCRIPT_NAME} ${ARGS}"@,
    {
        WagiTriggerConfig {
            entrypoint: "_start".to_owned(),
            argv: "${SCRIPT_NAME} ${ARGS}".to_owned(),
        }
    }
}

} // verus!

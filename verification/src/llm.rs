//! Configuration of the remote inference engine.

use vstd::prelude::*;

verus! {

/// The remote API dialect spoken by an inference endpoint.
pub enum ApiType {
    /// An endpoint compatible with the common open inference API.
    OpenAi,
    /// The native endpoint dialect.
    Default,
}

} // verus!

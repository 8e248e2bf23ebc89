//! Configuration of the remote blob-store backend.
//!
//! Only the configuration logic lives here: turning runtime
//! configuration into authentication options is pure and verified,
//! while the remote client itself is constructed by the embedder.

use vstd::prelude::*;

use crate::errors::Error;

verus! {

/// The remote blob-store backend factory.
pub struct AzureBlobStore {
    _priv: (),
}

/// Runtime configuration for the remote blob store.
pub struct AzureBlobStoreRuntimeConfig {
    /// The authorization key for the storage account, if configured
    /// directly.
    pub key: Option<String>,
    /// The storage account name.
    pub account: String,
}

/// Literal account/key options for authentication.
pub struct BlobStoreAzureRuntimeConfigOptions {
    account: String,
    key: String,
}

impl BlobStoreAzureRuntimeConfigOptions {
    /// The configured account name.
    pub closed spec fn spec_account(self) -> Seq<char> {
        self.account@
    }

    /// The configured authorization key.
    pub closed spec fn spec_key(self) -> Seq<char> {
        self.key@
    }

    /// Creates literal authentication options.
    pub fn new(account: String, key: String) -> (r: BlobStoreAzureRuntimeConfigOptions)
        ensures
            r.spec_account() == account@,
            r.spec_key() == key@,
    {
        BlobStoreAzureRuntimeConfigOptions { account, key }
    }
}

/// How the remote blob-store client authenticates.
pub enum BlobStoreAzureAuthOptions {
    /// The account and key were configured directly.
    RuntimeConfigValues(BlobStoreAzureRuntimeConfigOptions),
    /// The process environment supplies the credentials.
    Environmental,
}

impl AzureBlobStore {
    /// Creates the backend factory.
    pub fn new() -> (s: AzureBlobStore) {
        AzureBlobStore { _priv: () }
    }

    /// Derives the authentication options from the runtime
    /// configuration: a configured key selects literal credentials,
    /// and a missing key falls back to the process environment.
    pub fn make_store(&self, runtime_config: AzureBlobStoreRuntimeConfig) -> (r: Result<
        BlobStoreAzureAuthOptions,
        Error,
    >)
        ensures
            runtime_config.key matches Some(k) ==> (r matches Ok(a) && a
                matches BlobStoreAzureAuthOptions::RuntimeConfigValues(o) && o.spec_account()
                == runtime_config.account@ && o.spec_key() == k@),
            runtime_config.key is None ==> r == Result::<BlobStoreAzureAuthOptions, Error>::Ok(
                BlobStoreAzureAuthOptions::Environmental,
            ),
    {
        match runtime_config.key {
            Some(k) => Ok(
                BlobStoreAzureAuthOptions::RuntimeConfigValues(
                    BlobStoreAzureRuntimeConfigOptions::new(runtime_config.account, k),
                ),
            ),
            None => Ok(BlobStoreAzureAuthOptions::Environmental),
        }
    }
}

} // verus!

//! The core of an OAuth/OIDC multiplexing proxy.
//!
//! The proxy gives an upstream OAuth provider one stable callback URL and multiplexes it across
//! many application redirect targets. This crate holds what decides in it: which configuration is
//! acceptable and what it means, which redirects are allowed, how resources of several providers
//! combine, how transient state is sealed, and when authorization codes count as used.
//!
//! The crate does no I/O. Where a decision depends on a secret, a page of parameters, a clock or
//! the environment, the caller supplies it:
//!
//! - [`compile_resources`] compiles resource documents with a [`SecretResolver`];
//!   [`start_compilation`] does the same step by step, for callers that have to wait for secrets.
//! - [`SsmScan`] takes pages of parameters and says which page it needs next.
//! - [`Poller`] turns the results of loads into what a provider does next.
//! - [`MemoryReplayCache`] is told the time.
//!
//! Contracts are stated over the views of these types; the modules whose names end in `laws` and the
//! last sections of the others hold what follows from them for every configuration.

pub mod address;
pub mod compile;
pub mod compile_laws;
pub mod config;
pub mod content_laws;
pub mod document_laws;
pub mod duration;
pub mod error;
pub mod instance;
pub mod instance_laws;
pub mod json;
pub mod key;
pub mod meaning_laws;
pub mod model;
pub mod policy_laws;
pub mod polling;
pub mod provider_file;
pub mod provider_ssm;
pub mod registry;
pub mod replay;
pub mod request_laws;
pub mod resource_map;
pub mod seal;
pub mod settings;
pub mod ssm_scan;
pub mod text;

pub use address::Url;
pub use compile::{compile_resources, start_compilation, CompileStep, Compilation, SecretRequest};
pub use config::{
    ApiVersion, ClientAuthentication, InlineSecret, Metadata, OAuthClient, RedirectPolicy,
    ReferencedSecret, RelayResource, RelayResourceSpec, ResourceDocument, ResourceReference,
    ScopePolicy, SecretResolver, SecretSource, SecretValue, UpstreamEndpoints, UpstreamResource,
    UpstreamResourceSpec, API_VERSION,
};
pub use duration::{parse_duration, Duration};
pub use error::ConfigError;
pub use instance::{Instance, InstanceKey, UpstreamSpec};
pub use json::JsonValue;
pub use key::{ResourceKey, SecretString};
pub use model::{ClientAuth, ClientJwks, Origin, Relay, Upstream};
pub use polling::{Action, Poller, WhenUnheard};
pub use provider_file::{FileProvider, FileSecretResolver, LocalSecrets};
pub use provider_ssm::{parse_instance, RawClientAuth, RawInstance, SsmProvider};
pub use registry::{
    Collision, InstanceMap, InstanceResolver, ProviderSnapshot, Registry, RelayMap, ResolveError,
    ResourceKind, UpstreamMap,
};
pub use replay::{CacheError, MemoryReplayCache, ReplayCache};
pub use seal::{SealError, Sealer, XChaChaSealer};
pub use ssm_scan::{Parameter, ParameterPage, ReadParameter, ScanStep, SsmScan};

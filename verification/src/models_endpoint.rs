//! Where the catalog of models is fetched from.
use vstd::prelude::*;
use vstd::string::*;

use crate::text::{contains_char, owned};

verus! {

/// How long a fetch of the catalog may take.
pub const MODELS_REFRESH_TIMEOUT_MS: u64 = 5_000;

/// Where the catalog is.
pub const MODELS_SYNC_URL: &'static str =
    "https://raw.githubusercontent.com/Trirrin/codex/main/model.json";

/// The command that prints a provider's token.
#[derive(Debug, PartialEq, Eq)]
pub struct ModelProviderAuthInfo {
    pub command: String,
    pub args: Vec<String>,
    pub timeout_ms: u64,
    pub refresh_interval_ms: u64,
}

/// What is known of a provider.
#[derive(Debug, PartialEq, Eq)]
pub struct ModelProviderInfo {
    pub auth: Option<ModelProviderAuthInfo>,
    pub requires_openai_auth: bool,
}

impl ModelProviderInfo {
    /// Whether a command prints the provider's token.
    pub fn has_command_auth(&self) -> (r: bool)
        ensures
            r == (self.auth is Some),
    {
        self.auth.is_some()
    }
}

/// The catalog of a provider.
#[derive(Debug, PartialEq, Eq)]
pub struct OpenAiModelsEndpoint {
    pub provider_info: ModelProviderInfo,
    pub models_url: String,
}

/// Why the catalog could not be fetched.
#[derive(Debug, PartialEq, Eq)]
pub enum FetchError<E> {
    Timeout,
    Api(E),
}

/// A URL that asks for the catalog of a client's version.
pub open spec fn catalog_url(models_url: Seq<char>, client_version: Seq<char>) -> Seq<char> {
    models_url + (if models_url.contains('?') {
        "&"@
    } else {
        "?"@
    }) + "client_version="@ + client_version
}

impl OpenAiModelsEndpoint {
    /// The catalog of a provider at its usual place.
    pub fn new(provider_info: ModelProviderInfo) -> (r: OpenAiModelsEndpoint)
        ensures
            r.provider_info == provider_info,
            r.models_url@ == MODELS_SYNC_URL@,
    {
        Self::with_models_url(provider_info, owned(MODELS_SYNC_URL))
    }

    /// The catalog of a provider at another place.
    pub fn with_models_url(provider_info: ModelProviderInfo, models_url: String) -> (r:
        OpenAiModelsEndpoint)
        ensures
            r == (OpenAiModelsEndpoint { provider_info, models_url }),
    {
        OpenAiModelsEndpoint { provider_info, models_url }
    }

    /// The URL for a client's version.
    pub fn models_url_for_client(&self, client_version: &str) -> (r: String)
        ensures
            r@ == catalog_url(self.models_url@, client_version@),
    {
        let mut out = owned(self.models_url.as_str());
        if contains_char(self.models_url.as_str(), '?') {
            out.append("&");
        } else {
            out.append("?");
        }
        out.append("client_version=");
        out.append(client_version);
        out
    }

    /// Whether a command prints the provider's token.
    pub fn has_command_auth(&self) -> (r: bool)
        ensures
            r == (self.provider_info.auth is Some),
    {
        self.provider_info.has_command_auth()
    }
}

/// Whether the login, if there is one, uses the backend: `auth` says so of it.
pub fn uses_codex_backend(auth: Option<bool>) -> (r: bool)
    ensures
        r == (auth == Some(true)),
{
    match auth {
        Some(uses_backend) => uses_backend,
        None => false,
    }
}

/// What a fetch comes to: `None` stands for one that took too long.
pub fn fetch_result<R, E>(reply: Option<Result<R, E>>) -> (r: Result<R, FetchError<E>>)
    ensures
        match reply {
            None => r == Err::<R, FetchError<E>>(FetchError::Timeout),
            Some(Err(error)) => r == Err::<R, FetchError<E>>(FetchError::Api(error)),
            Some(Ok(response)) => r == Ok::<R, FetchError<E>>(response),
        },
{
    match reply {
        None => Err(FetchError::Timeout),
        Some(Err(error)) => Err(FetchError::Api(error)),
        Some(Ok(response)) => Ok(response),
    }
}

/// The version of the client is the last parameter of the URL: the first one where there is no other.
pub proof fn law_version_is_a_parameter(place: Seq<char>, parameters: Seq<char>, version: Seq<char>)
    requires
        !place.contains('?'),
    ensures
        catalog_url(place, version) == place + "?"@ + "client_version="@ + version,
        catalog_url(place + seq!['?'] + parameters, version) == place + seq!['?'] + parameters
            + "&"@ + "client_version="@ + version,
{
    let url = place + seq!['?'] + parameters;
    assert(url[place.len() as int] == '?');
}

} // verus!

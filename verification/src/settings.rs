//! The settings of a process: public address, sealing keys, poll intervals and providers.
//!
//! Values arrive as the environment has them; a setting that is absent is `None`.

use crate::address::{absolute_web_url, parse_outcome, parsed_url, Url, UrlParts};
use crate::duration::{
    accepted_durations_are_positive, duration_setting, parse_duration, Duration,
};
use crate::error::ConfigError;
use crate::provider_file::{self, FileProvider};
use crate::provider_ssm::{self, settings_problem, SsmProvider};
use crate::text::{join2, prefix_off_is_prefix_on, strip_prefix, without_prefix};
use base64::engine::general_purpose::STANDARD;
use base64::Engine;
use std::sync::Arc;
use vstd::prelude::*;

verus! {

/// The text of an optional setting.
pub open spec fn setting(value: Option<&str>) -> Option<Seq<char>> {
    match value {
        Some(value) => Some(value@),
        None => None,
    }
}

// ---------------------------------------------------------------------------------------------
// Public address
// ---------------------------------------------------------------------------------------------

/// The URL of a required setting, given what parsing it came to.
pub open spec fn checked_setting_url(name: Seq<char>, parsed: Result<UrlParts, Seq<char>>) -> Result<
    UrlParts,
    Seq<Seq<char>>,
> {
    match parsed {
        Err(message) => Err(seq![name + " must be a URL"@, message]),
        Ok(url) => if absolute_web_url(url) {
            Ok(url)
        } else {
            Err(seq![name + " must be an absolute http(s) URL"@])
        },
    }
}

/// The URL of a required setting. Where it has no value, `Err` says why.
pub open spec fn url_setting(name: Seq<char>, value: Result<Seq<char>, Seq<char>>) -> Result<
    UrlParts,
    Seq<Seq<char>>,
> {
    match value {
        Err(reason) => Err(seq![name + " is required"@, reason]),
        Ok(value) => checked_setting_url(name, parsed_url(value)),
    }
}

/// Accepts the URL of a required setting if it is an absolute http(s) URL.
pub fn check_required_url(name: &str, parsed: Result<Url, String>) -> (url: Result<Url, ConfigError>)
    ensures
        match url {
            Ok(url) => checked_setting_url(name@, parse_outcome(parsed)) == Ok::<
                UrlParts,
                Seq<Seq<char>>,
            >(url@),
            Err(error) => checked_setting_url(name@, parse_outcome(parsed)) == Err::<
                UrlParts,
                Seq<Seq<char>>,
            >(error@),
        },
{
    match parsed {
        Err(message) => {
            let error = ConfigError::msg(message).context(join2(name, " must be a URL"));
            assert(error@ =~= seq![name@ + " must be a URL"@, message@]);
            Err(error)
        },
        Ok(url) => {
            if url.is_absolute_web_url() {
                Ok(url)
            } else {
                Err(ConfigError::msg(join2(name, " must be an absolute http(s) URL")))
            }
        },
    }
}

/// Reads the required URL setting `name`; where it has no value, `value` says why.
pub fn required_url(name: &str, value: Result<String, String>) -> (url: Result<Url, ConfigError>)
    ensures
        ({
            let value = match value {
                Ok(value) => Ok::<Seq<char>, Seq<char>>(value@),
                Err(reason) => Err::<Seq<char>, Seq<char>>(reason@),
            };
            match url {
                Ok(url) => url_setting(name@, value) == Ok::<UrlParts, Seq<Seq<char>>>(url@),
                Err(error) => url_setting(name@, value) == Err::<UrlParts, Seq<Seq<char>>>(error@),
            }
        }),
{
    match value {
        Ok(value) => check_required_url(name, Url::parse(value.as_str())),
        Err(reason) => {
            let error = ConfigError::msg(reason).context(join2(name, " is required"));
            assert(error@ =~= seq![name@ + " is required"@, reason@]);
            Err(error)
        },
    }
}

// ---------------------------------------------------------------------------------------------
// Sealing keys
// ---------------------------------------------------------------------------------------------

/// The bytes that a padded base64 text stands for, or the text of the decoder's error.
pub uninterp spec fn base64_decoded(text: Seq<char>) -> Result<Seq<u8>, Seq<char>>;

/// The content of what decoding came to.
pub open spec fn decode_outcome(decoded: Result<Vec<u8>, String>) -> Result<Seq<u8>, Seq<char>> {
    match decoded {
        Ok(bytes) => Ok(bytes@),
        Err(message) => Err(message@),
    }
}

/// Calls `Engine::decode` of the engine `STANDARD`. Claimed: the result, with the display text of
/// the error on failure, depends on the text alone (it is [`base64_decoded`]).
#[verifier::external_body]
fn decode(text: &str) -> (decoded: Result<Vec<u8>, String>)
    ensures
        decode_outcome(decoded) == base64_decoded(text@),
{
    STANDARD.decode(text).map_err(|error| error.to_string())
}

/// The base64 text of a key setting, which may be marked as such in front.
pub open spec fn key_text(value: Seq<char>) -> Seq<char> {
    match without_prefix(value, "base64:"@) {
        Some(encoded) => encoded,
        None => value,
    }
}

/// The key of a setting, given what decoding its text came to.
pub open spec fn checked_key(name: Seq<char>, decoded: Result<Seq<u8>, Seq<char>>) -> Result<
    Seq<u8>,
    Seq<Seq<char>>,
> {
    match decoded {
        Err(message) => Err(seq![name + " must be base64"@, message]),
        Ok(bytes) => if bytes.len() == 32 {
            Ok(bytes)
        } else {
            Err(seq![name + " must decode to exactly 32 bytes"@])
        },
    }
}

/// The key of a setting; one that is not required may be absent.
pub open spec fn key_setting(name: Seq<char>, value: Option<Seq<char>>, required: bool) -> Result<
    Option<Seq<u8>>,
    Seq<Seq<char>>,
> {
    match value {
        None => if required {
            Err(seq![name + " is required"@])
        } else {
            Ok(None)
        },
        Some(value) => match checked_key(name, base64_decoded(key_text(value))) {
            Ok(key) => Ok(Some(key)),
            Err(error) => Err(error),
        },
    }
}

/// Accepts what the text of a key setting decodes to if it is 32 bytes.
pub fn check_key(name: &str, decoded: Result<Vec<u8>, String>) -> (key: Result<Vec<u8>, ConfigError>)
    ensures
        match key {
            Ok(key) => checked_key(name@, decode_outcome(decoded)) == Ok::<
                Seq<u8>,
                Seq<Seq<char>>,
            >(key@),
            Err(error) => checked_key(name@, decode_outcome(decoded)) == Err::<
                Seq<u8>,
                Seq<Seq<char>>,
            >(error@),
        },
{
    match decoded {
        Err(message) => {
            let error = ConfigError::msg(message).context(join2(name, " must be base64"));
            assert(error@ =~= seq![name@ + " must be base64"@, message@]);
            Err(error)
        },
        Ok(bytes) => {
            if bytes.len() == 32 {
                Ok(bytes)
            } else {
                Err(ConfigError::msg(join2(name, " must decode to exactly 32 bytes")))
            }
        },
    }
}

/// Reads the sealing key setting `name`.
pub fn seal_key(name: &str, value: Option<&str>, required: bool) -> (key: Result<
    Option<Vec<u8>>,
    ConfigError,
>)
    ensures
        match key {
            Ok(Some(key)) => key_setting(name@, setting(value), required) == Ok::<
                Option<Seq<u8>>,
                Seq<Seq<char>>,
            >(Some(key@)),
            Ok(None) => key_setting(name@, setting(value), required) == Ok::<
                Option<Seq<u8>>,
                Seq<Seq<char>>,
            >(None),
            Err(error) => key_setting(name@, setting(value), required) == Err::<
                Option<Seq<u8>>,
                Seq<Seq<char>>,
            >(error@),
        },
{
    match value {
        None => {
            if required {
                Err(ConfigError::msg(join2(name, " is required")))
            } else {
                Ok(None)
            }
        },
        Some(value) => {
            let encoded: &str = match strip_prefix(value, "base64:") {
                Some(encoded) => encoded,
                None => value,
            };
            match check_key(name, decode(encoded)) {
                Ok(key) => Ok(Some(key)),
                Err(error) => Err(error),
            }
        },
    }
}

/// A key that a setting yields is one that a sealer takes: it has 32 bytes.
pub proof fn accepted_keys_fit_the_sealer(
    name: Seq<char>,
    value: Option<Seq<char>>,
    required: bool,
    key: Seq<u8>,
)
    requires
        key_setting(name, value, required) == Ok::<Option<Seq<u8>>, Seq<Seq<char>>>(Some(key)),
    ensures
        key.len() == 32,
{
}

// ---------------------------------------------------------------------------------------------
// Durations
// ---------------------------------------------------------------------------------------------

/// A duration setting, or its default where it is absent, in nanoseconds.
pub open spec fn duration_or(name: Seq<char>, value: Option<Seq<char>>, default: nat) -> Result<
    nat,
    Seq<Seq<char>>,
> {
    match value {
        None => Ok(default),
        Some(value) => duration_setting(name, value),
    }
}

/// Reads the duration setting `name`.
pub fn duration_env(name: &str, value: Option<&str>, default: Duration) -> (duration: Result<
    Duration,
    ConfigError,
>)
    ensures
        match duration {
            Ok(duration) => duration_or(name@, setting(value), default@) == Ok::<
                nat,
                Seq<Seq<char>>,
            >(duration@),
            Err(error) => duration_or(name@, setting(value), default@) == Err::<
                nat,
                Seq<Seq<char>>,
            >(error@),
        },
{
    match value {
        None => Ok(default),
        Some(value) => parse_duration(name, value),
    }
}

// ---------------------------------------------------------------------------------------------
// Providers
// ---------------------------------------------------------------------------------------------

/// A provider that the settings switch on.
pub enum ConfiguredProvider<C> {
    File(FileProvider),
    Ssm(SsmProvider<C>),
}

/// The mathematical content of a [`ConfiguredProvider`], with intervals in nanoseconds.
pub enum ConfiguredProviderView<C> {
    File { path: Seq<char>, poll_interval: nat },
    Ssm { client: C, prefix: Seq<char>, poll_interval: nat },
}

impl<C> View for ConfiguredProvider<C> {
    type V = ConfiguredProviderView<C>;

    open spec fn view(&self) -> ConfiguredProviderView<C> {
        match *self {
            ConfiguredProvider::File(provider) => ConfiguredProviderView::File {
                path: provider.path_text(),
                poll_interval: provider.interval(),
            },
            ConfiguredProvider::Ssm(provider) => ConfiguredProviderView::Ssm {
                client: provider.connection(),
                prefix: provider.prefix_text(),
                poll_interval: provider.interval(),
            },
        }
    }
}

/// A default interval, in nanoseconds.
pub open spec fn default_interval(seconds: u64) -> nat {
    seconds as nat * 1_000_000_000
}

/// The settings of the file provider, if its path is set.
pub open spec fn file_setting<C>(path: Option<Seq<char>>, poll: Option<Seq<char>>) -> Result<
    Seq<ConfiguredProviderView<C>>,
    Seq<Seq<char>>,
> {
    match path {
        None => Ok(Seq::empty()),
        Some(path) => match duration_or(
            "OAUTHMUX_PROVIDER_FILE_POLL"@,
            poll,
            default_interval(provider_file::DEFAULT_POLL_SECONDS),
        ) {
            Err(error) => Err(error),
            Ok(poll_interval) => Ok(seq![ConfiguredProviderView::File { path, poll_interval }]),
        },
    }
}

/// The settings of the SSM provider, if its prefix is set, which comes with the client to use.
pub open spec fn ssm_setting<C>(ssm: Option<(Seq<char>, C)>, poll: Option<Seq<char>>) -> Result<
    Seq<ConfiguredProviderView<C>>,
    Seq<Seq<char>>,
> {
    match ssm {
        None => Ok(Seq::empty()),
        Some((prefix, client)) => match duration_or(
            "OAUTHMUX_PROVIDER_SSM_POLL"@,
            poll,
            default_interval(provider_ssm::DEFAULT_POLL_SECONDS),
        ) {
            Err(error) => Err(error),
            Ok(poll_interval) => match settings_problem(prefix, poll_interval) {
                Some(problem) => Err(seq![problem]),
                None => Ok(seq![ConfiguredProviderView::Ssm { client, prefix, poll_interval }]),
            },
        },
    }
}

/// The providers that settings switch on, in the order of their precedence: file before SSM.
pub open spec fn provider_settings<C>(
    file: Option<Seq<char>>,
    file_poll: Option<Seq<char>>,
    ssm: Option<(Seq<char>, C)>,
    ssm_poll: Option<Seq<char>>,
) -> Result<Seq<ConfiguredProviderView<C>>, Seq<Seq<char>>> {
    match file_setting(file, file_poll) {
        Err(error) => Err(error),
        Ok(files) => match ssm_setting(ssm, ssm_poll) {
            Err(error) => Err(error),
            Ok(parameters) => if files.len() + parameters.len() == 0 {
                Err(
                    seq![
                        "at least one provider is required; set OAUTHMUX_PROVIDER_FILE or OAUTHMUX_PROVIDER_SSM_PREFIX"@,
                    ],
                )
            } else {
                Ok(files + parameters)
            },
        },
    }
}

/// The contents of a list of providers.
pub open spec fn provider_views<C>(providers: Seq<ConfiguredProvider<C>>) -> Seq<
    ConfiguredProviderView<C>,
> {
    providers.map_values(|provider: ConfiguredProvider<C>| provider@)
}

/// The providers that the settings switch on; there has to be one. `ssm` is the prefix of the SSM
/// parameters, together with what talks to the parameter store.
pub fn configured_providers<C>(
    file: Option<&str>,
    file_poll: Option<&str>,
    ssm: Option<(&str, Arc<C>)>,
    ssm_poll: Option<&str>,
) -> (providers: Result<Vec<ConfiguredProvider<C>>, ConfigError>)
    ensures
        ({
            let ssm = match ssm {
                Some((prefix, client)) => Some((prefix@, *client)),
                None => None,
            };
            let expected = provider_settings(
                setting(file),
                setting(file_poll),
                ssm,
                setting(ssm_poll),
            );
            match providers {
                Ok(providers) => expected == Ok::<Seq<ConfiguredProviderView<C>>, Seq<Seq<char>>>(
                    provider_views(providers@),
                ),
                Err(error) => expected == Err::<Seq<ConfiguredProviderView<C>>, Seq<Seq<char>>>(
                    error@,
                ),
            }
        }),
{
    let mut providers: Vec<ConfiguredProvider<C>> = Vec::new();
    let ghost empty = Seq::<ConfiguredProviderView<C>>::empty();
    assert(provider_views(providers@) =~= empty);
    if let Some(path) = file {
        let poll: Duration = duration_env(
            "OAUTHMUX_PROVIDER_FILE_POLL",
            file_poll,
            Duration::from_secs(provider_file::DEFAULT_POLL_SECONDS),
        )?;
        proof {
            if let Some(value) = file_poll {
                accepted_durations_are_positive("OAUTHMUX_PROVIDER_FILE_POLL"@, value@);
            }
        }
        let provider: FileProvider = FileProvider::new(path, poll)?;
        providers.push(ConfiguredProvider::File(provider));
        assert(provider_views(providers@) =~= seq![
            ConfiguredProviderView::File { path: path@, poll_interval: poll@ },
        ]);
    }
    let ghost files = provider_views(providers@);
    assert(files + empty =~= files);
    if let Some((prefix, client)) = ssm {
        let poll: Duration = duration_env(
            "OAUTHMUX_PROVIDER_SSM_POLL",
            ssm_poll,
            Duration::from_secs(provider_ssm::DEFAULT_POLL_SECONDS),
        )?;
        let provider: SsmProvider<C> = SsmProvider::new(client, prefix, poll)?;
        providers.push(ConfiguredProvider::Ssm(provider));
        assert(provider_views(providers@) =~= files + seq![
            ConfiguredProviderView::Ssm { client: *client, prefix: prefix@, poll_interval: poll@ },
        ]);
    }
    if providers.len() == 0 {
        return Err(
            ConfigError::msg(
                "at least one provider is required; set OAUTHMUX_PROVIDER_FILE or OAUTHMUX_PROVIDER_SSM_PREFIX".to_owned(),
            ),
        );
    }
    Ok(providers)
}

/// Whether the registry has to be put together again: some provider has a new snapshot. A provider
/// that has stopped (`None`) has none.
pub fn registry_outdated(changes: &Vec<Option<bool>>) -> (outdated: bool)
    ensures
        outdated == changes@.contains(Some(true)),
{
    for i in 0..changes.len()
        invariant
            forall|j: int| 0 <= j < i ==> changes@[j] != Some(true),
    {
        if let Some(changed) = changes[i] {
            if changed {
                assert(changes@[i as int] == Some(true));
                return true;
            }
        }
    }
    false
}

// ---------------------------------------------------------------------------------------------
// Laws
// ---------------------------------------------------------------------------------------------

/// A required URL is the one that its text parses to, if that is an http(s) URL with a host. What is
/// missing, no URL, or another URL is refused, in words that give the name of the setting.
pub proof fn required_urls_by_their_texts(name: Seq<char>, value: Seq<char>, reason: Seq<char>)
    ensures
        url_setting(name, Err(reason)) == Err::<UrlParts, Seq<Seq<char>>>(
            seq![name + " is required"@, reason],
        ),
        parsed_url(value) matches Err(message) ==> url_setting(name, Ok(value)) == Err::<
            UrlParts,
            Seq<Seq<char>>,
        >(seq![name + " must be a URL"@, message]),
        parsed_url(value) matches Ok(url) ==> url_setting(name, Ok(value)) == (if (url.scheme
            == "http"@ || url.scheme == "https"@) && url.host is Some {
            Ok::<UrlParts, Seq<Seq<char>>>(url)
        } else {
            Err::<UrlParts, Seq<Seq<char>>>(seq![name + " must be an absolute http(s) URL"@])
        }),
        url_setting(name, Ok(value)) == checked_setting_url(name, parsed_url(value)),
{
}

/// The text of a key is the setting, without `base64:` in front if it starts so.
pub proof fn keys_may_be_marked(encoded: Seq<char>, value: Seq<char>)
    ensures
        key_text("base64:"@ + encoded) == encoded,
        !(value.len() >= 7 && value.take(7) == "base64:"@) ==> key_text(value) == value,
{
    reveal_strlit("base64:");
    prefix_off_is_prefix_on("base64:"@ + encoded, "base64:"@, encoded);
    prefix_off_is_prefix_on(value, "base64:"@, encoded);
}

/// A key is what the outside decoder makes of its text, if that is 32 bytes. A key that is missing
/// is refused only if it is required. What is no base64, or other than 32 bytes, is refused, in
/// words that give the name of the setting.
pub proof fn keys_are_decoded_texts(name: Seq<char>, value: Seq<char>, required: bool)
    ensures
        key_setting(name, None, true) == Err::<Option<Seq<u8>>, Seq<Seq<char>>>(
            seq![name + " is required"@],
        ),
        key_setting(name, None, false) == Ok::<Option<Seq<u8>>, Seq<Seq<char>>>(None),
        base64_decoded(key_text(value)) matches Err(message) ==> key_setting(
            name,
            Some(value),
            required,
        ) == Err::<Option<Seq<u8>>, Seq<Seq<char>>>(seq![name + " must be base64"@, message]),
        base64_decoded(key_text(value)) matches Ok(bytes) ==> key_setting(
            name,
            Some(value),
            required,
        ) == (if bytes.len() == 32 {
            Ok::<Option<Seq<u8>>, Seq<Seq<char>>>(Some(bytes))
        } else {
            Err::<Option<Seq<u8>>, Seq<Seq<char>>>(seq![name + " must decode to exactly 32 bytes"@])
        }),
        match checked_key(name, base64_decoded(key_text(value))) {
            Ok(key) => key_setting(name, Some(value), required) == Ok::<
                Option<Seq<u8>>,
                Seq<Seq<char>>,
            >(Some(key)),
            Err(error) => key_setting(name, Some(value), required) == Err::<
                Option<Seq<u8>>,
                Seq<Seq<char>>,
            >(error),
        },
{
}

/// A duration that is set is what its text says; one that is not is its default.
pub proof fn durations_have_defaults(name: Seq<char>, value: Seq<char>, default: nat)
    ensures
        duration_or(name, None, default) == Ok::<nat, Seq<Seq<char>>>(default),
        duration_or(name, Some(value), default) == duration_setting(name, value),
{
}

/// The interval of the file provider: what is set, or 30 seconds.
pub open spec fn file_interval(poll: Option<Seq<char>>) -> Result<nat, Seq<Seq<char>>> {
    match poll {
        Some(value) => duration_setting("OAUTHMUX_PROVIDER_FILE_POLL"@, value),
        None => Ok(30_000_000_000),
    }
}

/// The interval of the SSM provider: what is set, or 60 seconds.
pub open spec fn ssm_interval(poll: Option<Seq<char>>) -> Result<nat, Seq<Seq<char>>> {
    match poll {
        Some(value) => duration_setting("OAUTHMUX_PROVIDER_SSM_POLL"@, value),
        None => Ok(60_000_000_000),
    }
}

/// The providers that settings switch on: that of files by a path, that of parameters by a prefix,
/// files first. Each has its own interval. Without any of them the settings are refused; otherwise
/// the first thing that is wrong decides, files first.
pub proof fn settings_switch_providers_on<C>(
    path: Seq<char>,
    file_poll: Option<Seq<char>>,
    prefix: Seq<char>,
    client: C,
    ssm_poll: Option<Seq<char>>,
)
    ensures
        provider_settings::<C>(None, file_poll, None, ssm_poll) == Err::<
            Seq<ConfiguredProviderView<C>>,
            Seq<Seq<char>>,
        >(
            seq![
                "at least one provider is required; set OAUTHMUX_PROVIDER_FILE or OAUTHMUX_PROVIDER_SSM_PREFIX"@,
            ],
        ),
        file_interval(file_poll) matches Err(error) ==> provider_settings::<C>(
            Some(path),
            file_poll,
            None,
            ssm_poll,
        ) == Err::<Seq<ConfiguredProviderView<C>>, Seq<Seq<char>>>(error) && provider_settings(
            Some(path),
            file_poll,
            Some((prefix, client)),
            ssm_poll,
        ) == Err::<Seq<ConfiguredProviderView<C>>, Seq<Seq<char>>>(error),
        file_interval(file_poll) matches Ok(interval) ==> provider_settings::<C>(
            Some(path),
            file_poll,
            None,
            ssm_poll,
        ) == Ok::<Seq<ConfiguredProviderView<C>>, Seq<Seq<char>>>(
            seq![ConfiguredProviderView::File { path, poll_interval: interval }],
        ),
        ssm_interval(ssm_poll) matches Err(error) ==> provider_settings(
            None,
            file_poll,
            Some((prefix, client)),
            ssm_poll,
        ) == Err::<Seq<ConfiguredProviderView<C>>, Seq<Seq<char>>>(error) && (file_interval(
            file_poll,
        ) is Ok ==> provider_settings(Some(path), file_poll, Some((prefix, client)), ssm_poll)
            == Err::<Seq<ConfiguredProviderView<C>>, Seq<Seq<char>>>(error)),
        ssm_interval(ssm_poll) matches Ok(interval) ==> (settings_problem(prefix, interval)
            matches Some(problem) ==> provider_settings(
            None,
            file_poll,
            Some((prefix, client)),
            ssm_poll,
        ) == Err::<Seq<ConfiguredProviderView<C>>, Seq<Seq<char>>>(seq![problem]) && (file_interval(
            file_poll,
        ) is Ok ==> provider_settings(Some(path), file_poll, Some((prefix, client)), ssm_poll)
            == Err::<Seq<ConfiguredProviderView<C>>, Seq<Seq<char>>>(seq![problem]))),
        ssm_interval(ssm_poll) matches Ok(interval) ==> settings_problem(prefix, interval) is None
            ==> provider_settings(None, file_poll, Some((prefix, client)), ssm_poll) == Ok::<
            Seq<ConfiguredProviderView<C>>,
            Seq<Seq<char>>,
        >(seq![ConfiguredProviderView::Ssm { client, prefix, poll_interval: interval }]) && (
        file_interval(file_poll) matches Ok(files) ==> provider_settings(
            Some(path),
            file_poll,
            Some((prefix, client)),
            ssm_poll,
        ) == Ok::<Seq<ConfiguredProviderView<C>>, Seq<Seq<char>>>(
            seq![
                ConfiguredProviderView::File { path, poll_interval: files },
                ConfiguredProviderView::Ssm { client, prefix, poll_interval: interval },
            ],
        )),
{
    let empty = Seq::<ConfiguredProviderView<C>>::empty();
    if let Ok(interval) = file_interval(file_poll) {
        let file = ConfiguredProviderView::<C>::File { path, poll_interval: interval };
        assert(seq![file] + empty =~= seq![file]);
        if let Ok(other) = ssm_interval(ssm_poll) {
            let ssm = ConfiguredProviderView::Ssm { client, prefix, poll_interval: other };
            assert(seq![file] + seq![ssm] =~= seq![file, ssm]);
        }
    }
    if let Ok(interval) = ssm_interval(ssm_poll) {
        let ssm = ConfiguredProviderView::Ssm { client, prefix, poll_interval: interval };
        assert(empty + seq![ssm] =~= seq![ssm]);
    }
}

/// What is read of settings and providers is what they hold.
pub proof fn setting_views_are_contents<C>(
    value: &str,
    bytes: Vec<u8>,
    message: String,
    files: FileProvider,
    parameters: SsmProvider<C>,
    list: Seq<ConfiguredProvider<C>>,
)
    ensures
        setting(Some(value)) == Some(value@),
        setting(None) is None,
        decode_outcome(Ok(bytes)) == Ok::<Seq<u8>, Seq<char>>(bytes@),
        decode_outcome(Err(message)) == Err::<Seq<u8>, Seq<char>>(message@),
        ConfiguredProvider::<C>::File(files)@ == (ConfiguredProviderView::<C>::File {
            path: files.path_text(),
            poll_interval: files.interval(),
        }),
        ConfiguredProvider::Ssm(parameters)@ == (ConfiguredProviderView::Ssm {
            client: parameters.connection(),
            prefix: parameters.prefix_text(),
            poll_interval: parameters.interval(),
        }),
        provider_views(list).len() == list.len(),
        forall|i: int| 0 <= i < list.len() ==> (#[trigger] provider_views(list)[i]) == list[i]@,
{
}

} // verus!

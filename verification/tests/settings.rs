use oauthmux::duration::{parse_number, NumberError};
use oauthmux::settings::{
    check_key, check_required_url, configured_providers, duration_env, registry_outdated,
    required_url, seal_key, ConfiguredProvider,
};
use oauthmux::{parse_duration, ConfigError, Duration, XChaChaSealer};
use std::sync::Arc;

fn said<T>(result: Result<T, ConfigError>) -> Vec<String> {
    result.err().unwrap().messages().clone()
}

#[test]
fn durations_require_units_and_positive_values() {
    assert_eq!(parse_duration("TEST", "2s").unwrap(), Duration::from_secs(2));
    assert!(parse_duration("TEST", "0s").is_err());
}

#[test]
fn every_unit_is_understood() {
    assert_eq!(parse_duration("T", "1500ms").unwrap(), Duration::from_millis(1500));
    assert_eq!(parse_duration("T", "30s").unwrap(), Duration::from_secs(30));
    assert_eq!(parse_duration("T", "5m").unwrap(), Duration::from_secs(300));
    assert_eq!(parse_duration("T", "1h").unwrap(), Duration::from_secs(3600));
    assert_eq!(parse_duration("T", "+1s").unwrap(), Duration::from_secs(1));
    assert_eq!(
        parse_duration("T", "18446744073709551615h").unwrap(),
        Duration::from_millis(u64::MAX),
    );
}

#[test]
fn bad_durations_are_named() {
    assert_eq!(said(parse_duration("T", "30")), vec!["T must use ms, s, m, or h units"]);
    assert_eq!(said(parse_duration("T", "")), vec!["T must use ms, s, m, or h units"]);
    assert_eq!(said(parse_duration("T", "0ms")), vec!["T must be greater than zero"]);
    assert_eq!(
        said(parse_duration("T", "s")),
        vec!["invalid T", "cannot parse integer from empty string"],
    );
    assert_eq!(
        said(parse_duration("T", "-1s")),
        vec!["invalid T", "invalid digit found in string"],
    );
    assert_eq!(
        said(parse_duration("T", "18446744073709551616s")),
        vec!["invalid T", "number too large to fit in target type"],
    );
}

#[test]
fn numbers_are_read_like_the_standard_library_does() {
    for text in ["0", "7", "+7", "007", "18446744073709551615", "", "+", "-", "1x", "x",
        "18446744073709551616", "99999999999999999999x", " 1"] {
        match text.parse::<u64>() {
            Ok(number) => assert_eq!(parse_number(text), Ok(number)),
            Err(error) => {
                assert_eq!(parse_number(text).err().unwrap().message(), error.to_string());
            }
        }
    }
    assert_eq!(parse_number(""), Err(NumberError::Empty));
}

#[test]
fn durations_are_exact() {
    assert_eq!(Duration::from_millis(1234).as_nanos(), 1_234_000_000);
    assert_eq!(Duration::from_secs(u64::MAX).as_nanos(), u64::MAX as u128 * 1_000_000_000);
    assert_eq!(Duration::from_parts(1, 5).unwrap().as_nanos(), 1_000_000_005);
    assert!(Duration::from_parts(0, 1_000_000_000).is_none());
    assert!(Duration::from_secs(0).is_zero());
    assert!(!Duration::from_parts(0, 1).unwrap().is_zero());
}

#[test]
fn the_public_url_is_required_and_absolute() {
    let url = required_url("URL", Ok("https://mux.example/base".into())).unwrap();
    assert_eq!(url.path, "/base");
    assert_eq!(
        said(required_url("URL", Err("environment variable not found".into()))),
        vec!["URL is required", "environment variable not found"],
    );
    assert_eq!(
        said(required_url("URL", Ok("nonsense".into()))),
        vec!["URL must be a URL", "relative URL without a base"],
    );
    assert_eq!(
        said(required_url("URL", Ok("mailto:a@b.example".into()))),
        vec!["URL must be an absolute http(s) URL"],
    );
    assert_eq!(said(check_required_url("URL", Err("why".into()))), vec!["URL must be a URL", "why"]);
}

#[test]
fn seal_keys_are_thirty_two_bytes_of_base64() {
    let text = "ERERERERERERERERERERERERERERERERERERERERERE=";
    assert_eq!(seal_key("KEY", Some(text), true).unwrap(), Some(vec![0x11; 32]));
    let marked = format!("base64:{text}");
    let key = seal_key("KEY", Some(&marked), false).unwrap().unwrap();
    assert_eq!(key, vec![0x11; 32]);
    assert!(XChaChaSealer::new(&key, None).is_ok());
    assert_eq!(seal_key("KEY", None, false).unwrap(), None);
    assert_eq!(said(seal_key("KEY", None, true)), vec!["KEY is required"]);
    assert_eq!(
        said(seal_key("KEY", Some("AAAA"), false)),
        vec!["KEY must decode to exactly 32 bytes"],
    );
    assert_eq!(said(seal_key("KEY", Some("!"), false))[0], "KEY must be base64");
    assert_eq!(said(seal_key("KEY", Some("base64:!"), false)).len(), 2);
    assert_eq!(said(check_key("KEY", Err("why".into()))), vec!["KEY must be base64", "why"]);
    assert_eq!(check_key("KEY", Ok(vec![1; 32])).unwrap(), vec![1; 32]);
}

#[test]
fn absent_durations_take_their_default() {
    let default = Duration::from_secs(9);
    assert_eq!(duration_env("T", None, default).unwrap(), default);
    assert_eq!(duration_env("T", Some("2s"), default).unwrap(), Duration::from_secs(2));
    assert_eq!(said(duration_env("T", Some("2"), default)), vec!["T must use ms, s, m, or h units"]);
}

#[test]
fn file_comes_before_ssm() {
    let providers = configured_providers(
        Some("config.yaml"),
        None,
        Some(("/oauthmux/", Arc::new(1_u8))),
        Some("5s"),
    )
    .unwrap();
    assert_eq!(providers.len(), 2);
    let ConfiguredProvider::File(file) = &providers[0] else {
        panic!("expected the file provider first");
    };
    assert_eq!(file.path(), "config.yaml");
    assert_eq!(file.poll_interval(), Duration::from_secs(30));
    let ConfiguredProvider::Ssm(ssm) = &providers[1] else {
        panic!("expected the SSM provider second");
    };
    assert_eq!(ssm.prefix(), "/oauthmux/");
    assert_eq!(ssm.poll_interval(), Duration::from_secs(5));
    assert_eq!(**ssm.client(), 1);
}

#[test]
fn one_provider_is_required() {
    let none: Option<(&str, Arc<u8>)> = None;
    assert_eq!(
        said(configured_providers(None, Some("bad"), none, Some("bad"))),
        vec![
            "at least one provider is required; set OAUTHMUX_PROVIDER_FILE or OAUTHMUX_PROVIDER_SSM_PREFIX",
        ],
    );
    let none: Option<(&str, Arc<u8>)> = None;
    assert_eq!(
        said(configured_providers(Some("x"), Some("0s"), none, None)),
        vec!["OAUTHMUX_PROVIDER_FILE_POLL must be greater than zero"],
    );
    assert_eq!(
        said(configured_providers(None, None, Some(("x", Arc::new(1_u8))), None)),
        vec!["SSM prefix must start and end with '/'"],
    );
    assert_eq!(
        said(configured_providers(None, None, Some(("x", Arc::new(1_u8))), Some("1"))),
        vec!["OAUTHMUX_PROVIDER_SSM_POLL must use ms, s, m, or h units"],
    );
    let ssm = configured_providers(None, None, Some(("/x/", Arc::new(1_u8))), None).unwrap();
    assert_eq!(ssm.len(), 1);
    assert!(matches!(&ssm[0], ConfiguredProvider::Ssm(provider)
        if provider.poll_interval() == Duration::from_secs(60)));
}

#[test]
fn one_changed_provider_outdates_the_registry() {
    assert!(!registry_outdated(&vec![]));
    assert!(!registry_outdated(&vec![Some(false), None]));
    assert!(registry_outdated(&vec![None, Some(false), Some(true)]));
}

#[test]
fn errors_keep_their_causes() {
    let error = ConfigError::msg("cause".into()).context("middle".into()).context("outer".into());
    assert_eq!(error.message(), "outer");
    assert_eq!(*error.messages(), vec!["outer", "middle", "cause"]);
}

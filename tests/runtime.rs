use fluent_bundle::{FluentArgs, FluentBundle, FluentResource};
use l10n_gen::negotiate::parse_accept_language;
use l10n_gen::{negotiate_languages, L10nBundle};

const FTL: &str = "hello = Hello\nbye = Bye\n    .title = Goodbye\nonly-attr =\n    .x = X\ngreet = Hi { $name }\n";

fn langs(v: &[&str]) -> Vec<String> {
    v.iter().map(|s| s.to_string()).collect()
}

#[test]
fn quality_orders_requests() {
    let available = langs(&["en", "de"]);
    assert_eq!(negotiate_languages("fr;q=0.5, en;q=0.9", &available, 1), 0);
}

#[test]
fn no_match_falls_back_to_default() {
    let available = langs(&["en", "de"]);
    assert_eq!(negotiate_languages("xx", &available, 1), 1);
    assert_eq!(negotiate_languages("", &available, 1), 1);
}

#[test]
fn primary_subtag_matches_region_request() {
    let available = langs(&["de", "en"]);
    assert_eq!(negotiate_languages("en-GB", &available, 0), 1);
}

#[test]
fn equal_quality_keeps_request_order() {
    let available = langs(&["de", "en"]);
    assert_eq!(negotiate_languages("en;q=0.5, de;q=0.5", &available, 0), 1);
    assert_eq!(negotiate_languages("de, en", &available, 1), 0);
}

#[test]
fn first_available_entry_wins() {
    let available = langs(&["en-US", "en-GB"]);
    assert_eq!(negotiate_languages("en", &available, 1), 0);
}

#[test]
fn header_parsing() {
    let r = parse_accept_language(" de ; q=0.57 ,, en-GB;q=bad, 12345, fr;q=2, it;q=-1, es;q=.25");
    let got: Vec<(&str, u32)> = r.iter().map(|q| (q.language.as_str(), q.quality)).collect();
    assert_eq!(got, vec![("de", 570), ("en", 1000), ("fr", 2000), ("it", 0), ("es", 250)]);
}

#[test]
fn bundle_renders_messages() {
    let b = L10nBundle::new("en", FTL.as_bytes()).unwrap();
    assert_eq!(b.lang(), "en");
    assert_eq!(b.msg("hello", None).unwrap(), "Hello");
    assert_eq!(b.attr("bye", "title", None).unwrap(), "Goodbye");
    let mut args = FluentArgs::new();
    args.set("name", "Ann");
    assert_eq!(b.msg("greet", Some(args)).unwrap(), "Hi \u{2068}Ann\u{2069}");
}

#[test]
fn missing_message_is_an_error() {
    let b = L10nBundle::new("de", FTL.as_bytes()).unwrap();
    assert_eq!(b.msg("nope", None).unwrap_err(), "Could not find nope");
    assert_eq!(
        b.attr("hello", "x", None).unwrap_err(),
        "Could not find attribute 'x' for message 'hello'"
    );
    assert_eq!(b.msg("only-attr", None).unwrap_err(), "Could not find value for 'only-attr'");
    assert!(b.try_get_pattern("nope", None).is_err());
}

#[test]
fn unresolved_argument_is_an_error() {
    let b = L10nBundle::new("en", FTL.as_bytes()).unwrap();
    let e = b.msg("greet", None).unwrap_err();
    assert!(e.starts_with("Invalid format for message 'greet': ["), "{e}");
    let mut args = FluentArgs::new();
    args.set("other", 1);
    let e = b.msg("greet", Some(args)).unwrap_err();
    assert!(e.starts_with("Invalid format for message 'greet' with args other="), "{e}");
}

#[test]
fn bundle_construction_errors() {
    assert!(L10nBundle::new("en", &[0xff, 0xfe]).is_err());
    assert!(L10nBundle::new("not a tag!", FTL.as_bytes()).is_err());
    assert!(L10nBundle::new("en", b"= broken").is_err());
}

#[test]
fn extracted_pattern_renders_like_message() {
    let b = L10nBundle::new("en", FTL.as_bytes()).unwrap();
    let pattern = b.try_get_pattern("hello", None).unwrap();
    let mut fb = FluentBundle::new(vec!["en".parse().unwrap()]);
    fb.add_resource(FluentResource::try_new(FTL.to_string()).unwrap()).unwrap();
    let mut errors = vec![];
    let rendered = fb.format_pattern(pattern, None, &mut errors).to_string();
    assert!(errors.is_empty());
    assert_eq!(rendered, b.msg("hello", None).unwrap());
}

#[test]
fn invalid_utf8_error_text() {
    let e = L10nBundle::new("en", &[0xff, 0xfe]).err().unwrap();
    assert!(e.starts_with("Could not read ftl string due to: "), "{e}");
    assert!(L10nBundle::new("en", b"a = 1\na = 2\n").is_err());
}

#[test]
fn argument_list_pairs() {
    let pairs = vec![("n".to_string(), "1".to_string()), ("m".to_string(), "\"x\"".to_string())];
    assert_eq!(l10n_gen::l10n_bundle::argument_list(&pairs), vec!["n=1", "m=\"x\""]);
    let e = l10n_gen::l10n_bundle::finish_format("m", None, "v".to_string(), &vec![], None);
    assert_eq!(e, Ok("v".to_string()));
    let e = l10n_gen::l10n_bundle::finish_format("m", Some("a"), "v".to_string(), &vec!["E".to_string()], Some(&vec!["n=1".to_string()]));
    assert_eq!(e, Err("Invalid format for attribute 'a' in message 'm' with args n=1: [E]".to_string()));
}

#[test]
fn infinite_and_nan_qualities() {
    let r = parse_accept_language("de;q=inf, en;q=NaN, fr;q=-Infinity, it;q=INF");
    let got: Vec<(&str, u32)> = r.iter().map(|q| (q.language.as_str(), q.quality)).collect();
    assert_eq!(got, vec![("de", 65535), ("en", 0), ("fr", 0), ("it", 65535)]);
}

#[test]
fn exponent_qualities() {
    let r = parse_accept_language("de;q=5e-1, en;q=1E2, fr;q=2.5e+1, it;q=1e-9, es;q=1e, pt;q=e1, nl;q=0.0015e3");
    let got: Vec<(&str, u32)> = r.iter().map(|q| (q.language.as_str(), q.quality)).collect();
    assert_eq!(
        got,
        vec![("de", 500), ("en", 65535), ("fr", 25000), ("it", 0), ("es", 1000), ("pt", 1000), ("nl", 1500)]
    );
    let available = langs(&["en", "fr"]);
    assert_eq!(negotiate_languages("en;q=5e-1, fr", &available, 0), 1);
}

use l10n_gen::analyzer::{analyze, id_less, language_order};
use l10n_gen::codegen::{accessor_functions, pattern_function_names, sanitize, string_function_names};
use l10n_gen::packer::{pack_single_blob, packed_len, slice_range};
use l10n_gen::{BuildError, BuildOptions, Builder, FtlOutputOptions, LangBundle, OutputMode, SourceFile};

fn source(path: &str, name: &str, text: &str) -> SourceFile {
    SourceFile { path: path.to_string(), name: name.to_string(), text: text.to_string() }
}

fn folder_bundles(root: &str, resources: &[(&str, &[(&str, &str)])]) -> Vec<LangBundle> {
    resources
        .iter()
        .map(|(lang, files)| {
            let files: Vec<SourceFile> = files
                .iter()
                .map(|(name, text)| source(&format!("{root}/{lang}/{name}.ftl"), name, text))
                .collect();
            LangBundle::from_sources(&files, lang, false).unwrap()
        })
        .collect()
}

const EN_GB: &str = "language-name = English\nhello = Hello\ngreeting = Hi { $name }\n    .title = Greeting\n";
const DE: &str = "language-name = Deutsch\nhello = Hallo\ngreeting = Hallo { $name }\n    .title = Gruss\n";

#[test]
fn test_locales_folder() {
    let ftl_opts = FtlOutputOptions::SingleFile {
        output_ftl_file: format!("src/tests/gen/test_locales.ftl"),
        compressor: None,
    };
    let options = BuildOptions::default()
        .with_locales_folder("src/tests/test_locales")
        .with_ftl_output(ftl_opts)
        .with_output_file_path("src/tests/gen/test_locales_gen.rs")
        .with_default_language("en-gb");
    let bundles = folder_bundles(
        "src/tests/test_locales",
        &[("de", &[("main", DE)]), ("en-gb", &[("main", EN_GB)])],
    );
    Builder::from_bundles(options, bundles).unwrap().generate().unwrap();
}

#[test]
fn test_locales_multi_resources() {
    let ftl_opts = FtlOutputOptions::SingleFile {
        output_ftl_file: format!("src/tests/gen/test_locales_multi_resources.ftl"),
        compressor: None,
    };
    let options = BuildOptions::default()
        .with_locales_folder("src/tests/test_locales_multi_resources")
        .with_ftl_output(ftl_opts)
        .with_output_file_path("src/tests/gen/test_locales_multi_resources_gen.rs")
        .with_default_language("en-gb");
    let bundles = folder_bundles(
        "src/tests/test_locales_multi_resources",
        &[
            ("de", &[("a", "hello = Hallo\n"), ("b", "bye = Tschuess\n")]),
            ("en-gb", &[("a", "hello = Hello\n"), ("b", "bye = Bye\n")]),
        ],
    );
    Builder::from_bundles(options, bundles).unwrap().generate().unwrap();
}

#[test]
fn test_locales_missing_msg() {
    let ftl_opts = FtlOutputOptions::SingleFile {
        output_ftl_file: format!("src/tests/gen/test_locales_missing_msg.ftl"),
        compressor: None,
    };
    let options = BuildOptions::default()
        .with_locales_folder("src/tests/test_locales")
        .with_ftl_output(ftl_opts)
        .with_output_file_path("src/tests/gen/test_locales_missing_msg_gen.rs")
        .with_default_language("en-gb");
    let bundles = folder_bundles(
        "src/tests/test_locales",
        &[("de", &[("main", "hello = Hallo\n")]), ("en-gb", &[("main", EN_GB)])],
    );
    Builder::from_bundles(options, bundles).unwrap().generate().unwrap();
}

#[test]
fn default_options() {
    let o = BuildOptions::default();
    assert_eq!(o.locales_folder, "locales");
    assert_eq!(o.output_file_path, "src/l10n.rs");
    assert_eq!(o.indentation, "    ");
    assert_eq!(o.default_language, "en");
    assert!(o.format);
    assert!(!o.deny_duplicate_keys);
    assert_eq!(o.output_mode, OutputMode::String { prefix: "msg_".to_string() });
    let o = o.without_format().with_deny_duplicate_keys().with_prefix("t_").with_indentation("\t");
    assert!(!o.format);
    assert!(o.deny_duplicate_keys);
    assert_eq!(o.indentation, "\t");
    assert_eq!(o.output_mode.string_prefix(), Some("t_"));
    assert_eq!(o.output_mode.pattern_prefix(), None);
}

#[test]
fn output_mode_prefixes() {
    assert_eq!(OutputMode::default_pattern().pattern_prefix(), Some("ptn_"));
    assert_eq!(OutputMode::default_pattern().string_prefix(), None);
    let both = OutputMode::default_both();
    assert_eq!(both.string_prefix(), Some("msg_"));
    assert_eq!(both.pattern_prefix(), Some("ptn_"));
}

#[test]
fn duplicate_key_names_first_file_as_original() {
    let files = vec![
        source("de/a.ftl", "a", "hello = Hallo\n"),
        source("de/b.ftl", "b", "bye = Tschuess\nhello = Servus\n"),
    ];
    match LangBundle::from_sources(&files, "de", true) {
        Err(BuildError::DuplicateKey { key, original, duplicate }) => {
            assert_eq!(key, "hello");
            assert_eq!(original, "de/a.ftl");
            assert_eq!(duplicate, "de/b.ftl");
        }
        other => panic!("unexpected {other:?}"),
    }
}

#[test]
fn duplicate_keys_coexist_when_allowed() {
    let files = vec![
        source("de/a.ftl", "a", "hello = Hallo\n"),
        source("de/b.ftl", "b", "hello = Servus\n"),
    ];
    let b = LangBundle::from_sources(&files, "de", false).unwrap();
    let ids: Vec<(&str, &str)> =
        b.messages.iter().map(|m| (m.id.as_str(), m.resource_name.as_str())).collect();
    assert_eq!(ids, vec![("hello", "a"), ("hello", "b")]);
}

#[test]
fn duplicate_within_one_file() {
    let files = vec![source("x.ftl", "x", "a = 1\nb = 2\na = 3\n")];
    match LangBundle::from_sources(&files, "en", true) {
        Err(BuildError::DuplicateKey { key, original, duplicate }) => {
            assert_eq!(key, "a");
            assert_eq!(original, "x.ftl");
            assert_eq!(duplicate, "x.ftl");
        }
        other => panic!("unexpected {other:?}"),
    }
}

#[test]
fn parse_error_fails_load() {
    let files = vec![source("a.ftl", "a", "hello = Hi\n"), source("b.ftl", "b", "= broken\n")];
    assert!(matches!(LangBundle::from_sources(&files, "en", true), Err(BuildError::FtlParse(_))));
}

#[test]
fn duplicate_reported_before_later_parse_error() {
    let files = vec![
        source("a.ftl", "a", "hello = Hi\nhello = Ho\n"),
        source("b.ftl", "b", "= broken\n"),
    ];
    assert!(matches!(
        LangBundle::from_sources(&files, "en", true),
        Err(BuildError::DuplicateKey { .. })
    ));
}

#[test]
fn empty_folder_gives_empty_bundle() {
    let b = LangBundle::from_sources(&vec![], "fr", true).unwrap();
    assert!(b.messages.is_empty());
    assert_eq!(b.language_name, None);
    assert_eq!(b.ftl, "");
    assert_eq!(b.language_id, "fr");
}

#[test]
fn combined_text_and_language_name() {
    let files = vec![
        source("a.ftl", "a", "hello = Hi"),
        source("b.ftl", "b", "language-name = English\nlanguage-name = Other\n"),
        source("c.ftl", "c", "language-name = Third\n"),
    ];
    let b = LangBundle::from_sources(&files, "en", false).unwrap();
    assert_eq!(b.language_name.as_deref(), Some("English"));
    assert_eq!(
        b.ftl,
        "\n## ########## Resource: a ###############\n\nhello = Hi\n\
         \n## ########## Resource: b ###############\n\nlanguage-name = English\nlanguage-name = Other\n\n\
         \n## ########## Resource: c ###############\n\nlanguage-name = Third\n\n"
    );
    assert_eq!(b.messages[0].id, "hello");
    assert_eq!(b.messages[0].resource_name, "a");
}

#[test]
fn from_ftl_single_resource() {
    let b = LangBundle::from_ftl("hello = Hi\n    .title = T\n    .aria-label = A\n", "main", "en", true).unwrap();
    assert_eq!(b.ftl, "hello = Hi\n    .title = T\n    .aria-label = A\n");
    assert_eq!(b.messages.len(), 1);
    assert_eq!(b.messages[0].attribute_ids, vec!["title".to_string(), "aria-label".to_string()]);
    assert!(matches!(LangBundle::from_ftl("= x", "main", "en", false), Err(BuildError::FtlParse(_))));
}

#[test]
fn language_name_needs_plain_text_and_no_attributes() {
    let b = LangBundle::from_ftl("language-name = { $x }\n", "m", "en", false).unwrap();
    assert_eq!(b.language_name, None);
    let b = LangBundle::from_ftl("language-name = Name\n    .a = b\n", "m", "en", false).unwrap();
    assert_eq!(b.language_name, None);
}

#[test]
fn missing_default_language_is_generation_error() {
    let bundles = folder_bundles("l", &[("de", &[("main", DE)])]);
    let r = Builder::from_bundles(BuildOptions::default(), bundles);
    assert!(matches!(r, Err(BuildError::Generation(_))));
    assert!(matches!(
        Builder::load_one(BuildOptions::default(), "main", "de", DE),
        Err(BuildError::Generation(_))
    ));
}

#[test]
fn missing_message_in_other_language_builds() {
    let bundles = folder_bundles(
        "l",
        &[("de", &[("main", "hello = Hallo\n")]), ("en", &[("main", "hello = Hi\nonly-en = E\n")])],
    );
    let b = Builder::from_bundles(BuildOptions::default(), bundles).unwrap();
    assert_eq!(b.default_index(), 1);
    let g = b.generate().unwrap();
    assert!(g.source.contains("pub fn msg_only_en("));
}

#[test]
fn analyze_orders_languages() {
    let bundles = folder_bundles(
        "l",
        &[("fr", &[]), ("en-gb", &[]), ("de", &[]), ("en", &[])],
    );
    let a = analyze(&bundles, "en").unwrap();
    assert_eq!(a.default_index, 3);
    assert_eq!(a.order, vec![2, 3, 1, 0]);
    assert_eq!(language_order(&bundles), vec![2, 3, 1, 0]);
    assert!(id_less("en", "en-gb"));
    assert!(!id_less("fr", "de"));
    assert!(matches!(analyze(&bundles, "it"), Err(BuildError::Generation(_))));
}

#[test]
fn packed_blob_round_trip() {
    let bundles = folder_bundles("l", &[("en", &[("m", "a = 1\n")]), ("de", &[("m", "a = ü\n")])]);
    let order = language_order(&bundles);
    assert_eq!(order, vec![1, 0]);
    let total = packed_len(&bundles, &order).unwrap();
    let p = pack_single_blob(&bundles, &order);
    assert_eq!(p.bytes.len(), total);
    assert_eq!(p.ranges[0].language_id, "de");
    assert_eq!(p.ranges[0].start, 0);
    assert_eq!(p.ranges[0].end, p.ranges[1].start);
    assert_eq!(p.ranges[1].end, p.bytes.len());
    for (r, k) in p.ranges.iter().zip(order.iter()) {
        let slice = slice_range(&p.bytes, r.start, r.end);
        assert_eq!(String::from_utf8(slice).unwrap(), bundles[*k].ftl);
    }
}

#[test]
fn generated_blob_covers_languages_in_id_order() {
    let bundles = folder_bundles("l", &[("en", &[("m", "a = 1\n")]), ("de", &[("m", "a = 2\n")])]);
    let g = Builder::from_bundles(BuildOptions::default(), bundles).unwrap().generate().unwrap();
    let ids: Vec<&str> = g.blob.ranges.iter().map(|r| r.language_id.as_str()).collect();
    assert_eq!(ids, vec!["de", "en"]);
    assert_eq!(g.blob.ranges[1].end, g.blob.bytes.len());
}

#[test]
fn sanitized_accessor_names() {
    assert_eq!(sanitize("level1-hello.x"), "level1_hello_x");
    let b = LangBundle::from_ftl("a-b = x\n    .c-d = y\ne = z\n", "m", "en", false).unwrap();
    let both = OutputMode::Both { string_prefix: "s_".to_string(), pattern_prefix: "p_".to_string() };
    assert_eq!(string_function_names(&both, &b.messages), vec!["s_a_b", "s_a_b_c_d", "s_e"]);
    assert_eq!(pattern_function_names(&both, &b.messages), vec!["p_a_b", "p_a_b_c_d", "p_e"]);
    assert!(pattern_function_names(&OutputMode::default(), &b.messages).is_empty());
}

#[test]
fn changing_one_prefix_leaves_other_names() {
    let b = LangBundle::from_ftl("a-b = x\n    .c = y\n", "m", "en", false).unwrap();
    let m1 = OutputMode::Both { string_prefix: "s_".to_string(), pattern_prefix: "p_".to_string() };
    let m2 = OutputMode::Both { string_prefix: "s_".to_string(), pattern_prefix: "q_".to_string() };
    let m3 = OutputMode::Both { string_prefix: "t_".to_string(), pattern_prefix: "p_".to_string() };
    assert_eq!(string_function_names(&m1, &b.messages), string_function_names(&m2, &b.messages));
    assert_eq!(pattern_function_names(&m1, &b.messages), pattern_function_names(&m3, &b.messages));
    assert_ne!(pattern_function_names(&m1, &b.messages), pattern_function_names(&m2, &b.messages));
}

#[test]
fn accessor_source_text() {
    let b = LangBundle::from_ftl("a-b = x\n    .c = y\n", "m", "en", false).unwrap();
    assert_eq!(
        accessor_functions("  ", false, "msg_", &b.messages),
        "  pub fn msg_a_b(&self, args: Option<FluentArgs>) -> Result<String, String> {\n    self.0.msg(\"a-b\", args)\n  }\n\
         \x20 pub fn msg_a_b_c(&self, args: Option<FluentArgs>) -> Result<String, String> {\n    self.0.attr(\"a-b\", \"c\", args)\n  }\n"
    );
    assert_eq!(
        accessor_functions("", true, "p_", &b.messages),
        "pub fn p_a_b(&self) -> Pattern<String> {\nself.0.msg_pattern(\"a-b\")\n}\n\
         pub fn p_a_b_c(&self) -> Pattern<String> {\nself.0.attr_pattern(\"a-b\", \"c\")\n}\n"
    );
}

#[test]
fn build_error_messages() {
    let e = BuildError::DuplicateKey {
        key: "k".to_string(),
        original: "a.ftl".to_string(),
        duplicate: "b.ftl".to_string(),
    };
    assert_eq!(e.message(), "Duplicate message key 'k' in 'b.ftl', first defined in 'a.ftl'");
    let w = BuildError::LocalesFolder { folder: "de".to_string(), source: Box::new(BuildError::FtlParse("x".to_string())) };
    assert_eq!(w.message(), "Could not read locales folder 'de': Could not parse ftl: x");
    assert!(w.source().is_some());
    assert!(e.source().is_none());
}

#[test]
fn generated_table_lists_languages() {
    let bundles = folder_bundles(
        "l",
        &[("en", &[("m", "language-name = English\na = 1\n")]), ("de", &[("m", "a = 2\n")])],
    );
    let g = Builder::from_bundles(BuildOptions::default(), bundles).unwrap().generate().unwrap();
    let de_end = g.blob.ranges[0].end;
    let total = g.blob.bytes.len();
    let expected_head = format!(
        "pub const DEFAULT_LANGUAGE: &str = \"en\";\n\
         pub const LANGUAGES: &[(&str, &str, usize, usize)] = &[\n    (\"de\", \"de\", 0, {de_end}),\n    (\"en\", \"English\", {de_end}, {total}),\n];\n\n\
         impl L10nLanguage {{\n"
    );
    assert!(g.source.starts_with(&expected_head), "{}", g.source);
    assert!(g.source.ends_with("}\n"));
    assert_eq!(l10n_gen::codegen::decimal_text(0), "0");
    assert_eq!(l10n_gen::codegen::decimal_text(10402), "10402");
}

#[test]
fn missing_id_queried_at_runtime_is_not_found() {
    let bundles = folder_bundles(
        "l",
        &[("de", &[("main", "hello = Hallo\n")]), ("en", &[("main", "hello = Hi\nonly-en = E\n")])],
    );
    let g = Builder::from_bundles(BuildOptions::default(), bundles).unwrap().generate().unwrap();
    let r = &g.blob.ranges[0];
    assert_eq!(r.language_id, "de");
    let de = l10n_gen::L10nBundle::new("de", &slice_range(&g.blob.bytes, r.start, r.end)).unwrap();
    assert_eq!(de.msg("hello", None).unwrap(), "Hallo");
    assert_eq!(de.msg("only-en", None).unwrap_err(), "Could not find only-en");
}

#[test]
fn registry_loads_language_by_id() {
    let bundles = folder_bundles("l", &[("en", &[("m", "a = One\n")]), ("de", &[("m", "a = Eins\n")])]);
    let g = Builder::from_bundles(BuildOptions::default(), bundles).unwrap().generate().unwrap();
    assert_eq!(l10n_gen::registry::find_range(&g.blob.ranges, "en"), Some(1));
    let en = l10n_gen::registry::load_language(&g.blob, "en").unwrap();
    assert_eq!(en.msg("a", None).unwrap(), "One");
    let de = l10n_gen::registry::load_language(&g.blob, "de").unwrap();
    assert_eq!(de.msg("a", None).unwrap(), "Eins");
    assert_eq!(l10n_gen::registry::load_language(&g.blob, "fr").err().unwrap(), "Unknown language: fr");
}

#[test]
fn parse_error_names_the_file() {
    let files = vec![source("a.ftl", "a", "hello = Hi\n"), source("b.ftl", "b", "= broken\n")];
    match LangBundle::from_sources(&files, "en", false) {
        Err(BuildError::FtlParse(m)) => assert!(m.starts_with("b.ftl: "), "{m}"),
        other => panic!("unexpected {other:?}"),
    }
}

#[test]
fn io_errors_keep_their_cause() {
    let e = BuildError::WriteOutput {
        path: "out.rs".to_string(),
        source: std::io::Error::other("disk full"),
    };
    assert_eq!(e.message(), "Could not write file 'out.rs': disk full");
    match e.source() {
        Some(l10n_gen::error::ErrorSource::Io(io)) => assert_eq!(io.to_string(), "disk full"),
        other => panic!("unexpected {other:?}"),
    }
    let e = BuildError::Io(std::io::Error::other("gone"));
    assert_eq!(e.message(), "gone");
    assert!(matches!(e.source(), Some(l10n_gen::error::ErrorSource::Io(_))));
    assert!(BuildError::Generation("x".to_string()).source().is_none());
}

#[test]
fn default_ftl_output_file() {
    match BuildOptions::default().ftl_output {
        FtlOutputOptions::SingleFile { output_ftl_file, compressor } => {
            assert_eq!(output_ftl_file, "src/l10n.ftl");
            assert!(compressor.is_none());
        }
        other => panic!("unexpected {other:?}"),
    }
}

#[test]
fn paths_sort_by_components() {
    assert!(l10n_gen::analyzer::path_less("de/a/z.ftl", "de/a-b.ftl"));
    assert!(!l10n_gen::analyzer::path_less("de/a-b.ftl", "de/a/z.ftl"));
    let files = vec![source("de/a/z.ftl", "z", "x = 1\n"), source("de/a-b.ftl", "a-b", "x = 2\n")];
    assert!(LangBundle::sorted_by_path(&files));
    match LangBundle::from_sources(&files, "de", true) {
        Err(BuildError::DuplicateKey { original, duplicate, .. }) => {
            assert_eq!(original, "de/a/z.ftl");
            assert_eq!(duplicate, "de/a-b.ftl");
        }
        other => panic!("unexpected {other:?}"),
    }
    let reversed = vec![files[1].clone(), files[0].clone()];
    assert!(!LangBundle::sorted_by_path(&reversed));
}

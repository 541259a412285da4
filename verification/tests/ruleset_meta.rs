use textrules::context::{ConfigEntry, ConfigValue, RuleContext};
use textrules::diagnostics::RuleId;
use textrules::language::{infer_language, Language};
use textrules::position::Position;
use textrules::ruleset::{BaseRuleset, ConfigType};

fn pos(line: usize, character: usize) -> Position {
    Position { line, character }
}

#[test]
fn all_rules_together_on_one_text() {
    // "a \nbb\tcc\n" under a limit of 1: not blank, ends in a newline,
    // one trailing-space line, and both lines over the limit
    let options = vec![ConfigEntry {
        name: "limit".to_string(),
        value: ConfigValue::Integer(1),
    }];
    let mut ctx = RuleContext::new(b"a \nbb\tcc\n".to_vec(), options);
    let set = BaseRuleset.create_ruleset();
    set.run(&mut ctx);
    let diags = &ctx.diagnostics;
    assert_eq!(diags.len(), 3);

    assert_eq!(diags[0].rule_id, RuleId::NoTrailingWhitespace);
    assert_eq!(diags[0].range.start, pos(0, 1));
    assert_eq!(diags[0].range.end, pos(0, 2));

    assert_eq!(diags[1].rule_id, RuleId::MaxLineLength);
    assert_eq!(diags[1].range.start, pos(0, 1));
    assert_eq!(diags[1].range.end, pos(0, 2));

    assert_eq!(diags[2].rule_id, RuleId::MaxLineLength);
    assert_eq!(diags[2].range.start, pos(1, 1));
    assert_eq!(diags[2].range.end, pos(1, 5));
}

#[test]
fn ruleset_runs_in_fixed_order() {
    let set = BaseRuleset.create_ruleset();
    assert_eq!(set.id, "base");
    assert_eq!(
        set.rules,
        vec![
            RuleId::NoTrailingWhitespace,
            RuleId::MaxLineLength,
            RuleId::NoEmptyFiles,
            RuleId::RequireFinalNewline,
        ]
    );
}

#[test]
fn capabilities_describe_the_ruleset() {
    let caps = BaseRuleset.get_capabilities();
    assert_eq!(caps.ruleset_id, "base");
    assert_eq!(caps.version, "0.1.0");
    assert_eq!(caps.file_patterns, vec!["*".to_string()]);
    assert_eq!(caps.max_file_size, Some(10 * 1024 * 1024));
    assert_eq!(
        caps.annotation_prefixes,
        vec!["#".to_string(), "//".to_string(), "--".to_string(), "<!--".to_string()]
    );
    assert_eq!(caps.rules.len(), 4);
    assert_eq!(caps.default_config.len(), 4);
    assert_eq!(caps.config_settings.len(), 1);
}

#[test]
fn config_schema_has_one_bounded_integer_setting() {
    let settings = BaseRuleset.get_config_settings();
    assert_eq!(settings.len(), 1);
    let s = &settings[0];
    assert_eq!(s.name, "max-line-length");
    assert_eq!(s.setting_type, ConfigType::Integer);
    assert_eq!(s.default, ConfigValue::Integer(80));
    assert!(!s.required);
    assert_eq!(s.min, Some(10));
    assert_eq!(s.max, Some(500));
    assert!(s.allowed_values.is_none());
}

#[test]
fn default_config_binds_each_rule_to_error() {
    let defaults = BaseRuleset.get_default_config();
    let names: Vec<&str> = defaults.iter().map(|e| e.name.as_str()).collect();
    assert_eq!(
        names,
        vec![
            "no-trailing-whitespace",
            "max-line-length",
            "no-empty-files",
            "require-final-newline",
        ]
    );
    for entry in &defaults {
        assert_eq!(entry.value, ConfigValue::Text("error".to_string()));
    }
}

#[test]
fn languages_are_inferred_from_extensions() {
    assert_eq!(infer_language(b"file:///tmp/notes.txt"), Some(Language::Text));
    assert_eq!(infer_language(b"file:///tmp/a.md"), Some(Language::Markdown));
    assert_eq!(infer_language(b"x.json"), Some(Language::Json));
    assert_eq!(infer_language(b"x.toml"), Some(Language::Toml));
    assert_eq!(infer_language(b"y.yaml"), Some(Language::Yaml));
    assert_eq!(infer_language(b"y.yml"), Some(Language::Yaml));
}

#[test]
fn unknown_or_missing_extensions_have_no_language() {
    assert_eq!(infer_language(b"file:///noext"), None);
    assert_eq!(infer_language(b".gitignore"), None);
    assert_eq!(infer_language(b"a.tar.gz"), None);
    assert_eq!(infer_language(b"T.TXT"), None);
    assert_eq!(infer_language(b"dir.d/file"), None);
    assert_eq!(infer_language(b""), None);
}

#[test]
fn language_names_match() {
    assert_eq!(Language::Text.name(), "text");
    assert_eq!(Language::Markdown.name(), "markdown");
    assert_eq!(Language::Json.name(), "json");
    assert_eq!(Language::Toml.name(), "toml");
    assert_eq!(Language::Yaml.name(), "yaml");
}

#[test]
fn preprocessing_keeps_uris_and_infers_metadata() {
    let uris = vec![b"file:///a/b.txt".to_vec(), b"other://x".to_vec()];
    let pre = BaseRuleset.preprocess_files(&uris);
    assert_eq!(pre.ruleset_id, "base");
    assert_eq!(pre.ruleset_type, "text-based");
    assert_eq!(pre.total_files, 2);
    assert_eq!(pre.files.len(), 2);
    assert_eq!(pre.files[0].uri, b"file:///a/b.txt".to_vec());
    assert!(pre.files[0].content.is_empty());
    assert_eq!(pre.files[0].language, Some(Language::Text));
    assert_eq!(pre.files[0].extension, Some(b"txt".to_vec()));
    assert_eq!(pre.files[1].uri, b"other://x".to_vec());
    assert_eq!(pre.files[1].language, None);
    assert_eq!(pre.files[1].extension, None);
}

#[test]
fn run_on_clean_text_reports_nothing() {
    let mut ctx = RuleContext::new(b"fine\n".to_vec(), Vec::new());
    let set = BaseRuleset.create_ruleset();
    set.run(&mut ctx);
    assert!(ctx.diagnostics.is_empty());
}

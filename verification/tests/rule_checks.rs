use textrules::context::{ConfigEntry, ConfigValue, RuleContext};
use textrules::diagnostics::{Diagnostic, RuleId, Severity};
use textrules::position::{Position, Range};
use textrules::rules::Rule;
use textrules::{
    MaxLineLengthRule, NoEmptyFilesRule, NoTrailingWhitespaceRule, RequireFinalNewlineRule,
};

fn context(text: &str, options: Vec<ConfigEntry>) -> RuleContext {
    RuleContext::new(text.as_bytes().to_vec(), options)
}

fn limit_options(limit: u64) -> Vec<ConfigEntry> {
    vec![ConfigEntry { name: "limit".to_string(), value: ConfigValue::Integer(limit) }]
}

fn span(sl: usize, sc: usize, el: usize, ec: usize) -> Range {
    Range {
        start: Position { line: sl, character: sc },
        end: Position { line: el, character: ec },
    }
}

fn run_max_line_length(text: &str, options: Vec<ConfigEntry>) -> Vec<Diagnostic> {
    let mut ctx = context(text, options);
    MaxLineLengthRule.check(&mut ctx);
    ctx.diagnostics
}

fn run_no_trailing_whitespace(text: &str) -> Vec<Diagnostic> {
    let mut ctx = context(text, Vec::new());
    NoTrailingWhitespaceRule.check(&mut ctx);
    ctx.diagnostics
}

fn run_no_empty_files(text: &str) -> Vec<Diagnostic> {
    let mut ctx = context(text, Vec::new());
    NoEmptyFilesRule.check(&mut ctx);
    ctx.diagnostics
}

fn run_require_final_newline(text: &str) -> Vec<Diagnostic> {
    let mut ctx = context(text, Vec::new());
    RequireFinalNewlineRule.check(&mut ctx);
    ctx.diagnostics
}

#[test]
fn line_at_limit_is_not_flagged() {
    assert!(run_max_line_length("abc\n", limit_options(3)).is_empty());
}

#[test]
fn line_one_over_limit_is_flagged_at_limit_column() {
    let diags = run_max_line_length("abc\nabcd", limit_options(3));
    assert_eq!(diags.len(), 1);
    assert_eq!(diags[0].rule_id, RuleId::MaxLineLength);
    assert_eq!(diags[0].severity, Severity::Warn);
    assert_eq!(diags[0].range, span(1, 3, 1, 4));
    assert_eq!(diags[0].message, "Line exceeds maximum length of 3 characters");
}

#[test]
fn default_limit_is_eighty() {
    let even = "a".repeat(80);
    assert!(run_max_line_length(&even, Vec::new()).is_empty());
    let over = "a".repeat(81);
    let diags = run_max_line_length(&over, Vec::new());
    assert_eq!(diags.len(), 1);
    assert_eq!(diags[0].range, span(0, 80, 0, 81));
    assert_eq!(diags[0].message, "Line exceeds maximum length of 80 characters");
}

#[test]
fn message_names_a_multi_digit_limit() {
    let over = "a".repeat(106);
    let diags = run_max_line_length(&over, limit_options(105));
    assert_eq!(diags.len(), 1);
    assert_eq!(diags[0].message, "Line exceeds maximum length of 105 characters");
}

#[test]
fn non_integer_limit_falls_back_to_default() {
    let over = "a".repeat(81);
    let options = vec![ConfigEntry {
        name: "limit".to_string(),
        value: ConfigValue::Text("wide".to_string()),
    }];
    let diags = run_max_line_length(&over, options);
    assert_eq!(diags.len(), 1);
    assert_eq!(diags[0].range, span(0, 80, 0, 81));
}

#[test]
fn limit_counts_scalar_values_not_bytes() {
    // three two-byte scalar values: length 3, over a limit of 2
    let diags = run_max_line_length("\u{e9}\u{e9}\u{e9}", limit_options(2));
    assert_eq!(diags.len(), 1);
    assert_eq!(diags[0].range, span(0, 2, 0, 3));
}

#[test]
fn every_long_line_is_flagged() {
    let diags = run_max_line_length("aa\nb\ncc\n", limit_options(1));
    assert_eq!(diags.len(), 2);
    assert_eq!(diags[0].range, span(0, 1, 0, 2));
    assert_eq!(diags[1].range, span(2, 1, 2, 2));
}

#[test]
fn trailing_spaces_are_covered_exactly() {
    let diags = run_no_trailing_whitespace("abc  ");
    assert_eq!(diags.len(), 1);
    assert_eq!(diags[0].rule_id, RuleId::NoTrailingWhitespace);
    assert_eq!(diags[0].severity, Severity::Warn);
    assert_eq!(diags[0].range, span(0, 3, 0, 5));
}

#[test]
fn clean_line_has_no_trailing_whitespace_finding() {
    assert!(run_no_trailing_whitespace("abc\ndef\n").is_empty());
}

#[test]
fn trailing_tab_is_flagged() {
    let diags = run_no_trailing_whitespace("a\t\nb\n");
    assert_eq!(diags.len(), 1);
    assert_eq!(diags[0].range, span(0, 1, 0, 2));
}

#[test]
fn all_whitespace_line_is_covered_whole() {
    let diags = run_no_trailing_whitespace("   \n");
    assert_eq!(diags.len(), 1);
    assert_eq!(diags[0].range, span(0, 0, 0, 3));
}

#[test]
fn empty_input_is_flagged_empty() {
    let diags = run_no_empty_files("");
    assert_eq!(diags.len(), 1);
    assert_eq!(diags[0].rule_id, RuleId::NoEmptyFiles);
    assert_eq!(diags[0].severity, Severity::Error);
    assert_eq!(diags[0].range, span(0, 0, 0, 0));
}

#[test]
fn whitespace_only_input_is_flagged_empty() {
    let diags = run_no_empty_files("   \n\t\n");
    assert_eq!(diags.len(), 1);
    assert_eq!(diags[0].range, span(0, 0, 0, 0));
}

#[test]
fn single_character_input_is_not_empty() {
    assert!(run_no_empty_files("x").is_empty());
}

#[test]
fn unicode_whitespace_only_input_is_flagged_empty() {
    // no-break spaces, a line separator, an ideographic space
    let diags = run_no_empty_files("\u{a0}\u{a0}\u{2028}\u{3000}\n");
    assert_eq!(diags.len(), 1);
    assert_eq!(diags[0].range, span(0, 0, 0, 0));
}

#[test]
fn text_among_unicode_whitespace_is_not_empty() {
    assert!(run_no_empty_files("\u{a0}x\u{a0}").is_empty());
}

#[test]
fn stray_continuation_bytes_are_not_whitespace() {
    let mut ctx = RuleContext::new(vec![0xC2], Vec::new());
    NoEmptyFilesRule.check(&mut ctx);
    assert!(ctx.diagnostics.is_empty());
}

#[test]
fn missing_final_newline_is_flagged_with_fix() {
    let diags = run_require_final_newline("abc");
    assert_eq!(diags.len(), 1);
    let d = &diags[0];
    assert_eq!(d.rule_id, RuleId::RequireFinalNewline);
    assert_eq!(d.severity, Severity::Warn);
    assert_eq!(d.range, span(0, 3, 0, 3));
    let suggest = d.suggest.as_ref().expect("a suggested fix");
    assert_eq!(suggest.len(), 1);
    assert_eq!(suggest[0].title, "Add final newline");
    let fix = suggest[0].fix.as_ref().expect("a mechanical fix");
    assert_eq!(fix.range, span(0, 3, 0, 3));
    assert_eq!(fix.text, "\n");
}

#[test]
fn final_newline_present_is_fine() {
    assert!(run_require_final_newline("abc\n").is_empty());
}

#[test]
fn empty_input_needs_no_final_newline() {
    assert!(run_require_final_newline("").is_empty());
}

#[test]
fn final_newline_position_is_after_last_line() {
    let diags = run_require_final_newline("ab\ncdef");
    assert_eq!(diags.len(), 1);
    assert_eq!(diags[0].range, span(1, 4, 1, 4));
}

#[test]
fn running_a_rule_twice_repeats_its_findings() {
    let mut ctx = context("a \nbb \n", Vec::new());
    NoTrailingWhitespaceRule.check(&mut ctx);
    NoTrailingWhitespaceRule.check(&mut ctx);
    assert_eq!(ctx.diagnostics.len(), 4);
    assert_eq!(ctx.diagnostics[0], ctx.diagnostics[2]);
    assert_eq!(ctx.diagnostics[1], ctx.diagnostics[3]);
}

#[test]
fn rules_identify_themselves() {
    assert_eq!(NoTrailingWhitespaceRule.id().as_str(), "no-trailing-whitespace");
    assert_eq!(MaxLineLengthRule.id().as_str(), "max-line-length");
    assert_eq!(NoEmptyFilesRule.id().as_str(), "no-empty-files");
    assert_eq!(RequireFinalNewlineRule.id().as_str(), "require-final-newline");
    assert!(MaxLineLengthRule.description().contains("maximum line length"));
}

#[test]
fn rule_default_config_is_error() {
    match NoEmptyFilesRule.default_config() {
        ConfigValue::Text(s) => assert_eq!(s, "error"),
        other => panic!("unexpected default config {:?}", other),
    }
}

#[test]
fn first_binding_of_an_option_wins() {
    let options = vec![
        ConfigEntry { name: "limit".to_string(), value: ConfigValue::Integer(1) },
        ConfigEntry { name: "limit".to_string(), value: ConfigValue::Integer(99) },
    ];
    let diags = run_max_line_length("ab\n", options);
    assert_eq!(diags.len(), 1);
    assert_eq!(diags[0].range, span(0, 1, 0, 2));
}

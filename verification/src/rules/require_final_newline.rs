//! Require final newline: flags non-empty files whose last byte is not a
//! newline, and suggests inserting one.

use vstd::prelude::*;

use crate::context::{ConfigData, ConfigEntry, ConfigValue, RuleContext};
use crate::diagnostics::{DiagData, Diagnostic, Fix, FixData, RuleId, Severity, SuggestData,
    SuggestFix};
use crate::position::{LineIndex, PosData, Range, RangeData};
use crate::rules::Rule;
use crate::text::{char_of, is_newline, line_of};

verus! {

/// The position at the very end of the text.
pub open spec fn eof_pos(t: Seq<u8>) -> PosData {
    PosData { line: line_of(t, t.len() as int), character: char_of(t, t.len() as int) }
}

/// The finding of the rule: severity `warn`, a zero-width range at the end
/// of the text, and one suggested fix inserting `"\n"` there.
pub open spec fn rfn_diag(t: Seq<u8>) -> DiagData {
    DiagData {
        rule_id: RuleId::RequireFinalNewline,
        message: "File must end with a newline character"@,
        severity: Severity::Warn,
        range: RangeData { start: eof_pos(t), end: eof_pos(t) },
        code: None,
        suggest: Some(
            seq![
                SuggestData {
                    title: "Add final newline"@,
                    fix: Some(
                        FixData {
                            range: RangeData { start: eof_pos(t), end: eof_pos(t) },
                            text: "\n"@,
                        },
                    ),
                },
            ],
        ),
        docs_url: Some("https://forseti.dev/rules/require-final-newline"@),
    }
}

/// All findings of the rule: exactly one when the text is non-empty and
/// does not end in a newline, none otherwise.
pub open spec fn rfn_diags(t: Seq<u8>) -> Seq<DiagData> {
    if t.len() > 0 && !is_newline(t.last()) {
        seq![rfn_diag(t)]
    } else {
        Seq::<DiagData>::empty()
    }
}

/// Ensures files end with a newline character.
pub struct RequireFinalNewlineRule;

impl Rule for RequireFinalNewlineRule {
    open spec fn rule_diags(text: Seq<u8>, options: Seq<ConfigEntry>) -> Seq<DiagData> {
        rfn_diags(text)
    }

    open spec fn spec_id() -> RuleId {
        RuleId::RequireFinalNewline
    }

    open spec fn spec_description() -> Seq<char> {
        "Ensures files end with a newline character for better POSIX compliance and tool compatibility"@
    }

    fn id(&self) -> (r: RuleId) {
        RuleId::RequireFinalNewline
    }

    fn description(&self) -> (r: &'static str) {
        "Ensures files end with a newline character for better POSIX compliance and tool compatibility"
    }

    open spec fn spec_default_config() -> ConfigData {
        ConfigData::Text("error"@)
    }

    fn default_config(&self) -> (r: ConfigValue) {
        ConfigValue::Text("error".to_owned())
    }

    fn check(&self, ctx: &mut RuleContext) {
        let ghost t = ctx.text@;
        let ghost base = ctx.diags();
        let len = ctx.text.len();
        if len > 0 && ctx.text[len - 1] != 10 {
            let index = LineIndex::new(ctx.text.as_slice());
            let p = index.to_pos(ctx.text.as_slice(), len);
            let fix = Fix { range: Range { start: p, end: p }, text: "\n".to_owned() };
            let sf = SuggestFix { title: "Add final newline".to_owned(), fix: Some(fix) };
            let mut sv: Vec<SuggestFix> = Vec::new();
            let ghost sf_snapshot = sf;
            sv.push(sf);
            let d = Diagnostic {
                rule_id: RuleId::RequireFinalNewline,
                message: "File must end with a newline character".to_owned(),
                severity: Severity::Warn,
                range: Range { start: p, end: p },
                code: None,
                suggest: Some(sv),
                docs_url: Some("https://forseti.dev/rules/require-final-newline".to_owned()),
            };
            proof {
                assert(d.suggest matches Some(v) && v@ =~= seq![sf_snapshot]);
                assert(seq![sf_snapshot].map_values(|s: SuggestFix| s@) =~= seq![sf_snapshot@]);
                assert(d@ == rfn_diag(t));
            }
            ctx.report(d);
            proof {
                assert(base.push(rfn_diag(t)) =~= base + rfn_diags(t));
            }
        } else {
            proof {
                assert(base + rfn_diags(t) =~= base);
            }
        }
    }
}

} // verus!

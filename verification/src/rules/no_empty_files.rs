//! No empty files: flags files that are empty or hold only whitespace.

use vstd::prelude::*;

use crate::context::{ConfigData, ConfigEntry, ConfigValue, RuleContext};
use crate::diagnostics::{DiagData, Diagnostic, RuleId, Severity};
use crate::position::{PosData, Position, Range, RangeData};
use crate::rules::Rule;
use crate::text::{blank_prefix_len, is_blank};

verus! {

/// The single finding of the rule: severity `error`, with a zero-width
/// range at the very start of the file.
pub open spec fn nef_diag() -> DiagData {
    DiagData {
        rule_id: RuleId::NoEmptyFiles,
        message: "File is empty or contains only whitespace"@,
        severity: Severity::Error,
        range: RangeData {
            start: PosData { line: 0, character: 0 },
            end: PosData { line: 0, character: 0 },
        },
        code: None,
        suggest: None,
        docs_url: Some("https://forseti.dev/rules/no-empty-files"@),
    }
}

/// All findings of the rule: exactly one when the text is blank, none
/// otherwise.
pub open spec fn nef_diags(t: Seq<u8>) -> Seq<DiagData> {
    if is_blank(t) {
        seq![nef_diag()]
    } else {
        Seq::<DiagData>::empty()
    }
}

/// Flags files that are completely empty or contain only whitespace.
pub struct NoEmptyFilesRule;

impl Rule for NoEmptyFilesRule {
    open spec fn rule_diags(text: Seq<u8>, options: Seq<ConfigEntry>) -> Seq<DiagData> {
        nef_diags(text)
    }

    open spec fn spec_id() -> RuleId {
        RuleId::NoEmptyFiles
    }

    open spec fn spec_description() -> Seq<char> {
        "Flags files that are completely empty or contain only whitespace characters"@
    }

    fn id(&self) -> (r: RuleId) {
        RuleId::NoEmptyFiles
    }

    fn description(&self) -> (r: &'static str) {
        "Flags files that are completely empty or contain only whitespace characters"
    }

    open spec fn spec_default_config() -> ConfigData {
        ConfigData::Text("error"@)
    }

    fn default_config(&self) -> (r: ConfigValue) {
        ConfigValue::Text("error".to_owned())
    }

    fn check(&self, ctx: &mut RuleContext) {
        let ghost t = ctx.text@;
        let ghost base = ctx.diags();
        let n = ctx.text.len();
        let mut blank = true;
        let mut i: usize = 0;
        proof {
            assert(t.skip(0) =~= t);
        }
        while i < n
            invariant_except_break
                i <= n,
                blank,
                is_blank(t) == is_blank(t.skip(i as int)),
            invariant
                t == ctx.text@,
                n == t.len(),
            ensures
                blank == is_blank(t),
            decreases n - i,
        {
            let b0 = ctx.text[i];
            // length of the white-space scalar value at offset i, or 0
            let k: usize = if b0 == 32 || (9 <= b0 && b0 <= 13) {
                1
            } else if b0 == 0xC2 && n - i >= 2 && (ctx.text[i + 1] == 0x85 || ctx.text[i + 1]
                == 0xA0) {
                2
            } else if b0 == 0xE1 && n - i >= 3 && ctx.text[i + 1] == 0x9A && ctx.text[i + 2]
                == 0x80 {
                3
            } else if b0 == 0xE2 && n - i >= 3 && ctx.text[i + 1] == 0x80 && ((0x80 <= ctx.text[i
                + 2] && ctx.text[i + 2] <= 0x8A) || ctx.text[i + 2] == 0xA8 || ctx.text[i + 2]
                == 0xA9 || ctx.text[i + 2] == 0xAF) {
                3
            } else if b0 == 0xE2 && n - i >= 3 && ctx.text[i + 1] == 0x81 && ctx.text[i + 2]
                == 0x9F {
                3
            } else if b0 == 0xE3 && n - i >= 3 && ctx.text[i + 1] == 0x80 && ctx.text[i + 2]
                == 0x80 {
                3
            } else {
                0
            };
            proof {
                let w = t.skip(i as int);
                assert(w.len() == n - i);
                assert(w[0] == t[i as int]);
                if n - i >= 2 {
                    assert(w[1] == t[i as int + 1]);
                }
                if n - i >= 3 {
                    assert(w[2] == t[i as int + 2]);
                }
                assert(blank_prefix_len(w) == k);
            }
            if k == 0 {
                blank = false;
                proof {
                    assert(!is_blank(t.skip(i as int)));
                }
                break ;
            }
            proof {
                assert(t.skip(i as int).skip(k as int) =~= t.skip(i as int + k as int));
            }
            i += k;
        }
        if blank {
            let d = Diagnostic {
                rule_id: RuleId::NoEmptyFiles,
                message: "File is empty or contains only whitespace".to_owned(),
                severity: Severity::Error,
                range: Range {
                    start: Position { line: 0, character: 0 },
                    end: Position { line: 0, character: 0 },
                },
                code: None,
                suggest: None,
                docs_url: Some("https://forseti.dev/rules/no-empty-files".to_owned()),
            };
            proof {
                assert(is_blank(t));
                assert(d@ == nef_diag());
            }
            ctx.report(d);
            proof {
                assert(base.push(nef_diag()) =~= base + nef_diags(t));
            }
        } else {
            proof {
                assert(!is_blank(t));
                assert(base + nef_diags(t) =~= base);
            }
        }
    }
}

} // verus!

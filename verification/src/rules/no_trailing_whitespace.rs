//! No trailing whitespace: flags lines that end in spaces or tabs, with a
//! range covering exactly the trailing whitespace.

use vstd::prelude::*;

use crate::context::{ConfigData, ConfigEntry, ConfigValue, RuleContext};
use crate::diagnostics::{DiagData, Diagnostic, RuleId, Severity};
use crate::position::{LineIndex, PosData, Range, RangeData};
use crate::rules::{count_for_line, lemma_lines_diags_per_line, lines_diags, Rule};
use crate::text::{
    char_count, is_space_or_tab, lemma_line_count_starts, lemma_line_end_bounds,
    lemma_line_starts_form, lemma_offset_in_line, line_at, line_count, trimmed_len,
};

verus! {

/// Whether line `i` of `t` ends in a space or tab.
pub open spec fn line_has_trailing_ws(t: Seq<u8>, i: int) -> bool {
    line_at(t, i).len() > 0 && is_space_or_tab(line_at(t, i).last())
}

/// The finding for line `i`: severity `warn`, spanning from the first
/// trailing whitespace column to the line's end.
pub open spec fn ntw_diag(t: Seq<u8>, i: int) -> DiagData {
    DiagData {
        rule_id: RuleId::NoTrailingWhitespace,
        message: "Trailing whitespace found"@,
        severity: Severity::Warn,
        range: RangeData {
            start: PosData {
                line: i,
                character: char_count(
                    line_at(t, i).take(trimmed_len(line_at(t, i)) as int),
                ) as int,
            },
            end: PosData { line: i, character: char_count(line_at(t, i)) as int },
        },
        code: None,
        suggest: None,
        docs_url: Some("https://forseti.dev/rules/no-trailing-whitespace"@),
    }
}

/// Which lines the rule flags.
pub open spec fn ntw_flagged(t: Seq<u8>) -> spec_fn(int) -> bool {
    |i: int| line_has_trailing_ws(t, i)
}

/// The finding per flagged line.
pub open spec fn ntw_mk(t: Seq<u8>) -> spec_fn(int) -> DiagData {
    |i: int| ntw_diag(t, i)
}

/// Findings for the first `n` lines.
pub open spec fn ntw_diags_upto(t: Seq<u8>, n: int) -> Seq<DiagData> {
    lines_diags(n, ntw_flagged(t), ntw_mk(t))
}

/// All findings of the rule: one per line ending in a space or tab.
pub open spec fn ntw_diags(t: Seq<u8>) -> Seq<DiagData> {
    ntw_diags_upto(t, line_count(t))
}

/// Detects and flags trailing whitespace at the end of lines.
pub struct NoTrailingWhitespaceRule;

impl Rule for NoTrailingWhitespaceRule {
    open spec fn rule_diags(text: Seq<u8>, options: Seq<ConfigEntry>) -> Seq<DiagData> {
        ntw_diags(text)
    }

    open spec fn spec_id() -> RuleId {
        RuleId::NoTrailingWhitespace
    }

    open spec fn spec_description() -> Seq<char> {
        "Detects and flags trailing whitespace (spaces and tabs) at the end of lines"@
    }

    fn id(&self) -> (r: RuleId) {
        RuleId::NoTrailingWhitespace
    }

    fn description(&self) -> (r: &'static str) {
        "Detects and flags trailing whitespace (spaces and tabs) at the end of lines"
    }

    open spec fn spec_default_config() -> ConfigData {
        ConfigData::Text("error"@)
    }

    fn default_config(&self) -> (r: ConfigValue) {
        ConfigValue::Text("error".to_owned())
    }

    #[verifier::loop_isolation(false)]
    fn check(&self, ctx: &mut RuleContext) {
        let ghost t = ctx.text@;
        let ghost opts = ctx.options@;
        let ghost base = ctx.diags();
        let index = LineIndex::new(ctx.text.as_slice());
        let n = index.num_lines(ctx.text.as_slice());
        proof {
            lemma_line_starts_form(t);
            lemma_line_count_starts(t);
        }
        let ghost t_vec = ctx.text;
        let ghost o_vec = ctx.options;
        let mut i: usize = 0;
        while i < n
            invariant
                i <= n,
                ctx.text == t_vec,
                ctx.options == o_vec,
                ctx.diags() == base + ntw_diags_upto(t, i as int),
            decreases n - i,
        {
            let s_i = index.start_of_line(ctx.text.as_slice(), i);
            let e_i = index.end_of_line(ctx.text.as_slice(), i);
            let ghost c = line_at(t, i as int);
            proof {
                lemma_line_end_bounds(t, i as int);
                assert(t.subrange(s_i as int, e_i as int) == c);
            }
            let last_ws = e_i > s_i && {
                let b = ctx.text[e_i - 1];
                b == 32 || b == 9
            };
            if last_ws {
                // scan back over the trailing spaces and tabs
                let mut j = e_i;
                proof {
                    assert(c.take(j as int - s_i as int) =~= c);
                }
                while j > s_i && (ctx.text[j - 1] == 32 || ctx.text[j - 1] == 9)
                    invariant
                        s_i <= j <= e_i,
                        trimmed_len(c) == trimmed_len(c.take(j as int - s_i as int)),
                    decreases j,
                {
                    proof {
                        let m = j as int - s_i as int;
                        assert(c.take(m).last() == t[j as int - 1]);
                        assert(is_space_or_tab(c.take(m).last()));
                        assert(c.take(m).drop_last() =~= c.take(m - 1));
                    }
                    j -= 1;
                }
                proof {
                    let m = j as int - s_i as int;
                    if j > s_i {
                        assert(c.take(m).last() == t[j as int - 1]);
                        assert(!is_space_or_tab(c.take(m).last()));
                    }
                    assert(trimmed_len(c.take(m)) == m);
                    assert(trimmed_len(c) == m);
                }
                let start = index.to_pos(ctx.text.as_slice(), j);
                let end = index.to_pos(ctx.text.as_slice(), e_i);
                proof {
                    lemma_offset_in_line(t, i as int, j as int);
                    lemma_offset_in_line(t, i as int, e_i as int);
                    assert(t.subrange(s_i as int, j as int) =~= c.take(j as int - s_i as int));
                }
                let d = Diagnostic {
                    rule_id: RuleId::NoTrailingWhitespace,
                    message: "Trailing whitespace found".to_owned(),
                    severity: Severity::Warn,
                    range: Range { start, end },
                    code: None,
                    suggest: None,
                    docs_url: Some("https://forseti.dev/rules/no-trailing-whitespace".to_owned()),
                };
                proof {
                    assert(d@ == ntw_diag(t, i as int));
                }
                ctx.report(d);
                proof {
                    assert(line_has_trailing_ws(t, i as int));
                    assert(ntw_diags_upto(t, i as int + 1) == ntw_diags_upto(t, i as int)
                        + seq![ntw_diag(t, i as int)]);
                    assert(base + ntw_diags_upto(t, i as int + 1) =~= (base + ntw_diags_upto(
                        t,
                        i as int,
                    )).push(ntw_diag(t, i as int)));
                }
            } else {
                proof {
                    assert(!line_has_trailing_ws(t, i as int));
                    assert(ntw_diags_upto(t, i as int + 1) =~= ntw_diags_upto(t, i as int));
                }
            }
            i += 1;
        }
    }
}

/// A line ending in spaces or tabs is flagged exactly once, with a finding
/// covering exactly its trailing whitespace; a line ending otherwise is
/// never flagged.
pub proof fn lemma_trailing_whitespace_range(t: Seq<u8>, i: int)
    requires
        0 <= i < line_count(t),
    ensures
        !line_has_trailing_ws(t, i) ==> count_for_line(ntw_diags(t), i) == 0,
        line_has_trailing_ws(t, i) ==> count_for_line(ntw_diags(t), i) == 1,
        forall|j: int|
            0 <= j < ntw_diags(t).len() && (#[trigger] ntw_diags(t)[j]).range.start.line == i
                ==> ntw_diags(t)[j].range.start.character == char_count(
                line_at(t, i).take(trimmed_len(line_at(t, i)) as int),
            ) && ntw_diags(t)[j].range.end.character == char_count(line_at(t, i)),
{
    assert forall|j: int| 0 <= j < line_count(t) implies (#[trigger] ntw_mk(t)(
        j,
    )).range.start.line == j by {
        assert(ntw_mk(t)(j) == ntw_diag(t, j));
    }
    lemma_lines_diags_per_line(line_count(t), ntw_flagged(t), ntw_mk(t), i);
    assert(ntw_flagged(t)(i) == line_has_trailing_ws(t, i));
    assert forall|j: int|
        0 <= j < ntw_diags(t).len() && (#[trigger] ntw_diags(t)[j]).range.start.line
            == i implies ntw_diags(t)[j].range.start.character == char_count(
        line_at(t, i).take(trimmed_len(line_at(t, i)) as int),
    ) && ntw_diags(t)[j].range.end.character == char_count(line_at(t, i)) by {
        assert(ntw_diags(t)[j] == ntw_mk(t)(i));
        assert(ntw_mk(t)(i) == ntw_diag(t, i));
    }
}

} // verus!

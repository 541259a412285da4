//! Maximum line length: flags lines whose count of Unicode scalar values
//! exceeds the configured limit.

use vstd::prelude::*;
use vstd::string::StringExecFns;

use crate::context::{option_lookup, option_value, ConfigData, ConfigEntry, ConfigValue, RuleContext};
use crate::diagnostics::{DiagData, Diagnostic, RuleId, Severity};
use crate::position::{count_chars, scalar_offset, LineIndex, PosData, Range, RangeData};
use crate::rules::{count_for_line, lemma_lines_diags_per_line, lines_diags, Rule};
use crate::text::{
    char_count, lemma_line_count_starts, lemma_line_end_bounds, lemma_line_starts_form,
    lemma_offset_in_line, line_at, line_count,
};

verus! {

/// Fallback and advertised default for the line-length limit: the single
/// source of truth for this setting.
pub const DEFAULT_MAX_LINE_LENGTH: u64 = 80;

/// The limit the rule runs with: the `limit` option where it is bound to an
/// integer, the default otherwise.
pub open spec fn limit_of(options: Seq<ConfigEntry>) -> u64 {
    match option_value(options, "limit"@) {
        Some(ConfigValue::Integer(n)) => n,
        _ => DEFAULT_MAX_LINE_LENGTH,
    }
}

/// Resolve the configured limit from `options`.
pub fn max_line_limit(options: &Vec<ConfigEntry>) -> (r: u64)
    ensures
        r == limit_of(options@),
{
    let name: String = "limit".to_owned();
    match option_lookup(options, &name) {
        Some(v) => match v {
            ConfigValue::Integer(n) => *n,
            _ => DEFAULT_MAX_LINE_LENGTH,
        },
        None => DEFAULT_MAX_LINE_LENGTH,
    }
}

/// The character for one decimal digit.
pub open spec fn digit_char(d: u64) -> char {
    if d == 0 {
        '0'
    } else if d == 1 {
        '1'
    } else if d == 2 {
        '2'
    } else if d == 3 {
        '3'
    } else if d == 4 {
        '4'
    } else if d == 5 {
        '5'
    } else if d == 6 {
        '6'
    } else if d == 7 {
        '7'
    } else if d == 8 {
        '8'
    } else {
        '9'
    }
}

/// The decimal digits of `n`, most significant first.
pub open spec fn dec_digits(n: u64) -> Seq<char>
    decreases n,
{
    if n < 10 {
        seq![digit_char(n)]
    } else {
        dec_digits(n / 10).push(digit_char(n % 10))
    }
}

/// The rule's message, naming the limit it enforces.
pub open spec fn mll_message(limit: u64) -> Seq<char> {
    "Line exceeds maximum length of "@ + dec_digits(limit) + " characters"@
}

/// The one-character string for a decimal digit.
fn digit_str(d: u64) -> (r: &'static str)
    requires
        d < 10,
    ensures
        r@ == seq![digit_char(d)],
{
    proof {
        reveal_strlit("0");
        reveal_strlit("1");
        reveal_strlit("2");
        reveal_strlit("3");
        reveal_strlit("4");
        reveal_strlit("5");
        reveal_strlit("6");
        reveal_strlit("7");
        reveal_strlit("8");
        reveal_strlit("9");
    }
    let r = if d == 0 {
        "0"
    } else if d == 1 {
        "1"
    } else if d == 2 {
        "2"
    } else if d == 3 {
        "3"
    } else if d == 4 {
        "4"
    } else if d == 5 {
        "5"
    } else if d == 6 {
        "6"
    } else if d == 7 {
        "7"
    } else if d == 8 {
        "8"
    } else {
        "9"
    };
    proof {
        assert(r@ =~= seq![digit_char(d)]);
    }
    r
}

/// Append the decimal digits of `n` to `s`.
fn append_decimal(s: &mut String, n: u64)
    ensures
        final (s)@ == old(s)@ + dec_digits(n),
    decreases n,
{
    let ghost pre = s@;
    if n >= 10 {
        append_decimal(s, n / 10);
    }
    s.append(digit_str(n % 10));
    proof {
        if n < 10 {
            assert(n % 10 == n);
            assert(s@ =~= pre + dec_digits(n));
        } else {
            assert(s@ =~= pre + dec_digits(n / 10).push(digit_char(n % 10)));
        }
    }
}

/// Build the rule's message for `limit`.
fn limit_message(limit: u64) -> (r: String)
    ensures
        r@ == mll_message(limit),
{
    let mut s: String = "Line exceeds maximum length of ".to_owned();
    append_decimal(&mut s, limit);
    s.append(" characters");
    proof {
        assert(s@ =~= mll_message(limit));
    }
    s
}

/// Whether line `i` of `t` holds more than `limit` scalar values.
pub open spec fn line_over_limit(t: Seq<u8>, limit: u64, i: int) -> bool {
    char_count(line_at(t, i)) > limit
}

/// The finding for over-long line `i`: severity `warn`, a message naming
/// the limit, and a range spanning column `limit` to the line's end.
pub open spec fn mll_diag(t: Seq<u8>, limit: u64, i: int) -> DiagData {
    DiagData {
        rule_id: RuleId::MaxLineLength,
        message: mll_message(limit),
        severity: Severity::Warn,
        range: RangeData {
            start: PosData { line: i, character: limit as int },
            end: PosData { line: i, character: char_count(line_at(t, i)) as int },
        },
        code: None,
        suggest: None,
        docs_url: Some("https://forseti.dev/rules/max-line-length"@),
    }
}

/// Which lines the rule flags.
pub open spec fn mll_flagged(t: Seq<u8>, limit: u64) -> spec_fn(int) -> bool {
    |i: int| line_over_limit(t, limit, i)
}

/// The finding per flagged line.
pub open spec fn mll_mk(t: Seq<u8>, limit: u64) -> spec_fn(int) -> DiagData {
    |i: int| mll_diag(t, limit, i)
}

/// Findings for the first `n` lines.
pub open spec fn mll_diags_upto(t: Seq<u8>, limit: u64, n: int) -> Seq<DiagData> {
    lines_diags(n, mll_flagged(t, limit), mll_mk(t, limit))
}

/// All findings of the rule: one per line over the limit, in line order.
pub open spec fn mll_diags(t: Seq<u8>, limit: u64) -> Seq<DiagData> {
    mll_diags_upto(t, limit, line_count(t))
}

/// Flags lines whose count of Unicode scalar values exceeds the configured
/// limit.
pub struct MaxLineLengthRule;

impl Rule for MaxLineLengthRule {
    open spec fn rule_diags(text: Seq<u8>, options: Seq<ConfigEntry>) -> Seq<DiagData> {
        mll_diags(text, limit_of(options))
    }

    open spec fn spec_id() -> RuleId {
        RuleId::MaxLineLength
    }

    open spec fn spec_description() -> Seq<char> {
        "Enforces maximum line length to improve code readability and maintainability"@
    }

    fn id(&self) -> (r: RuleId) {
        RuleId::MaxLineLength
    }

    fn description(&self) -> (r: &'static str) {
        "Enforces maximum line length to improve code readability and maintainability"
    }

    open spec fn spec_default_config() -> ConfigData {
        ConfigData::Text("error"@)
    }

    fn default_config(&self) -> (r: ConfigValue) {
        ConfigValue::Text("error".to_owned())
    }

    #[verifier::loop_isolation(false)]
    fn check(&self, ctx: &mut RuleContext) {
        let ghost t = ctx.text@;
        let ghost opts = ctx.options@;
        let ghost base = ctx.diags();
        let limit: u64 = max_line_limit(&ctx.options);
        let index = LineIndex::new(ctx.text.as_slice());
        let n = index.num_lines(ctx.text.as_slice());
        proof {
            lemma_line_starts_form(t);
            lemma_line_count_starts(t);
        }
        let ghost t_vec = ctx.text;
        let ghost o_vec = ctx.options;
        let mut i: usize = 0;
        while i < n
            invariant
                i <= n,
                ctx.text == t_vec,
                ctx.options == o_vec,
                ctx.diags() == base + mll_diags_upto(t, limit, i as int),
            decreases n - i,
        {
            let s_i = index.start_of_line(ctx.text.as_slice(), i);
            let e_i = index.end_of_line(ctx.text.as_slice(), i);
            proof {
                lemma_line_end_bounds(t, i as int);
                assert(t.subrange(s_i as int, e_i as int) == line_at(t, i as int));
            }
            let c = count_chars(ctx.text.as_slice(), s_i, e_i);
            if (c as u64) > limit {
                let lim_us: usize = limit as usize;
                proof {
                    assert(lim_us == limit);
                }
                let b = scalar_offset(ctx.text.as_slice(), s_i, e_i, lim_us);
                let start = index.to_pos(ctx.text.as_slice(), b);
                let end = index.to_pos(ctx.text.as_slice(), e_i);
                proof {
                    lemma_offset_in_line(t, i as int, b as int);
                    lemma_offset_in_line(t, i as int, e_i as int);
                }
                let d = Diagnostic {
                    rule_id: RuleId::MaxLineLength,
                    message: limit_message(limit),
                    severity: Severity::Warn,
                    range: Range { start, end },
                    code: None,
                    suggest: None,
                    docs_url: Some("https://forseti.dev/rules/max-line-length".to_owned()),
                };
                proof {
                    assert(d@ == mll_diag(t, limit, i as int));
                }
                ctx.report(d);
                proof {
                    assert(mll_diags_upto(t, limit, i as int + 1) == mll_diags_upto(
                        t,
                        limit,
                        i as int,
                    ) + seq![mll_diag(t, limit, i as int)]);
                    assert(base + mll_diags_upto(t, limit, i as int + 1) =~= (base
                        + mll_diags_upto(t, limit, i as int)).push(mll_diag(t, limit, i as int)));
                }
            } else {
                proof {
                    assert(mll_diags_upto(t, limit, i as int + 1) =~= mll_diags_upto(
                        t,
                        limit,
                        i as int,
                    ));
                }
            }
            i += 1;
        }
    }
}

/// A line of at most `limit` scalar values is never flagged; a longer line
/// is flagged exactly once, with a finding that starts at column `limit` and
/// ends at the line's full width.
pub proof fn lemma_limit_boundary(t: Seq<u8>, limit: u64, i: int)
    requires
        0 <= i < line_count(t),
    ensures
        char_count(line_at(t, i)) <= limit ==> count_for_line(mll_diags(t, limit), i) == 0,
        char_count(line_at(t, i)) > limit ==> count_for_line(mll_diags(t, limit), i) == 1,
        forall|j: int|
            0 <= j < mll_diags(t, limit).len() && (#[trigger] mll_diags(
                t,
                limit,
            )[j]).range.start.line == i ==> mll_diags(t, limit)[j].range.start.character == limit
                && mll_diags(t, limit)[j].range.end.character == char_count(line_at(t, i)),
{
    assert forall|j: int| 0 <= j < line_count(t) implies (#[trigger] mll_mk(t, limit)(
        j,
    )).range.start.line == j by {
        assert(mll_mk(t, limit)(j) == mll_diag(t, limit, j));
    }
    lemma_lines_diags_per_line(line_count(t), mll_flagged(t, limit), mll_mk(t, limit), i);
    assert(mll_flagged(t, limit)(i) == line_over_limit(t, limit, i));
    assert forall|j: int|
        0 <= j < mll_diags(t, limit).len() && (#[trigger] mll_diags(t, limit)[j]).range.start.line
            == i implies mll_diags(t, limit)[j].range.start.character == limit && mll_diags(
        t,
        limit,
    )[j].range.end.character == char_count(line_at(t, i)) by {
        assert(mll_diags(t, limit)[j] == mll_mk(t, limit)(i));
        assert(mll_mk(t, limit)(i) == mll_diag(t, limit, i));
    }
}

} // verus!

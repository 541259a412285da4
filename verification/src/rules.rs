//! The rule abstraction: a stateless unit of analysis with an exact
//! specification, the machinery shared by the per-line rules, and the
//! dispatch that runs one rule against a context.

pub mod max_line_length;
pub mod no_empty_files;
pub mod no_trailing_whitespace;
pub mod require_final_newline;

use vstd::prelude::*;

use crate::context::{ConfigData, ConfigEntry, ConfigValue, RuleContext};
use crate::diagnostics::{DiagData, RuleId};

verus! {

/// A single, stateless text-inspection algorithm producing findings for one
/// file.
///
/// `rule_diags` is the rule's exact specification: the findings it owes for
/// a given text under given options. `check` reports exactly those findings,
/// in order, and touches nothing else of the context — so what a rule
/// reports is a function of the text and options alone.
pub trait Rule: Sized {
    /// The findings this rule owes for `text` under `options`.
    spec fn rule_diags(text: Seq<u8>, options: Seq<ConfigEntry>) -> Seq<DiagData>;

    /// Which rule this is.
    spec fn spec_id() -> RuleId;

    /// The rule's human-readable description.
    spec fn spec_description() -> Seq<char>;

    /// The rule's identifier.
    fn id(&self) -> (r: RuleId)
        ensures
            r == Self::spec_id(),
    ;

    /// A short human description of what the rule enforces.
    fn description(&self) -> (r: &'static str)
        ensures
            r@ == Self::spec_description(),
    ;

    /// The rule's default configuration value.
    spec fn spec_default_config() -> ConfigData;

    /// The rule's default configuration value.
    fn default_config(&self) -> (r: ConfigValue)
        ensures
            r@ == Self::spec_default_config(),
    ;

    /// Inspect `ctx` and report this rule's findings.
    fn check(&self, ctx: &mut RuleContext)
        ensures
            final (ctx).text == old(ctx).text,
            final (ctx).options == old(ctx).options,
            final (ctx).diags() == old(ctx).diags() + Self::rule_diags(
                old(ctx).text@,
                old(ctx).options@,
            ),
    ;
}

/// Findings for the first `n` lines: one per flagged line, in line order.
pub open spec fn lines_diags(
    n: int,
    flagged: spec_fn(int) -> bool,
    mk: spec_fn(int) -> DiagData,
) -> Seq<DiagData>
    decreases n,
{
    if n <= 0 {
        Seq::empty()
    } else {
        lines_diags(n - 1, flagged, mk) + if flagged(n - 1) {
            seq![mk(n - 1)]
        } else {
            Seq::<DiagData>::empty()
        }
    }
}

/// How many findings of `ds` start on line `i`.
pub open spec fn count_for_line(ds: Seq<DiagData>, i: int) -> int
    decreases ds.len(),
{
    if ds.len() == 0 {
        0
    } else {
        count_for_line(ds.drop_last(), i) + if ds.last().range.start.line == i {
            1int
        } else {
            0int
        }
    }
}

/// Line counts add over concatenation.
pub proof fn lemma_count_for_line_concat(a: Seq<DiagData>, b: Seq<DiagData>, i: int)
    ensures
        count_for_line(a + b, i) == count_for_line(a, i) + count_for_line(b, i),
    decreases b.len(),
{
    if b.len() == 0 {
        assert(a + b =~= a);
    } else {
        assert((a + b).drop_last() =~= a + b.drop_last());
        assert((a + b).last() == b.last());
        lemma_count_for_line_concat(a, b.drop_last(), i);
    }
}

/// Per-line findings carry exactly one finding per flagged line: line `i`
/// carries one if flagged and none otherwise, and any finding on line `i`
/// is `mk(i)`.
pub proof fn lemma_lines_diags_per_line(
    n: int,
    flagged: spec_fn(int) -> bool,
    mk: spec_fn(int) -> DiagData,
    i: int,
)
    requires
        forall|j: int| 0 <= j < n ==> (#[trigger] mk(j)).range.start.line == j,
    ensures
        count_for_line(lines_diags(n, flagged, mk), i) == if 0 <= i < n && flagged(i) {
            1int
        } else {
            0int
        },
        forall|j: int|
            0 <= j < lines_diags(n, flagged, mk).len() && (#[trigger] lines_diags(
                n,
                flagged,
                mk,
            )[j]).range.start.line == i ==> lines_diags(n, flagged, mk)[j] == mk(i),
    decreases n,
{
    if n <= 0 {
    } else {
        lemma_lines_diags_per_line(n - 1, flagged, mk, i);
        let a = lines_diags(n - 1, flagged, mk);
        let tail = if flagged(n - 1) {
            seq![mk(n - 1)]
        } else {
            Seq::<DiagData>::empty()
        };
        lemma_count_for_line_concat(a, tail, i);
        if flagged(n - 1) {
            assert(count_for_line(tail, i) == if n - 1 == i {
                1int
            } else {
                0int
            }) by {
                assert(tail.len() == 1);
                assert(tail.last() == mk(n - 1));
                assert((mk(n - 1)).range.start.line == n - 1);
                assert(tail.drop_last() =~= Seq::<DiagData>::empty());
                assert(count_for_line(tail.drop_last(), i) == 0);
            }
        }
        let whole = lines_diags(n, flagged, mk);
        assert forall|j: int|
            0 <= j < whole.len() && (#[trigger] whole[j]).range.start.line == i implies whole[j]
            == mk(i) by {
            if j < a.len() {
                assert(whole[j] == a[j]);
            } else {
                assert(whole[j] == mk(n - 1));
            }
        }
    }
}

/// A property of each flagged line's finding holds of every finding.
pub proof fn lemma_lines_diags_all(
    n: int,
    flagged: spec_fn(int) -> bool,
    mk: spec_fn(int) -> DiagData,
    pred: spec_fn(DiagData) -> bool,
)
    requires
        forall|i: int| 0 <= i < n && flagged(i) ==> pred(#[trigger] mk(i)),
    ensures
        forall|j: int|
            0 <= j < lines_diags(n, flagged, mk).len() ==> pred(
                #[trigger] lines_diags(n, flagged, mk)[j],
            ),
    decreases n,
{
    if n > 0 {
        lemma_lines_diags_all(n - 1, flagged, mk, pred);
        let a = lines_diags(n - 1, flagged, mk);
        let whole = lines_diags(n, flagged, mk);
        assert forall|j: int| 0 <= j < whole.len() implies pred(#[trigger] whole[j]) by {
            if j < a.len() {
                assert(whole[j] == a[j]);
            } else {
                assert(whole[j] == mk(n - 1));
            }
        }
    }
}

/// The findings rule `id` owes for `text` under `options`.
pub open spec fn diags_of_rule(id: RuleId, text: Seq<u8>, options: Seq<ConfigEntry>) -> Seq<
    DiagData,
> {
    match id {
        RuleId::NoTrailingWhitespace => <no_trailing_whitespace::NoTrailingWhitespaceRule as Rule>::rule_diags(
            text,
            options,
        ),
        RuleId::MaxLineLength => <max_line_length::MaxLineLengthRule as Rule>::rule_diags(
            text,
            options,
        ),
        RuleId::NoEmptyFiles => <no_empty_files::NoEmptyFilesRule as Rule>::rule_diags(
            text,
            options,
        ),
        RuleId::RequireFinalNewline => <require_final_newline::RequireFinalNewlineRule as Rule>::rule_diags(
            text,
            options,
        ),
    }
}

/// Run the rule named by `id` against the context.
pub fn run_rule(id: RuleId, ctx: &mut RuleContext)
    ensures
        final (ctx).text == old(ctx).text,
        final (ctx).options == old(ctx).options,
        final (ctx).diags() == old(ctx).diags() + diags_of_rule(
            id,
            old(ctx).text@,
            old(ctx).options@,
        ),
{
    match id {
        RuleId::NoTrailingWhitespace => {
            let r = no_trailing_whitespace::NoTrailingWhitespaceRule;
            r.check(ctx);
        },
        RuleId::MaxLineLength => {
            let r = max_line_length::MaxLineLengthRule;
            r.check(ctx);
        },
        RuleId::NoEmptyFiles => {
            let r = no_empty_files::NoEmptyFilesRule;
            r.check(ctx);
        },
        RuleId::RequireFinalNewline => {
            let r = require_final_newline::RequireFinalNewlineRule;
            r.check(ctx);
        },
    }
}

/// Every finding a rule produces has an ordered range: its start precedes
/// or equals its end in document order.
pub proof fn lemma_findings_ordered(id: RuleId, text: Seq<u8>, options: Seq<ConfigEntry>)
    ensures
        forall|j: int|
            0 <= j < diags_of_rule(id, text, options).len() ==> crate::position::range_ordered(
                (#[trigger] diags_of_rule(id, text, options)[j]).range,
            ),
{
    let ds = diags_of_rule(id, text, options);
    let ordered = |d: DiagData| crate::position::range_ordered(d.range);
    match id {
        RuleId::NoTrailingWhitespace => {
            let n = crate::text::line_count(text);
            let flagged = no_trailing_whitespace::ntw_flagged(text);
            let mk = no_trailing_whitespace::ntw_mk(text);
            assert forall|i: int| 0 <= i < n && flagged(i) implies ordered(#[trigger] mk(i)) by {
                assert(mk(i) == no_trailing_whitespace::ntw_diag(text, i));
                let c = crate::text::line_at(text, i);
                crate::text::lemma_trimmed_len_le(c);
                crate::text::lemma_char_count_take_le(c, crate::text::trimmed_len(c) as int);
            }
            lemma_lines_diags_all(n, flagged, mk, ordered);
        },
        RuleId::MaxLineLength => {
            let lim = max_line_length::limit_of(options);
            let n = crate::text::line_count(text);
            let flagged = max_line_length::mll_flagged(text, lim);
            let mk = max_line_length::mll_mk(text, lim);
            assert forall|i: int| 0 <= i < n && flagged(i) implies ordered(#[trigger] mk(i)) by {
                assert(mk(i) == max_line_length::mll_diag(text, lim, i));
                assert(max_line_length::line_over_limit(text, lim, i));
            }
            lemma_lines_diags_all(n, flagged, mk, ordered);
        },
        RuleId::NoEmptyFiles => {
            if crate::text::is_blank(text) {
                assert(ds =~= seq![no_empty_files::nef_diag()]);
            }
        },
        RuleId::RequireFinalNewline => {
            if text.len() > 0 && !crate::text::is_newline(text.last()) {
                assert(ds =~= seq![require_final_newline::rfn_diag(text)]);
            }
        },
    }
}

/// What a rule reports depends on the text and options alone; hence two runs
/// of one rule against an unmodified context append structurally identical
/// finding lists.
pub proof fn lemma_rule_deterministic(
    id: RuleId,
    text1: Seq<u8>,
    options1: Seq<ConfigEntry>,
    text2: Seq<u8>,
    options2: Seq<ConfigEntry>,
)
    requires
        text1 == text2,
        options1 == options2,
    ensures
        diags_of_rule(id, text1, options1) == diags_of_rule(id, text2, options2),
{
}

} // verus!

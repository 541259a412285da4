//! The diagnostic data model: severities, rule identities, positioned
//! findings, and suggested edits, together with their mathematical views.

use vstd::prelude::*;

use crate::position::{Range, RangeData};

verus! {

/// How serious a finding is.
#[derive(Clone, Copy, Debug, PartialEq, Eq, Structural)]
pub enum Severity {
    Error,
    Warn,
}

/// Identifies one of the rules of this crate.
#[derive(Clone, Copy, Debug, PartialEq, Eq, Structural)]
pub enum RuleId {
    NoTrailingWhitespace,
    MaxLineLength,
    NoEmptyFiles,
    RequireFinalNewline,
}

impl RuleId {
    /// The stable string identifier of the rule.
    pub open spec fn spec_str(&self) -> Seq<char> {
        match self {
            RuleId::NoTrailingWhitespace => "no-trailing-whitespace"@,
            RuleId::MaxLineLength => "max-line-length"@,
            RuleId::NoEmptyFiles => "no-empty-files"@,
            RuleId::RequireFinalNewline => "require-final-newline"@,
        }
    }

    /// The stable string identifier of the rule.
    pub fn as_str(&self) -> (r: &'static str)
        ensures
            r@ == self.spec_str(),
    {
        match self {
            RuleId::NoTrailingWhitespace => "no-trailing-whitespace",
            RuleId::MaxLineLength => "max-line-length",
            RuleId::NoEmptyFiles => "no-empty-files",
            RuleId::RequireFinalNewline => "require-final-newline",
        }
    }
}

/// A single textual replacement: the span `range` is replaced by `text`.
/// An empty `text` deletes; a zero-width `range` inserts.
#[derive(Clone, Debug, PartialEq, Eq)]
pub struct Fix {
    pub range: Range,
    pub text: String,
}

/// A labelled remediation; `fix` is `None` when no mechanical fix is
/// available.
#[derive(Clone, Debug, PartialEq, Eq)]
pub struct SuggestFix {
    pub title: String,
    pub fix: Option<Fix>,
}

/// A positioned finding: one rule's report about one span of one file.
#[derive(Clone, Debug, PartialEq, Eq)]
pub struct Diagnostic {
    pub rule_id: RuleId,
    pub message: String,
    pub severity: Severity,
    pub range: Range,
    pub code: Option<String>,
    pub suggest: Option<Vec<SuggestFix>>,
    pub docs_url: Option<String>,
}

/// Mathematical counterpart of [`Fix`].
pub struct FixData {
    pub range: RangeData,
    pub text: Seq<char>,
}

/// Mathematical counterpart of [`SuggestFix`].
pub struct SuggestData {
    pub title: Seq<char>,
    pub fix: Option<FixData>,
}

/// Mathematical counterpart of [`Diagnostic`].
pub struct DiagData {
    pub rule_id: RuleId,
    pub message: Seq<char>,
    pub severity: Severity,
    pub range: RangeData,
    pub code: Option<Seq<char>>,
    pub suggest: Option<Seq<SuggestData>>,
    pub docs_url: Option<Seq<char>>,
}

impl View for Fix {
    type V = FixData;

    open spec fn view(&self) -> FixData {
        FixData { range: self.range@, text: self.text@ }
    }
}

impl View for SuggestFix {
    type V = SuggestData;

    open spec fn view(&self) -> SuggestData {
        SuggestData {
            title: self.title@,
            fix: match self.fix {
                Some(f) => Some(f@),
                None => None,
            },
        }
    }
}

impl View for Diagnostic {
    type V = DiagData;

    open spec fn view(&self) -> DiagData {
        DiagData {
            rule_id: self.rule_id,
            message: self.message@,
            severity: self.severity,
            range: self.range@,
            code: match self.code {
                Some(c) => Some(c@),
                None => None,
            },
            suggest: match self.suggest {
                Some(v) => Some(v@.map_values(|sf: SuggestFix| sf@)),
                None => None,
            },
            docs_url: match self.docs_url {
                Some(u) => Some(u@),
                None => None,
            },
        }
    }
}

/// The findings of a diagnostic list, as their mathematical views.
pub open spec fn diags_view(ds: Seq<Diagnostic>) -> Seq<DiagData> {
    ds.map_values(|d: Diagnostic| d@)
}

/// Appending a diagnostic appends its view.
pub proof fn lemma_diags_view_push(ds: Seq<Diagnostic>, d: Diagnostic)
    ensures
        diags_view(ds.push(d)) == diags_view(ds).push(d@),
{
    assert(diags_view(ds.push(d)) =~= diags_view(ds).push(d@));
}

} // verus!

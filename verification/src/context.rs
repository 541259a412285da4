//! The per-file rule context: the text under scrutiny, the options resolved
//! for the running rule, and the append-only list of findings.

use vstd::prelude::*;

use crate::diagnostics::{diags_view, lemma_diags_view_push, DiagData, Diagnostic};

verus! {

/// A configuration value resolved for a rule.
#[derive(Clone, Debug, PartialEq, Eq)]
pub enum ConfigValue {
    Integer(u64),
    Text(String),
    Flag(bool),
}

/// One named configuration option.
#[derive(Clone, Debug, PartialEq, Eq)]
pub struct ConfigEntry {
    pub name: String,
    pub value: ConfigValue,
}

/// Mathematical counterpart of [`ConfigValue`].
pub enum ConfigData {
    Integer(u64),
    Text(Seq<char>),
    Flag(bool),
}

impl View for ConfigValue {
    type V = ConfigData;

    open spec fn view(&self) -> ConfigData {
        match self {
            ConfigValue::Integer(n) => ConfigData::Integer(*n),
            ConfigValue::Text(s) => ConfigData::Text(s@),
            ConfigValue::Flag(b) => ConfigData::Flag(*b),
        }
    }
}

/// The first value bound to `name` in `opts`, if any.
pub open spec fn option_value(opts: Seq<ConfigEntry>, name: Seq<char>) -> Option<ConfigValue>
    decreases opts.len(),
{
    if opts.len() == 0 {
        None
    } else if opts[0].name@ == name {
        Some(opts[0].value)
    } else {
        option_value(opts.drop_first(), name)
    }
}

/// Skipping a non-matching entry does not change what a lookup finds.
proof fn lemma_option_value_step(opts: Seq<ConfigEntry>, name: Seq<char>, i: int)
    requires
        0 <= i < opts.len(),
        opts[i].name@ != name,
    ensures
        option_value(opts.skip(i), name) == option_value(opts.skip(i + 1), name),
{
    assert(opts.skip(i)[0] == opts[i]);
    assert(opts.skip(i).drop_first() =~= opts.skip(i + 1));
}

/// Look `name` up among `opts`, returning the first binding.
pub fn option_lookup<'a>(opts: &'a Vec<ConfigEntry>, name: &String) -> (r: Option<&'a ConfigValue>)
    ensures
        match r {
            Some(v) => option_value(opts@, name@) == Some(*v),
            None => option_value(opts@, name@) == None::<ConfigValue>,
        },
{
    proof {
        assert(opts@.skip(0) =~= opts@);
    }
    let n = opts.len();
    let mut i: usize = 0;
    while i < n
        invariant
            i <= n,
            n == opts@.len(),
            option_value(opts@, name@) == option_value(opts@.skip(i as int), name@),
        decreases n - i,
    {
        if opts[i].name == *name {
            proof {
                assert(opts@.skip(i as int)[0] == opts@[i as int]);
            }
            return Some(&opts[i].value);
        }
        proof {
            lemma_option_value_step(opts@, name@, i as int);
        }
        i += 1;
    }
    proof {
        assert(opts@.skip(n as int).len() == 0);
    }
    None
}

/// Per-file execution context: owns the text of one file, the options
/// resolved for the running rule, and the accumulating findings. It is
/// constructed fresh per file, and its findings are the sole output.
pub struct RuleContext {
    pub text: Vec<u8>,
    pub options: Vec<ConfigEntry>,
    pub diagnostics: Vec<Diagnostic>,
}

impl RuleContext {
    /// The findings reported so far, in order.
    pub open spec fn diags(&self) -> Seq<DiagData> {
        diags_view(self.diagnostics@)
    }

    /// A fresh context with no findings yet.
    pub fn new(text: Vec<u8>, options: Vec<ConfigEntry>) -> (r: RuleContext)
        ensures
            r.text == text,
            r.options == options,
            r.diags() == Seq::<DiagData>::empty(),
    {
        let r = RuleContext { text, options, diagnostics: Vec::new() };
        proof {
            assert(r.diags() =~= Seq::<DiagData>::empty());
        }
        r
    }

    /// Append one finding; text and options are untouched.
    pub fn report(&mut self, d: Diagnostic)
        ensures
            final (self).text == old(self).text,
            final (self).options == old(self).options,
            final (self).diags() == old(self).diags().push(d@),
    {
        let ghost pre = self.diagnostics@;
        proof {
            lemma_diags_view_push(pre, d);
        }
        self.diagnostics.push(d);
    }
}

} // verus!

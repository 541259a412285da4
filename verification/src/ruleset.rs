//! Rule-set assembly and metadata: the ordered collection of rules, the
//! capabilities and configuration schema an orchestrator queries, and the
//! lightweight pre-analysis of candidate files.

use vstd::prelude::*;

use crate::context::{ConfigData, ConfigEntry, ConfigValue, RuleContext};
use crate::diagnostics::{DiagData, RuleId};
use crate::language::{extension_of, file_name, has_file_scheme, infer_language, local_path, spec_infer_language, Language};
use crate::rules::max_line_length::DEFAULT_MAX_LINE_LENGTH;
use crate::rules::{diags_of_rule, run_rule, Rule};

verus! {

/// The value type a configuration setting accepts.
#[derive(Clone, Copy, Debug, PartialEq, Eq, Structural)]
pub enum ConfigType {
    Integer,
    Text,
    Flag,
    Choice,
}

/// Schema of one named, typed, optionally bounded configuration setting.
#[derive(Clone, Debug, PartialEq, Eq)]
pub struct ConfigSetting {
    pub name: String,
    pub description: String,
    pub setting_type: ConfigType,
    pub default: ConfigValue,
    pub required: bool,
    pub min: Option<u64>,
    pub max: Option<u64>,
    pub allowed_values: Option<Vec<ConfigValue>>,
}

/// Static metadata an orchestrator queries from the rule set.
pub struct RulesetCapabilities {
    pub ruleset_id: String,
    pub version: String,
    pub file_patterns: Vec<String>,
    pub max_file_size: Option<u64>,
    pub annotation_prefixes: Vec<String>,
    pub rules: Vec<RuleId>,
    pub default_config: Vec<ConfigEntry>,
    pub config_settings: Vec<ConfigSetting>,
}

/// Advisory, per-file context assembled before any rule runs. `content` is
/// left empty here: rules receive their text through the rule context.
pub struct FileContext {
    pub uri: Vec<u8>,
    pub content: Vec<u8>,
    pub language: Option<Language>,
    pub extension: Option<Vec<u8>>,
}

/// What pre-analysis hands upward: one context per candidate file, plus the
/// global data: the file count and the kind of rule set that produced it.
pub struct PreprocessingContext {
    pub ruleset_id: String,
    pub files: Vec<FileContext>,
    pub total_files: usize,
    pub ruleset_type: String,
}

/// The findings all of `rules` owe for `text` under `options`, in order.
pub open spec fn diags_of_rules(
    rules: Seq<RuleId>,
    text: Seq<u8>,
    options: Seq<ConfigEntry>,
) -> Seq<DiagData>
    decreases rules.len(),
{
    if rules.len() == 0 {
        Seq::empty()
    } else {
        diags_of_rule(rules[0], text, options) + diags_of_rules(rules.drop_first(), text, options)
    }
}

/// Appending a rule appends its findings.
pub proof fn lemma_diags_of_rules_snoc(
    rules: Seq<RuleId>,
    id: RuleId,
    text: Seq<u8>,
    options: Seq<ConfigEntry>,
)
    ensures
        diags_of_rules(rules.push(id), text, options) == diags_of_rules(rules, text, options)
            + diags_of_rule(id, text, options),
    decreases rules.len(),
{
    let whole = rules.push(id);
    if rules.len() == 0 {
        assert(whole[0] == id);
        assert(whole.drop_first() =~= Seq::<RuleId>::empty());
        assert(diags_of_rules(whole.drop_first(), text, options) == Seq::<DiagData>::empty());
        assert(diags_of_rules(whole, text, options) =~= diags_of_rule(id, text, options));
        assert(diags_of_rules(rules, text, options) + diags_of_rule(id, text, options)
            =~= diags_of_rule(id, text, options));
    } else {
        assert(whole[0] == rules[0]);
        assert(whole.drop_first() =~= rules.drop_first().push(id));
        lemma_diags_of_rules_snoc(rules.drop_first(), id, text, options);
        assert(diags_of_rules(rules.push(id), text, options) =~= diags_of_rules(
            rules,
            text,
            options,
        ) + diags_of_rule(id, text, options));
    }
}

/// An ordered collection of rules, run one after another against a shared
/// context; effectively immutable once built.
pub struct RuleSet {
    pub id: String,
    pub rules: Vec<RuleId>,
}

impl RuleSet {
    /// An empty rule set under the given identifier.
    pub fn new(id: String) -> (r: RuleSet)
        ensures
            r.id == id,
            r.rules@ == Seq::<RuleId>::empty(),
    {
        RuleSet { id, rules: Vec::new() }
    }

    /// The same rule set with one more rule at the end.
    pub fn with_rule(self, id: RuleId) -> (r: RuleSet)
        ensures
            r.id == self.id,
            r.rules@ == self.rules@.push(id),
    {
        let mut rules = self.rules;
        rules.push(id);
        RuleSet { id: self.id, rules }
    }

    /// Run every rule, in order, against one context. Each rule only appends
    /// findings, so the order affects only their arrangement in the output.
    #[verifier::loop_isolation(false)]
    pub fn run(&self, ctx: &mut RuleContext)
        ensures
            final (ctx).text == old(ctx).text,
            final (ctx).options == old(ctx).options,
            final (ctx).diags() == old(ctx).diags() + diags_of_rules(
                self.rules@,
                old(ctx).text@,
                old(ctx).options@,
            ),
    {
        let ghost t = ctx.text@;
        let ghost opts = ctx.options@;
        let ghost base = ctx.diags();
        let ghost t_vec = ctx.text;
        let ghost o_vec = ctx.options;
        proof {
            assert(self.rules@.take(0) =~= Seq::<RuleId>::empty());
        }
        let n = self.rules.len();
        let mut i: usize = 0;
        while i < n
            invariant
                i <= n,
                ctx.text == t_vec,
                ctx.options == o_vec,
                ctx.diags() == base + diags_of_rules(self.rules@.take(i as int), t, opts),
            decreases n - i,
        {
            let id = self.rules[i];
            run_rule(id, ctx);
            proof {
                assert(self.rules@.take(i as int + 1) =~= self.rules@.take(i as int).push(id));
                lemma_diags_of_rules_snoc(self.rules@.take(i as int), id, t, opts);
                assert(base + diags_of_rules(self.rules@.take(i as int + 1), t, opts) =~= (base
                    + diags_of_rules(self.rules@.take(i as int), t, opts)) + diags_of_rule(
                    id,
                    t,
                    opts,
                ));
            }
            i += 1;
        }
        proof {
            assert(self.rules@.take(n as int) =~= self.rules@);
        }
    }
}

/// Copy the bytes `s[from..to]` into an owned vector.
#[verifier::loop_isolation(false)]
fn copy_range(s: &[u8], from: usize, to: usize) -> (r: Vec<u8>)
    requires
        from <= to <= s@.len(),
    ensures
        r@ == s@.subrange(from as int, to as int),
{
    let mut r: Vec<u8> = Vec::new();
    let mut i = from;
    while i < to
        invariant
            from <= i <= to,
            r@ == s@.subrange(from as int, i as int),
        decreases to - i,
    {
        r.push(s[i]);
        proof {
            assert(s@.subrange(from as int, i as int + 1) =~= s@.subrange(
                from as int,
                i as int,
            ).push(s@[i as int]));
        }
        i += 1;
    }
    r
}

/// What the advisory `extension` field of a file context holds: nothing for
/// a URI without the local-file scheme, the local path's extension bytes
/// (or nothing, where the path has none) for one with it.
pub open spec fn extension_matches(ext: Option<Vec<u8>>, uri: Seq<u8>) -> bool {
    if !has_file_scheme(uri) {
        ext is None
    } else {
        match ext {
            Some(e) => extension_of(file_name(local_path(uri))) == Some(e@),
            None => extension_of(file_name(local_path(uri))) is None,
        }
    }
}

/// The base rule set: four hygiene rules over plain text, with the metadata
/// an orchestrator needs to drive them.
pub struct BaseRuleset;

impl BaseRuleset {
    /// The settings the rules recognize: one integer-valued line-length
    /// limit, bounded and optional, defaulting to the single source of
    /// truth for that limit.
    pub fn get_config_settings(&self) -> (r: Vec<ConfigSetting>)
        ensures
            r@.len() == 1,
            r@[0].name@ == "max-line-length"@,
            r@[0].setting_type == ConfigType::Integer,
            r@[0].default == ConfigValue::Integer(DEFAULT_MAX_LINE_LENGTH),
            r@[0].required == false,
            r@[0].min == Some(10u64),
            r@[0].max == Some(500u64),
            r@[0].allowed_values matches None,
    {
        let mut r: Vec<ConfigSetting> = Vec::new();
        r.push(
            ConfigSetting {
                name: "max-line-length".to_owned(),
                description: "Maximum allowed line length in characters".to_owned(),
                setting_type: ConfigType::Integer,
                default: ConfigValue::Integer(DEFAULT_MAX_LINE_LENGTH),
                required: false,
                min: Some(10),
                max: Some(500),
                allowed_values: None,
            },
        );
        r
    }

    /// The default configuration object: each rule's identifier bound to
    /// that rule's default configuration value.
    pub fn get_default_config(&self) -> (r: Vec<ConfigEntry>)
        ensures
            r@.len() == 4,
            r@[0].name@ == RuleId::NoTrailingWhitespace.spec_str(),
            r@[1].name@ == RuleId::MaxLineLength.spec_str(),
            r@[2].name@ == RuleId::NoEmptyFiles.spec_str(),
            r@[3].name@ == RuleId::RequireFinalNewline.spec_str(),
            forall|k: int| 0 <= k < 4 ==> (#[trigger] r@[k].value)@ == ConfigData::Text("error"@),
    {
        let mut r: Vec<ConfigEntry> = Vec::new();
        let ntw = crate::rules::no_trailing_whitespace::NoTrailingWhitespaceRule;
        let mll = crate::rules::max_line_length::MaxLineLengthRule;
        let nef = crate::rules::no_empty_files::NoEmptyFilesRule;
        let rfn = crate::rules::require_final_newline::RequireFinalNewlineRule;
        r.push(
            ConfigEntry {
                name: ntw.id().as_str().to_owned(),
                value: ntw.default_config(),
            },
        );
        r.push(
            ConfigEntry {
                name: mll.id().as_str().to_owned(),
                value: mll.default_config(),
            },
        );
        r.push(
            ConfigEntry {
                name: nef.id().as_str().to_owned(),
                value: nef.default_config(),
            },
        );
        r.push(
            ConfigEntry {
                name: rfn.id().as_str().to_owned(),
                value: rfn.default_config(),
            },
        );
        r
    }

    /// The rule set's capabilities: identity, version, the files it applies
    /// to (all of them), its size bound, the comment prefixes recognized for
    /// suppression annotations, the rules, and the configuration schema.
    pub fn get_capabilities(&self) -> (r: RulesetCapabilities)
        ensures
            r.ruleset_id@ == "base"@,
            r.version@ == "0.1.0"@,
            r.file_patterns@.len() == 1,
            r.file_patterns@[0]@ == "*"@,
            r.max_file_size == Some(10485760u64),
            r.annotation_prefixes@.len() == 4,
            r.annotation_prefixes@[0]@ == "#"@,
            r.annotation_prefixes@[1]@ == "//"@,
            r.annotation_prefixes@[2]@ == "--"@,
            r.annotation_prefixes@[3]@ == "<!--"@,
            r.rules@ == seq![
                RuleId::NoTrailingWhitespace,
                RuleId::MaxLineLength,
                RuleId::NoEmptyFiles,
                RuleId::RequireFinalNewline,
            ],
            r.default_config@.len() == 4,
            r.config_settings@.len() == 1,
    {
        let mut file_patterns: Vec<String> = Vec::new();
        file_patterns.push("*".to_owned());
        let mut annotation_prefixes: Vec<String> = Vec::new();
        annotation_prefixes.push("#".to_owned());
        annotation_prefixes.push("//".to_owned());
        annotation_prefixes.push("--".to_owned());
        annotation_prefixes.push("<!--".to_owned());
        let mut rules: Vec<RuleId> = Vec::new();
        rules.push(RuleId::NoTrailingWhitespace);
        rules.push(RuleId::MaxLineLength);
        rules.push(RuleId::NoEmptyFiles);
        rules.push(RuleId::RequireFinalNewline);
        proof {
            assert(rules@ =~= seq![
                RuleId::NoTrailingWhitespace,
                RuleId::MaxLineLength,
                RuleId::NoEmptyFiles,
                RuleId::RequireFinalNewline,
            ]);
        }
        RulesetCapabilities {
            ruleset_id: "base".to_owned(),
            version: "0.1.0".to_owned(),
            file_patterns,
            max_file_size: Some(10 * 1024 * 1024),
            annotation_prefixes,
            rules,
            default_config: self.get_default_config(),
            config_settings: self.get_config_settings(),
        }
    }

    /// The four rules in their fixed execution order.
    pub fn create_ruleset(&self) -> (r: RuleSet)
        ensures
            r.id@ == "base"@,
            r.rules@ == seq![
                RuleId::NoTrailingWhitespace,
                RuleId::MaxLineLength,
                RuleId::NoEmptyFiles,
                RuleId::RequireFinalNewline,
            ],
    {
        let r = RuleSet::new("base".to_owned()).with_rule(RuleId::NoTrailingWhitespace).with_rule(
            RuleId::MaxLineLength,
        ).with_rule(RuleId::NoEmptyFiles).with_rule(RuleId::RequireFinalNewline);
        proof {
            assert(r.rules@ =~= seq![
                RuleId::NoTrailingWhitespace,
                RuleId::MaxLineLength,
                RuleId::NoEmptyFiles,
                RuleId::RequireFinalNewline,
            ]);
        }
        r
    }

    /// Lightweight pre-analysis: per URI, an advisory context holding the
    /// URI itself, an inferred language, and — for local files — the path's
    /// extension. Content is left for the rules to receive; advisory fields
    /// never gate whether a rule runs.
    #[verifier::loop_isolation(false)]
    pub fn preprocess_files(&self, uris: &Vec<Vec<u8>>) -> (r: PreprocessingContext)
        ensures
            r.ruleset_id@ == "base"@,
            r.total_files == uris@.len(),
            r.files@.len() == uris@.len(),
            forall|k: int|
                0 <= k < uris@.len() ==> (#[trigger] r.files@[k]).uri@ == uris@[k]@,
            forall|k: int|
                0 <= k < uris@.len() ==> (#[trigger] r.files@[k]).content@ == Seq::<u8>::empty(),
            forall|k: int|
                0 <= k < uris@.len() ==> (#[trigger] r.files@[k]).language == spec_infer_language(
                    uris@[k]@,
                ),
            forall|k: int|
                0 <= k < uris@.len() ==> extension_matches((#[trigger] r.files@[k]).extension, uris@[k]@),
            r.ruleset_type@ == "text-based"@,
    {
        let mut files: Vec<FileContext> = Vec::new();
        let n = uris.len();
        let mut i: usize = 0;
        while i < n
            invariant
                i <= n,
                files@.len() == i,
                forall|k: int| 0 <= k < i ==> (#[trigger] files@[k]).uri@ == uris@[k]@,
                forall|k: int|
                    0 <= k < i ==> (#[trigger] files@[k]).content@ == Seq::<u8>::empty(),
                forall|k: int|
                    0 <= k < i ==> (#[trigger] files@[k]).language == spec_infer_language(
                        uris@[k]@,
                    ),
                forall|k: int|
                    0 <= k < i ==> extension_matches((#[trigger] files@[k]).extension, uris@[k]@),
            decreases n - i,
        {
            let uri = &uris[i];
            let language = infer_language(uri.as_slice());
            // only a local file's path contributes its extension
            let extension = if crate::language::has_scheme(uri.as_slice()) {
                match crate::language::extension_span(uri.as_slice()) {
                    Some((a, b)) => Some(copy_range(uri.as_slice(), a, b)),
                    None => None,
                }
            } else {
                None
            };
            let fc = FileContext {
                uri: copy_range(uri.as_slice(), 0, uri.len()),
                content: Vec::new(),
                language,
                extension,
            };
            proof {
                assert(fc.uri@ =~= uris@[i as int]@);
            }
            files.push(fc);
            i += 1;
        }
        PreprocessingContext {
            ruleset_id: "base".to_owned(),
            files,
            total_files: n,
            ruleset_type: "text-based".to_owned(),
        }
    }
}

} // verus!

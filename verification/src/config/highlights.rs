//! Highlight rules: the pattern-matched coloring, sound, routing and alert
//! behaviour that user rules and alert packs share.

use vstd::prelude::*;
use crate::named::{dup_opt, Duplicate, NamedMap};
use crate::regex_match::{pattern_compiles, regex_compiles};
use crate::text::{chars_of, string_from_chars, trim, trim_chars};

verus! {

/// Presentation of an on-screen alert raised by a rule.
#[derive(Debug, Clone, PartialEq)]
pub struct AlertSpec {
    pub id: Option<String>,
    pub banner: Option<String>,
    pub banner_fg: Option<String>,
    pub banner_bg: Option<String>,
    pub art: Option<String>,
    pub flash: Option<String>,
    pub priority: Option<i32>,
    /// Least time between two alerts of the rule, in milliseconds.
    pub cooldown_ms: Option<u64>,
    /// How long the alert stays on screen, in milliseconds.
    pub duration_ms: Option<u64>,
}

impl Default for AlertSpec {
    fn default() -> (r: Self)
        ensures
            r.id is None && r.banner is None && r.banner_fg is None && r.banner_bg is None
                && r.art is None && r.flash is None && r.priority is None && r.cooldown_ms is None
                && r.duration_ms is None,
    {
        AlertSpec {
            id: None,
            banner: None,
            banner_fg: None,
            banner_bg: None,
            art: None,
            flash: None,
            priority: None,
            cooldown_ms: None,
            duration_ms: None,
        }
    }
}

impl Duplicate for AlertSpec {
    fn duplicate(&self) -> (r: Self) {
        AlertSpec {
            id: dup_opt(&self.id),
            banner: dup_opt(&self.banner),
            banner_fg: dup_opt(&self.banner_fg),
            banner_bg: dup_opt(&self.banner_bg),
            art: dup_opt(&self.art),
            flash: dup_opt(&self.flash),
            priority: self.priority,
            cooldown_ms: self.cooldown_ms,
            duration_ms: self.duration_ms,
        }
    }
}

/// One highlight rule.
///
/// `replace` rewrites matching text and `redirect_to` reroutes matching
/// lines to another window: the two powers that can misrepresent what the
/// game said. Everything else only colors, sounds or alerts.
#[derive(Debug, Clone, PartialEq)]
pub struct HighlightPattern {
    pub pattern: String,
    pub fg: Option<String>,
    pub bg: Option<String>,
    pub bold: bool,
    pub color_entire_line: bool,
    pub fast_parse: bool,
    pub case_insensitive: bool,
    pub sound: Option<String>,
    pub category: Option<String>,
    pub squelch: bool,
    pub silent_prompt: bool,
    pub redirect_to: Option<String>,
    pub replace: Option<String>,
    pub stream: Option<String>,
    pub window: Option<String>,
    pub set_status: Option<String>,
    pub clear_status: Option<String>,
    pub alert: Option<AlertSpec>,
}

impl HighlightPattern {
    /// A rule that matches `pattern` and does nothing else yet.
    pub fn with_pattern(pattern: &str) -> (r: Self)
        ensures
            r.pattern@ == pattern@,
            r.replace is None,
            r.redirect_to is None,
            r.fg is None,
            r.alert is None,
    {
        HighlightPattern {
            pattern: pattern.to_owned(),
            fg: None,
            bg: None,
            bold: false,
            color_entire_line: false,
            fast_parse: false,
            case_insensitive: false,
            sound: None,
            category: None,
            squelch: false,
            silent_prompt: false,
            redirect_to: None,
            replace: None,
            stream: None,
            window: None,
            set_status: None,
            clear_status: None,
            alert: None,
        }
    }
}

impl Duplicate for HighlightPattern {
    fn duplicate(&self) -> (r: Self) {
        HighlightPattern {
            pattern: self.pattern.clone(),
            fg: dup_opt(&self.fg),
            bg: dup_opt(&self.bg),
            bold: self.bold,
            color_entire_line: self.color_entire_line,
            fast_parse: self.fast_parse,
            case_insensitive: self.case_insensitive,
            sound: dup_opt(&self.sound),
            category: dup_opt(&self.category),
            squelch: self.squelch,
            silent_prompt: self.silent_prompt,
            redirect_to: dup_opt(&self.redirect_to),
            replace: dup_opt(&self.replace),
            stream: dup_opt(&self.stream),
            window: dup_opt(&self.window),
            set_status: dup_opt(&self.set_status),
            clear_status: dup_opt(&self.clear_status),
            alert: match &self.alert {
                Some(a) => Some(a.duplicate()),
                None => None,
            },
        }
    }
}

/// Rules keyed by rule name.
pub type RuleMap = NamedMap<HighlightPattern>;

/// Why a highlight rule sent in from an editor was refused.
#[derive(Debug, Clone, Copy, PartialEq, Eq, Structural)]
pub enum RulePutError {
    /// The rule name is empty or only whitespace.
    MissingName,
    /// The rule's pattern is empty or only whitespace.
    MissingPattern,
    /// The pattern is meant as a regular expression and does not compile.
    BadRegex,
}

/// What storing the rule `rule` under `name` gives: the name trimmed of
/// whitespace, or the reason the rule is refused.
pub open spec fn rule_put_outcome(name: Seq<char>, rule_pattern: Seq<char>, fast_parse: bool) -> Result<
    Seq<char>,
    RulePutError,
> {
    if trim(name).len() == 0 {
        Err(RulePutError::MissingName)
    } else if trim(rule_pattern).len() == 0 {
        Err(RulePutError::MissingPattern)
    } else if !fast_parse && !regex_compiles(rule_pattern) {
        Err(RulePutError::BadRegex)
    } else {
        Ok(trim(name))
    }
}

/// Checks a rule before it is stored: it needs a name and a pattern, and a
/// pattern not marked as a literal list must compile as a regular
/// expression. Gives the trimmed name the rule is stored under.
pub fn check_rule_put(name: &str, rule: &HighlightPattern) -> (r: Result<String, RulePutError>)
    ensures
        match r {
            Ok(n) => rule_put_outcome(name@, rule.pattern@, rule.fast_parse) == Ok::<
                Seq<char>,
                RulePutError,
            >(n@),
            Err(e) => rule_put_outcome(name@, rule.pattern@, rule.fast_parse) == Err::<
                Seq<char>,
                RulePutError,
            >(e),
        },
{
    let trimmed = trim_chars(&chars_of(name));
    if trimmed.len() == 0 {
        return Err(RulePutError::MissingName);
    }
    let pattern = trim_chars(&chars_of(rule.pattern.as_str()));
    if pattern.len() == 0 {
        return Err(RulePutError::MissingPattern);
    }
    if !rule.fast_parse && !pattern_compiles(rule.pattern.as_str()) {
        return Err(RulePutError::BadRegex);
    }
    Ok(string_from_chars(trimmed.as_slice()))
}

/// Stores `rule` under its trimmed name when the rule passes
/// `check_rule_put`; a refused rule leaves the rules unchanged.
pub fn put_rule(rules: &mut RuleMap, name: &str, rule: HighlightPattern) -> (r: Result<(), RulePutError>)
    ensures
        match rule_put_outcome(name@, rule.pattern@, rule.fast_parse) {
            Ok(n) => r is Ok && final(rules)@ == old(rules)@.insert(n, rule),
            Err(e) => r == Err::<(), RulePutError>(e) && final(rules)@ == old(rules)@,
        },
{
    match check_rule_put(name, &rule) {
        Ok(n) => {
            rules.insert(n, rule);
            Ok(())
        },
        Err(e) => Err(e),
    }
}

} // verus!

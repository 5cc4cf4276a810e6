//! Normalisation rules: a compiled pattern paired with a replacement template.

use crate::units::{units, Unit};
use regex::Regex;
use vstd::prelude::*;

verus! {

#[verifier::external_type_specification]
#[verifier::external_body]
pub struct ExRegex(Regex);

#[verifier::external_type_specification]
#[verifier::external_body]
pub struct ExRegexError(regex::Error);

/// Whether the regex compiler, with its default settings, accepts `pattern`.
pub uninterp spec fn pattern_compiles(pattern: Seq<char>) -> bool;

/// The successive non-overlapping matches of `pattern` in `text`, each as the
/// char indices where it starts and ends and the template expanded with the
/// match's capture groups.
pub uninterp spec fn rule_matches(pattern: Seq<char>, template: Seq<char>, text: Seq<char>) -> Seq<(int, int, Seq<char>)>;

/// A match as byte offsets agrees with the same match as char indices, which
/// lie within the text with start at most end.
pub open spec fn byte_match(bm: (usize, usize, String), m: (int, int, Seq<char>), text: Seq<char>) -> bool {
    &&& 0 <= m.0 <= m.1 <= text.len()
    &&& bm.0 as int == units(text.take(m.0), Unit::Utf8)
    &&& bm.1 as int == units(text.take(m.1), Unit::Utf8)
    &&& bm.2@ == m.2
}

/// The first pattern of a list that does not compile, and the compiler's
/// diagnostic for it.
#[derive(Debug, PartialEq, Eq)]
pub struct CompileError {
    pub index: usize,
    pub message: String,
}

/// A pattern and the template that replaces each of its matches. Templates may
/// name capture groups (`$name`); a group that the pattern does not define
/// expands to nothing.
#[derive(Debug)]
pub struct RegexCleanerPair {
    regex: Regex,
    pattern: String,
    rep: String,
}

impl View for RegexCleanerPair {
    type V = (Seq<char>, Seq<char>);

    closed spec fn view(&self) -> (Seq<char>, Seq<char>) {
        (self.pattern@, self.rep@)
    }
}

/// The pattern and template of each rule of a list.
pub open spec fn rules_view(list: Seq<RegexCleanerPair>) -> Seq<(Seq<char>, Seq<char>)> {
    list.map_values(|r: RegexCleanerPair| r@)
}

/// Any run of white space ...
pub const WHITE_SPACE_PATTERN: &'static str = r"\s+";

/// ... becomes one space.
pub const WHITE_SPACE_TEMPLATE: &'static str = " ";

/// A URL-like token, capturing its domain as `a` ...
pub const LINK_PATTERN: &'static str = r"(https?://)?(?P<a>[-a-zA-Z0-9@:%._\+~#=]{2,256}\.[a-z]{2,6})\b[-a-zA-Z0-9@:%_\+.~#?&//=]{10,}";

/// ... becomes "link to" and the domain.
pub const LINK_TEMPLATE: &'static str = "link to $a";

/// A long hex token mixing digits and letters, capturing its first six digits as `s` ...
pub const HASH_PATTERN: &'static str = r"(?P<s>[0-9a-f]{6})([0-9]+[a-f]|[a-f]+[0-9])[0-9a-f]*";

/// ... becomes "hash" and those digits.
pub const HASH_TEMPLATE: &'static str = "hash $s";

/// The (pattern, template) pairs of the default configuration.
pub open spec fn default_pairs() -> Seq<(Seq<char>, Seq<char>)> {
    seq![
        (WHITE_SPACE_PATTERN@, WHITE_SPACE_TEMPLATE@),
        (LINK_PATTERN@, LINK_TEMPLATE@),
        (HASH_PATTERN@, HASH_TEMPLATE@),
    ]
}

/// Relies on regex::Regex::new: compiles a pattern, or says why it cannot.
#[verifier::external_body]
fn compile(pattern: &str) -> (r: Result<Regex, regex::Error>)
    ensures
        r is Ok <==> pattern_compiles(pattern@),
{
    Regex::new(pattern)
}

/// Relies on regex::Error's `Display`: the compiler's diagnostic as text.
#[verifier::external_body]
fn error_message(e: &regex::Error) -> String {
    e.to_string()
}

/// Relies on regex::Regex::captures_iter (successive non-overlapping matches,
/// in order, each with start at most end and both on char boundaries) and on
/// regex::Captures::expand (the template with its group references filled in).
/// `rule.regex` is always compiled from `rule.pattern`: only `new` sets them.
#[verifier::external_body]
pub(crate) fn find_rule_matches(rule: &RegexCleanerPair, text: &str) -> (r: Vec<(usize, usize, String)>)
    ensures
        r@.len() == rule_matches(rule@.0, rule@.1, text@).len(),
        forall|k: int| 0 <= k < r@.len() - 1 ==> #[trigger] r@[k].1 <= r@[k + 1].0,
        forall|k: int|
            0 <= k < r@.len() ==> byte_match(
                #[trigger] r@[k],
                rule_matches(rule@.0, rule@.1, text@)[k],
                text@,
            ),
{
    let mut out = Vec::new();
    for caps in rule.regex.captures_iter(text) {
        let m = caps.get_match();
        let mut rep = String::new();
        caps.expand(&rule.rep, &mut rep);
        out.push((m.start(), m.end(), rep));
    }
    out
}

impl RegexCleanerPair {
    /// Compiles `regex` and pairs it with the template `rep`.
    pub fn new(regex: &str, rep: String) -> (r: Result<RegexCleanerPair, regex::Error>)
        ensures
            r is Ok <==> pattern_compiles(regex@),
            r matches Ok(p) ==> p@ == (regex@, rep@),
    {
        match compile(regex) {
            Ok(re) => Ok(RegexCleanerPair { regex: re, pattern: regex.to_owned(), rep }),
            Err(e) => Err(e),
        }
    }

    /// Builds a rule list from (pattern, template) pairs, in order. Fails with
    /// the index of the first pattern that does not compile.
    pub fn prep_list(input: &[(&str, &str)]) -> (r: Result<Vec<RegexCleanerPair>, CompileError>)
        ensures
            r is Ok <==> forall|k: int| 0 <= k < input@.len() ==> pattern_compiles(#[trigger] input@[k].0@),
            r matches Ok(v) ==> v@.len() == input@.len() && forall|k: int|
                0 <= k < input@.len() ==> #[trigger] v@[k]@ == (input@[k].0@, input@[k].1@),
            r matches Err(e) ==> e.index < input@.len() && !pattern_compiles(input@[e.index as int].0@)
                && forall|k: int| 0 <= k < e.index ==> pattern_compiles(#[trigger] input@[k].0@),
    {
        let mut out: Vec<RegexCleanerPair> = Vec::new();
        let mut k: usize = 0;
        while k < input.len()
            invariant
                k <= input@.len(),
                out@.len() == k,
                forall|j: int| 0 <= j < k ==> pattern_compiles(#[trigger] input@[j].0@),
                forall|j: int| 0 <= j < k ==> #[trigger] out@[j]@ == (input@[j].0@, input@[j].1@),
            decreases input@.len() - k,
        {
            let (pattern, rep) = input[k];
            match RegexCleanerPair::new(pattern, rep.to_owned()) {
                Ok(p) => {
                    out.push(p);
                },
                Err(e) => {
                    return Err(CompileError { index: k, message: error_message(&e) });
                },
            }
            k = k + 1;
        }
        Ok(out)
    }

    /// The rules shipped as the default configuration: a run of white space
    /// becomes one space; a URL becomes "link to" and its domain; a long hex
    /// token that mixes digits and letters becomes "hash" and its first six
    /// digits.
    pub fn default_list() -> (r: Result<Vec<RegexCleanerPair>, CompileError>)
        ensures
            r is Ok <==> forall|k: int| 0 <= k < 3 ==> pattern_compiles(#[trigger] default_pairs()[k].0),
            r matches Ok(v) ==> rules_view(v@) == default_pairs(),
    {
        let pairs = [
            (WHITE_SPACE_PATTERN, WHITE_SPACE_TEMPLATE),
            (LINK_PATTERN, LINK_TEMPLATE),
            (HASH_PATTERN, HASH_TEMPLATE),
        ];
        let r = RegexCleanerPair::prep_list(&pairs);
        proof {
            assert(pairs@.len() == 3);
            assert forall|k: int| 0 <= k < 3 implies (#[trigger] pairs@[k]).0@ == default_pairs()[k].0
                && pairs@[k].1@ == default_pairs()[k].1 by {}
            if r is Ok {
                assert(rules_view(r->Ok_0@) =~= default_pairs());
            }
        }
        r
    }

    /// The compiled pattern and the template.
    pub fn to_parts(&self) -> (r: (&Regex, &str))
        ensures
            r.1@ == self@.1,
    {
        (&self.regex, self.rep.as_str())
    }

    /// The pattern's source text.
    pub fn pattern(&self) -> (r: &str)
        ensures
            r@ == self@.0,
    {
        self.pattern.as_str()
    }

    /// The replacement template.
    pub fn template(&self) -> (r: &str)
        ensures
            r@ == self@.1,
    {
        self.rep.as_str()
    }
}

} // verus!

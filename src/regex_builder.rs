//! Turning a query into a compiled regular expression.
use vstd::prelude::*;

use vstd::string::StringExecFns;

verus! {

#[verifier::external_type_specification]
#[verifier::external_body]
pub struct ExRegex(regex::Regex);

#[verifier::external_type_specification]
#[verifier::external_body]
pub struct ExRegexError(regex::Error);

/// Whether `pattern` compiles, with case-insensitive matching or not, as
/// `regex::RegexBuilder::build` decides it.
pub uninterp spec fn regex_builds(pattern: Seq<char>, case_insensitive: bool) -> bool;

/// Whether the compiled `pattern` matches somewhere in `haystack`, as
/// `regex::Regex::is_match` decides it.
pub uninterp spec fn regex_accepts(
    pattern: Seq<char>,
    case_insensitive: bool,
    haystack: Seq<char>,
) -> bool;

/// The characters that have a meaning in a regular expression.
pub open spec fn is_meta(c: char) -> bool {
    c == '\\' || c == '.' || c == '+' || c == '*' || c == '?' || c == '(' || c == ')' || c
        == '|' || c == '[' || c == ']' || c == '{' || c == '}' || c == '^' || c == '$' || c
        == '#' || c == '&' || c == '-' || c == '~'
}

/// `s` with a backslash before every meta character, so that it matches
/// itself literally.
pub open spec fn escaped(s: Seq<char>) -> Seq<char>
    decreases s.len(),
{
    if s.len() == 0 {
        Seq::empty()
    } else if is_meta(s.last()) {
        escaped(s.drop_last()) + seq!['\\', s.last()]
    } else {
        escaped(s.drop_last()).push(s.last())
    }
}

/// The regular expression a query stands for: an exact query is escaped
/// and anchored to the whole text.
pub open spec fn query_source(query: Seq<char>, exact: bool) -> Seq<char> {
    if exact {
        seq!['^'] + escaped(query) + seq!['$']
    } else {
        query
    }
}

/// Whether a query is matched without regard to case: always, unless it is
/// exact and case-sensitive.
pub open spec fn query_ignores_case(case_sensitive: bool, exact: bool) -> bool {
    !case_sensitive || !exact
}

/// A compiled regular expression, with the text and the case rule it was
/// compiled from.
pub struct Pattern {
    source: String,
    case_insensitive: bool,
    compiled: regex::Regex,
}

impl Pattern {
    /// The text of the regular expression.
    pub closed spec fn source(&self) -> Seq<char> {
        self.source@
    }

    /// Whether matching ignores case.
    pub closed spec fn ignores_case(&self) -> bool {
        self.case_insensitive
    }

    /// Whether the pattern matches somewhere in `text`.
    pub open spec fn accepts(&self, text: Seq<char>) -> bool {
        regex_accepts(self.source(), self.ignores_case(), text)
    }

    /// Whether the pattern matches somewhere in `text`.
    pub fn is_match(&self, text: &str) -> (r: bool)
        ensures
            r == self.accepts(text@),
    {
        regex_is_match(self, text)
    }
}

/// Relies on `regex::escape`, which puts a backslash before each character
/// that `regex_syntax::is_meta_character` lists and copies the others.
#[verifier::external_body]
fn escape(text: &str) -> (r: String)
    ensures
        r@ == escaped(text@),
{
    regex::escape(text)
}

/// Relies on `regex::RegexBuilder::new(..).case_insensitive(..).build()`:
/// whether compiling succeeds depends on the pattern and the case rule alone.
#[verifier::external_body]
fn compile(pattern: &str, case_insensitive: bool) -> (r: Result<regex::Regex, regex::Error>)
    ensures
        r is Ok <==> regex_builds(pattern@, case_insensitive),
{
    regex::RegexBuilder::new(pattern).case_insensitive(case_insensitive).build()
}

/// Relies on `regex::Regex::is_match` on the expression the pattern holds,
/// which was compiled from its source and case rule.
#[verifier::external_body]
fn regex_is_match(pattern: &Pattern, text: &str) -> (r: bool)
    ensures
        r == regex_accepts(pattern.source(), pattern.ignores_case(), text@),
{
    pattern.compiled.is_match(text)
}

/// Relies on the `Display` impl of `regex::Error` for a readable message.
#[verifier::external_body]
fn describe(error: &regex::Error) -> String {
    error.to_string()
}

/// Why a query could not become a regular expression.
#[derive(Debug, Clone)]
pub struct PatternError {
    pub message: String,
}

/// Builds the regular expression for `query`. With `exact`, every meta
/// character is escaped and the expression is anchored to the whole text;
/// matching ignores case unless the query is exact and `case_sensitive`.
pub fn build_regex(query: String, case_sensitive: bool, exact: bool) -> (r: Result<
    Pattern,
    PatternError,
>)
    ensures
        r is Ok <==> regex_builds(
            query_source(query@, exact),
            query_ignores_case(case_sensitive, exact),
        ),
        r matches Ok(p) ==> p.source() == query_source(query@, exact) && p.ignores_case()
            == query_ignores_case(case_sensitive, exact),
{
    let source = if exact {
        let mut s = String::from_str("^");
        let body = escape(query.as_str());
        s.append(body.as_str());
        s.append("$");
        proof {
            reveal_strlit("^");
            reveal_strlit("$");
        }
        assert(s@ =~= query_source(query@, exact));
        s
    } else {
        query
    };
    let case_insensitive = !case_sensitive || !exact;
    match compile(source.as_str(), case_insensitive) {
        Ok(compiled) => Ok(Pattern { source, case_insensitive, compiled }),
        Err(error) => Err(PatternError { message: describe(&error) }),
    }
}

} // verus!

//! Regular expressions from the `regex` crate, as the matching code uses
//! them: escaping a literal, compiling a pattern and searching a haystack.
use vstd::prelude::*;

verus! {

#[verifier::external_type_specification]
#[verifier::external_body]
pub struct ExRegex(regex::Regex);

#[verifier::external_type_specification]
#[verifier::external_body]
pub struct ExRegexError(regex::Error);

/// Characters that `regex::escape` prefixes with a backslash
/// (`regex_syntax::is_meta_character`).
pub open spec fn regex_meta(c: char) -> bool {
    c == '\\' || c == '.' || c == '+' || c == '*' || c == '?' || c == '(' || c == ')' || c
        == '|' || c == '[' || c == ']' || c == '{' || c == '}' || c == '^' || c == '$' || c
        == '#' || c == '&' || c == '-' || c == '~'
}

/// What `regex::escape` returns: every meta character preceded by `\`.
pub open spec fn escaped(s: Seq<char>) -> Seq<char>
    decreases s.len(),
{
    if s.len() == 0 {
        seq![]
    } else {
        let c = s.last();
        escaped(s.drop_last()) + if regex_meta(c) {
            seq!['\\', c]
        } else {
            seq![c]
        }
    }
}

/// Whether `regex::Regex::new` accepts a pattern (its syntax is valid and the
/// compiled program fits the default size limits).
pub uninterp spec fn regex_compiles(pattern: Seq<char>) -> bool;

/// Whether the regular expression `pattern` matches somewhere in `haystack`
/// (`regex::Regex::is_match`).
pub uninterp spec fn regex_finds(pattern: Seq<char>, haystack: Seq<char>) -> bool;

/// A compiled regular expression together with the pattern it was compiled
/// from; only [`compile`] builds one, so the two always agree.
pub struct CompiledRegex {
    re: regex::Regex,
    source: String,
}

impl CompiledRegex {
    /// The pattern this expression was compiled from.
    pub closed spec fn source(&self) -> Seq<char> {
        self.source@
    }
}

/// Calls `regex::escape`, which (per the crate's source) emits each
/// character of its argument, preceded by `\` when it is a meta character.
#[verifier::external_body]
pub(crate) fn escape(s: &str) -> (res: String)
    ensures
        res@ == escaped(s@),
{
    regex::escape(s)
}

/// Calls `regex::Regex::new`: `Ok` exactly when the named acceptance
/// predicate holds, and the compiled value remembers its pattern.
#[verifier::external_body]
pub(crate) fn compile(pattern: &str) -> (res: Result<CompiledRegex, regex::Error>)
    ensures
        res is Ok <==> regex_compiles(pattern@),
        res matches Ok(r) ==> r.source() == pattern@,
{
    match regex::Regex::new(pattern) {
        Ok(re) => Ok(CompiledRegex { re, source: pattern.to_string() }),
        Err(e) => Err(e),
    }
}

/// Calls `regex::Regex::is_match`; the answer is the named match relation
/// between the compiled pattern and the haystack.
#[verifier::external_body]
pub(crate) fn is_match(r: &CompiledRegex, haystack: &str) -> (res: bool)
    ensures
        res == regex_finds(r.source(), haystack@),
{
    r.re.is_match(haystack)
}

} // verus!

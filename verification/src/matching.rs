//! Letter case, globs and regular expressions.
use vstd::prelude::*;
use crate::text;

verus! {

/// A string in lower case, as Unicode's mapping has it.
pub uninterp spec fn lowercase(s: Seq<char>) -> Seq<char>;

/// `str::to_lowercase`. The Unicode mapping is named and not spelled out.
#[verifier::external_body]
pub(crate) fn to_lower(s: &str) -> (r: String)
    ensures
        r@ == lowercase(s@),
{
    s.to_lowercase()
}

/// What is wrong with a glob pattern, where something is.
pub uninterp spec fn glob_error(pattern: Seq<char>) -> Option<Seq<char>>;

/// Whether a well-formed glob pattern covers a text.
pub uninterp spec fn glob_covers(pattern: Seq<char>, text: Seq<char>) -> bool;

/// Whether a glob pattern is well formed.
pub open spec fn glob_valid(pattern: Seq<char>) -> bool {
    glob_error(pattern) is None
}

/// Whether a glob pattern matches a text. A pattern that is refused matches
/// nothing.
pub open spec fn glob_matches(pattern: Seq<char>, text: Seq<char>) -> bool {
    glob_valid(pattern) && glob_covers(pattern, text)
}

/// `globset::Glob::new`, and `regex::bytes::RegexBuilder::build` on the
/// expression that `Glob::regex` gives: the message of the error, where one of
/// them refuses the pattern. Which patterns are refused is named and not
/// spelled out.
#[verifier::external_body]
pub(crate) fn glob_problem(pattern: &str) -> (r: Option<String>)
    ensures
        text::opt_view(r) == glob_error(pattern@),
{
    match globset::Glob::new(pattern) {
        Err(e) => Some(e.to_string()),
        Ok(g) => regex::bytes::RegexBuilder::new(g.regex())
            .dot_matches_new_line(true)
            .build()
            .err()
            .map(|e| e.to_string()),
    }
}

/// `regex::bytes::Regex::is_match` with the expression that `Glob::regex` gives,
/// on each of the texts. What a glob covers is named and not spelled out. The
/// pattern must be one that neither of them refuses.
#[verifier::external_body]
fn glob_test_each(pattern: &str, texts: &Vec<String>) -> (r: Vec<bool>)
    requires
        glob_valid(pattern@),
    ensures
        r@.len() == texts@.len(),
        forall|i: int|
            0 <= i < r@.len() ==> #[trigger] r@[i] == glob_covers(pattern@, texts@[i]@),
{
    let glob = globset::Glob::new(pattern).unwrap();
    let re = regex::bytes::RegexBuilder::new(glob.regex())
        .dot_matches_new_line(true)
        .build()
        .unwrap();
    texts.iter().map(|t| re.is_match(t.as_bytes())).collect()
}

/// A no for each of some texts.
fn none_of(count: usize) -> (r: Vec<bool>)
    ensures
        r@.len() == count,
        forall|i: int| 0 <= i < r@.len() ==> !(#[trigger] r@[i]),
{
    let mut r: Vec<bool> = Vec::new();
    while r.len() < count
        invariant
            r@.len() <= count,
            forall|i: int| 0 <= i < r@.len() ==> !(#[trigger] r@[i]),
        decreases count - r.len(),
    {
        r.push(false);
    }
    r
}

/// Whether a glob pattern matches each of some texts.
pub fn glob_match_each(pattern: &str, texts: &Vec<String>) -> (r: Vec<bool>)
    ensures
        r@.len() == texts@.len(),
        forall|i: int|
            0 <= i < r@.len() ==> #[trigger] r@[i] == glob_matches(pattern@, texts@[i]@),
{
    if glob_is_valid(pattern) {
        glob_test_each(pattern, texts)
    } else {
        none_of(texts.len())
    }
}

/// Whether a glob pattern is well formed.
pub fn glob_is_valid(pattern: &str) -> (r: bool)
    ensures
        r == glob_valid(pattern@),
{
    glob_problem(pattern).is_none()
}

/// Whether a glob pattern matches a text.
pub fn glob_is_match(pattern: &str, text: &str) -> (r: bool)
    ensures
        r == glob_matches(pattern@, text@),
{
    let mut one: Vec<String> = Vec::new();
    one.push(text.to_owned());
    glob_match_each(pattern, &one)[0]
}

/// What is wrong with a regular expression, where something is.
pub uninterp spec fn regex_error(pattern: Seq<char>, ignore_case: bool) -> Option<Seq<char>>;

/// Whether a well-formed regular expression is found somewhere in a text.
pub uninterp spec fn regex_finds(pattern: Seq<char>, ignore_case: bool, text: Seq<char>) -> bool;

/// Whether a regular expression matches somewhere in a text. One that is refused
/// matches nothing.
pub open spec fn regex_matches(pattern: Seq<char>, ignore_case: bool, text: Seq<char>) -> bool {
    regex_error(pattern, ignore_case) is None && regex_finds(pattern, ignore_case, text)
}

/// `regex::RegexBuilder::build`: the message of the error, where the pattern is
/// refused. Which patterns are refused is named and not spelled out.
#[verifier::external_body]
pub(crate) fn regex_problem(pattern: &str, ignore_case: bool) -> (r: Option<String>)
    ensures
        text::opt_view(r) == regex_error(pattern@, ignore_case),
{
    regex::RegexBuilder::new(pattern).case_insensitive(ignore_case).build().err().map(
        |e| e.to_string(),
    )
}

/// `regex::Regex::is_match` on each of the texts. What an expression finds is
/// named and not spelled out. It must be one that `RegexBuilder::build` does not
/// refuse.
#[verifier::external_body]
fn regex_test_each(pattern: &str, ignore_case: bool, texts: &Vec<String>) -> (r: Vec<bool>)
    requires
        regex_error(pattern@, ignore_case) is None,
    ensures
        r@.len() == texts@.len(),
        forall|i: int|
            0 <= i < r@.len() ==> #[trigger] r@[i] == regex_finds(
                pattern@,
                ignore_case,
                texts@[i]@,
            ),
{
    let re = regex::RegexBuilder::new(pattern).case_insensitive(ignore_case).build().unwrap();
    texts.iter().map(|t| re.is_match(t)).collect()
}

/// Whether a regular expression matches somewhere in each of some texts.
pub fn regex_match_each(pattern: &str, ignore_case: bool, texts: &Vec<String>) -> (r: Vec<bool>)
    ensures
        r@.len() == texts@.len(),
        forall|i: int|
            0 <= i < r@.len() ==> #[trigger] r@[i] == regex_matches(
                pattern@,
                ignore_case,
                texts@[i]@,
            ),
{
    match regex_problem(pattern, ignore_case) {
        None => regex_test_each(pattern, ignore_case, texts),
        Some(_) => none_of(texts.len()),
    }
}

/// Whether a regular expression matches somewhere in a text. One that is refused
/// matches nothing.
pub fn regex_is_match(pattern: &str, ignore_case: bool, text: &str) -> (r: bool)
    ensures
        r == regex_matches(pattern@, ignore_case, text@),
        regex_error(pattern@, ignore_case) is Some ==> !r,
{
    let mut one: Vec<String> = Vec::new();
    one.push(text.to_owned());
    regex_match_each(pattern, ignore_case, &one)[0]
}

} // verus!

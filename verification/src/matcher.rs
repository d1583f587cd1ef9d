//! The regular-expression engine, as this library sees it.
//!
//! Compiling and matching are done by the `regex` crate. What it returns is
//! not proved here: each function below states what the crate documents, and
//! the rest of the library is verified against those statements.

use vstd::prelude::*;

verus! {

#[verifier::external_type_specification]
#[verifier::external_body]
pub struct ExRegex(regex::bytes::Regex);

#[verifier::external_type_specification]
#[verifier::external_body]
pub struct ExRegexSet(regex::bytes::RegexSet);

#[verifier::external_type_specification]
#[verifier::external_body]
pub struct ExRegexError(regex::Error);

/// The pattern text that a compiled expression was made from.
pub uninterp spec fn regex_text(re: &regex::bytes::Regex) -> Seq<char>;

/// The pattern texts that a compiled set was made from, in order.
pub uninterp spec fn set_texts(set: &regex::bytes::RegexSet) -> Seq<Seq<char>>;

/// Whether the engine accepts a pattern text on its own.
pub uninterp spec fn pattern_compiles(text: Seq<char>) -> bool;

/// Whether the engine accepts a list of pattern texts as one set.
pub uninterp spec fn catalog_compiles(texts: Seq<Seq<char>>) -> bool;

/// The positions, within a list of pattern texts, of the patterns that occur
/// somewhere in a body.
pub uninterp spec fn occurring_patterns(texts: Seq<Seq<char>>, body: Seq<u8>) -> Seq<usize>;

/// For each successive occurrence of a pattern in a body, the byte span of
/// its first capture group, or `None` where the pattern has no such group
/// or the group took no part in the occurrence.
pub uninterp spec fn first_group_spans(text: Seq<char>, body: Seq<u8>) -> Seq<
    Option<(usize, usize)>,
>;

/// Strictly ascending positions.
pub open spec fn ascending(positions: Seq<usize>) -> bool {
    forall|i: int, j: int| 0 <= i < j < positions.len() ==> positions[i] < positions[j]
}

/// Every span lies inside a body of the given length.
pub open spec fn spans_within(spans: Seq<Option<(usize, usize)>>, len: nat) -> bool {
    forall|k: int|
        0 <= k < spans.len() ==> (#[trigger] spans[k] matches Some(span) ==> span.0 <= span.1
            <= len)
}

/// Calls `regex::bytes::Regex::new`. It succeeds or fails by the pattern
/// text alone, and the compiled expression keeps the text it was made from.
#[verifier::external_body]
pub(crate) fn compile(text: &str) -> (compiled: Result<regex::bytes::Regex, regex::Error>)
    ensures
        compiled.is_ok() == pattern_compiles(text@),
        compiled matches Ok(re) ==> regex_text(&re) == text@,
{
    regex::bytes::Regex::new(text)
}

/// Calls `regex::bytes::RegexSet::new`. It succeeds or fails by the pattern
/// texts alone, and the compiled set keeps the texts in the order given.
#[verifier::external_body]
pub(crate) fn compile_set(texts: &Vec<String>) -> (compiled: Result<
    regex::bytes::RegexSet,
    regex::Error,
>)
    ensures
        compiled.is_ok() == catalog_compiles(texts.deep_view()),
        compiled matches Ok(set) ==> set_texts(&set) == texts.deep_view(),
{
    regex::bytes::RegexSet::new(texts)
}

/// Calls `regex::bytes::RegexSet::is_match`: whether at least one pattern of
/// the set occurs in the body.
#[verifier::external_body]
pub(crate) fn set_is_match(set: &regex::bytes::RegexSet, body: &[u8]) -> (found: bool)
    ensures
        found == (occurring_patterns(set_texts(set), body@).len() > 0),
{
    set.is_match(body)
}

/// Calls `regex::bytes::RegexSet::matches` and collects what it yields: the
/// positions of the patterns that occur in the body, in ascending order,
/// each below the number of patterns.
#[verifier::external_body]
pub(crate) fn set_matches(set: &regex::bytes::RegexSet, body: &[u8]) -> (positions: Vec<usize>)
    ensures
        positions@ == occurring_patterns(set_texts(set), body@),
        ascending(positions@),
        forall|k: int| 0 <= k < positions.len() ==> positions[k] < set_texts(set).len(),
{
    set.matches(body).into_iter().collect()
}

/// Calls `regex::bytes::Regex::captures_iter` and, for each occurrence,
/// `Captures::get(1)`: the span of the first capture group, with its start
/// not after its end and its end inside the body.
#[verifier::external_body]
pub(crate) fn group_spans(re: &regex::bytes::Regex, body: &[u8]) -> (spans: Vec<
    Option<(usize, usize)>,
>)
    ensures
        spans@ == first_group_spans(regex_text(re), body@),
        spans_within(spans@, body@.len()),
{
    re.captures_iter(body)
        .map(|found| found.get(1).map(|group| (group.start(), group.end())))
        .collect()
}

/// Calls `std::str::from_utf8`: the text that the bytes encode, where they
/// are well-formed UTF-8, and nothing otherwise.
#[verifier::external_body]
pub(crate) fn utf8_text(data: &[u8]) -> (text: Option<&str>)
    ensures
        text.is_some() == vstd::utf8::valid_utf8(data@),
        text matches Some(t) ==> vstd::utf8::encode_utf8(t@) == data@,
{
    std::str::from_utf8(data).ok()
}

} // verus!

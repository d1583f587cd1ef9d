//! What can be asked of a body: the report modes and the masking of matches,
//! stated over the engine's answers.

use crate::algorithms::{AlgorithmMethods, AlgorithmName};
use crate::commands::Command;
use crate::matcher::{
    ascending, catalog_compiles, first_group_spans, occurring_patterns, pattern_compiles,
};
use crate::secrets::{pattern_texts, secret_names, Secret, Secrets};
use vstd::prelude::*;

verus! {

/// The byte written over a masked span.
pub const CROSSOUT_BYTE: u8 = 0x78;

/// Why a scan could not be made.
#[derive(Debug, Clone, Copy, PartialEq, Eq, Structural)]
pub enum ScanError {
    /// The engine refuses the catalog's patterns as a set.
    Catalog,
    /// The engine refuses the pattern at this catalog position.
    Pattern(usize),
    /// The catalog has no secret at this position.
    NoSuchSecret(usize),
}

/// The bytes of a span of the body.
pub open spec fn span_bytes(body: Seq<u8>, span: (usize, usize)) -> Seq<u8> {
    body.subrange(span.0 as int, span.1 as int)
}

/// Some occurrence has a first-group span whose bytes the algorithm accepts.
pub open spec fn some_span_accepted<A: AlgorithmMethods>(
    algorithm: &A,
    spans: Seq<Option<(usize, usize)>>,
    body: Seq<u8>,
) -> bool {
    exists|k: int|
        0 <= k < spans.len() && (#[trigger] spans[k] matches Some(span)
            && algorithm.accepts_bytes(span_bytes(body, span)))
}

/// A catalog position is confirmed: its pattern occurs in the body and,
/// where an algorithm is given, the algorithm accepts the first capture
/// group of at least one occurrence.
pub open spec fn confirmed<A: AlgorithmMethods>(
    algorithm: &Option<A>,
    texts: Seq<Seq<char>>,
    body: Seq<u8>,
    index: usize,
) -> bool {
    occurring_patterns(texts, body).contains(index) && match algorithm {
        None => true,
        Some(a) => some_span_accepted(a, first_group_spans(texts[index as int], body), body),
    }
}

/// Every pattern that occurs in the body, at a position below `limit`, is
/// accepted by the engine on its own.
pub open spec fn hits_compile_below(texts: Seq<Seq<char>>, body: Seq<u8>, limit: int) -> bool {
    forall|index: usize|
        #[trigger] occurring_patterns(texts, body).contains(index) && index < limit
            ==> pattern_compiles(texts[index as int])
}

/// The fault of a scan, or `None` where the scan can be made. The scan
/// cannot be made where the engine refuses the catalog as a set; where
/// `each` is set, every occurring pattern is also compiled on its own, in
/// ascending order of position, and the first one that the engine refuses
/// is the fault.
pub open spec fn scan_fault(
    texts: Seq<Seq<char>>,
    body: Seq<u8>,
    each: bool,
    fault: Option<ScanError>,
) -> bool {
    match fault {
        None => catalog_compiles(texts) && (each ==> hits_compile_below(
            texts,
            body,
            usize::MAX + 1,
        )),
        Some(ScanError::Catalog) => !catalog_compiles(texts),
        Some(ScanError::Pattern(index)) => each && catalog_compiles(texts) && index < texts.len()
            && occurring_patterns(texts, body).contains(index) && !pattern_compiles(
            texts[index as int],
        ) && hits_compile_below(texts, body, index as int),
        Some(ScanError::NoSuchSecret(_)) => false,
    }
}

/// The engine accepts every pattern of the catalog on its own, and all of
/// them as a set.
pub open spec fn catalog_ready(texts: Seq<Seq<char>>) -> bool {
    catalog_compiles(texts) && forall|i: int|
        0 <= i < texts.len() ==> pattern_compiles(#[trigger] texts[i])
}

/// The fault of a catalog that is not ready, or `None` where it is: the
/// first pattern that the engine refuses on its own or, where there is
/// none, the refusal of the set.
pub open spec fn catalog_fault(texts: Seq<Seq<char>>, fault: Option<ScanError>) -> bool {
    match fault {
        None => catalog_ready(texts),
        Some(ScanError::Pattern(index)) => index < texts.len() && !pattern_compiles(
            texts[index as int],
        ) && forall|i: int| 0 <= i < index ==> pattern_compiles(#[trigger] texts[i]),
        Some(ScanError::Catalog) => !catalog_compiles(texts) && forall|i: int|
            0 <= i < texts.len() ==> pattern_compiles(#[trigger] texts[i]),
        Some(ScanError::NoSuchSecret(_)) => false,
    }
}

/// No scan of a ready catalog ends in a fault, whatever the body.
pub proof fn lemma_ready_catalog_scans(
    texts: Seq<Seq<char>>,
    body: Seq<u8>,
    each: bool,
    fault: Option<ScanError>,
)
    requires
        catalog_ready(texts),
        scan_fault(texts, body, each, fault),
    ensures
        fault is None,
{
}

/// The fault of a result, if it is one.
pub open spec fn fault_of<T>(outcome: Result<T, ScanError>) -> Option<ScanError> {
    match outcome {
        Ok(_) => None,
        Err(fault) => Some(fault),
    }
}

/// A text is the value of a span that counts: the span's bytes are its UTF-8
/// encoding and, where an algorithm is given, the algorithm accepts it.
pub open spec fn span_yields<A: AlgorithmMethods>(
    algorithm: &Option<A>,
    body: Seq<u8>,
    span: (usize, usize),
    text: Seq<char>,
) -> bool {
    vstd::utf8::encode_utf8(text) == span_bytes(body, span) && match algorithm {
        None => true,
        Some(a) => a.accepts_text(text),
    }
}

/// Some occurrence among `spans` yields the text.
pub open spec fn spans_yield<A: AlgorithmMethods>(
    algorithm: &Option<A>,
    spans: Seq<Option<(usize, usize)>>,
    body: Seq<u8>,
    text: Seq<char>,
) -> bool {
    exists|k: int|
        0 <= k < spans.len() && (#[trigger] spans[k] matches Some(span) && span_yields(
            algorithm,
            body,
            span,
            text,
        ))
}

/// A text is captured: it is the value of the first capture group of some
/// occurrence of some pattern of the catalog, and passes the algorithm.
pub open spec fn captured<A: AlgorithmMethods>(
    algorithm: &Option<A>,
    texts: Seq<Seq<char>>,
    body: Seq<u8>,
    text: Seq<char>,
) -> bool {
    exists|index: usize|
        #[trigger] occurring_patterns(texts, body).contains(index) && spans_yield(
            algorithm,
            first_group_spans(texts[index as int], body),
            body,
            text,
        )
}

/// A text is one of `labels` at a confirmed catalog position.
pub open spec fn labelled<A: AlgorithmMethods>(
    algorithm: &Option<A>,
    texts: Seq<Seq<char>>,
    labels: Seq<Seq<char>>,
    body: Seq<u8>,
    text: Seq<char>,
) -> bool {
    exists|index: usize|
        #[trigger] confirmed(algorithm, texts, body, index) && index < labels.len()
            && labels[index as int] == text
}

/// Some span covers the position.
pub open spec fn covered(spans: Seq<Option<(usize, usize)>>, at: int) -> bool {
    exists|k: int|
        0 <= k < spans.len() && (#[trigger] spans[k] matches Some(span) && span.0 <= at < span.1)
}

/// The body with every covered byte replaced by the crossout byte.
pub open spec fn masked(body: Seq<u8>, spans: Seq<Option<(usize, usize)>>) -> Seq<u8> {
    Seq::new(
        body.len(),
        |at: int|
            if covered(spans, at) {
                CROSSOUT_BYTE
            } else {
                body[at]
            },
    )
}

/// The body after masking, for each listed catalog position in turn, the
/// first capture group of every occurrence of that position's pattern in
/// the body as the earlier positions left it.
pub open spec fn redacted(body: Seq<u8>, texts: Seq<Seq<char>>, indexes: Seq<usize>) -> Seq<u8>
    decreases indexes.len(),
{
    if indexes.len() == 0 {
        body
    } else {
        let before = redacted(body, texts, indexes.drop_last());
        masked(before, first_group_spans(texts[indexes.last() as int], before))
    }
}

/// Some listed position's pattern, run on the body as the positions before
/// it left it, has an occurrence whose first capture group covers `at`.
pub open spec fn touched(body: Seq<u8>, texts: Seq<Seq<char>>, indexes: Seq<usize>, at: int) -> bool {
    exists|k: int|
        0 <= k < indexes.len() && #[trigger] covered(
            first_group_spans(
                texts[indexes[k] as int],
                redacted(body, texts, indexes.take(k)),
            ),
            at,
        )
}

/// Masking keeps the length of the body, whatever positions are listed.
pub proof fn lemma_redacted_keeps_length(body: Seq<u8>, texts: Seq<Seq<char>>, indexes: Seq<usize>)
    ensures
        redacted(body, texts, indexes).len() == body.len(),
    decreases indexes.len(),
{
    if indexes.len() > 0 {
        lemma_redacted_keeps_length(body, texts, indexes.drop_last());
    }
}

/// Masking the same position twice leaves a body as long as masking it
/// once does.
pub proof fn lemma_redacting_twice_keeps_length(body: Seq<u8>, texts: Seq<Seq<char>>, index: usize)
    ensures
        redacted(body, texts, seq![index, index]).len() == redacted(
            body,
            texts,
            seq![index],
        ).len(),
{
    lemma_redacted_keeps_length(body, texts, seq![index, index]);
    lemma_redacted_keeps_length(body, texts, seq![index]);
}

/// After masking, a byte that some captured span covered is the crossout
/// byte, and every other byte is what it was.
pub proof fn lemma_redacted_bytes(
    body: Seq<u8>,
    texts: Seq<Seq<char>>,
    indexes: Seq<usize>,
    at: int,
)
    requires
        0 <= at < body.len(),
    ensures
        redacted(body, texts, indexes)[at] == (if touched(body, texts, indexes, at) {
            CROSSOUT_BYTE
        } else {
            body[at]
        }),
    decreases indexes.len(),
{
    if indexes.len() > 0 {
        let earlier = indexes.drop_last();
        let before = redacted(body, texts, earlier);
        let last = indexes.len() - 1;
        lemma_redacted_bytes(body, texts, earlier, at);
        lemma_redacted_keeps_length(body, texts, earlier);
        assert(indexes.take(last) =~= earlier);
        assert forall|k: int| 0 <= k < last implies indexes.take(k) == earlier.take(k) by {
            assert(indexes.take(k) =~= earlier.take(k));
        }
        let spans = first_group_spans(texts[indexes.last() as int], before);
        if touched(body, texts, earlier, at) {
            let k = choose|k: int|
                0 <= k < earlier.len() && #[trigger] covered(
                    first_group_spans(
                        texts[earlier[k] as int],
                        redacted(body, texts, earlier.take(k)),
                    ),
                    at,
                );
            assert(covered(
                first_group_spans(
                    texts[indexes[k] as int],
                    redacted(body, texts, indexes.take(k)),
                ),
                at,
            ));
        }
        if covered(spans, at) {
            assert(covered(
                first_group_spans(
                    texts[indexes[last] as int],
                    redacted(body, texts, indexes.take(last)),
                ),
                at,
            ));
        }
        if touched(body, texts, indexes, at) {
            let k = choose|k: int|
                0 <= k < indexes.len() && #[trigger] covered(
                    first_group_spans(
                        texts[indexes[k] as int],
                        redacted(body, texts, indexes.take(k)),
                    ),
                    at,
                );
            if k < last {
                assert(covered(
                    first_group_spans(
                        texts[earlier[k] as int],
                        redacted(body, texts, earlier.take(k)),
                    ),
                    at,
                ));
            }
        }
    }
}

/// With no algorithm, the confirmed positions lie inside the catalog, and
/// there is none exactly where no pattern of the catalog occurs in the
/// body.
pub proof fn lemma_positions_without_algorithm(
    texts: Seq<Seq<char>>,
    body: Seq<u8>,
    indexes: Seq<usize>,
)
    requires
        lists_confirmed(&None::<AlgorithmName>, texts, body, indexes),
    ensures
        forall|j: int| 0 <= j < indexes.len() ==> 0 <= #[trigger] indexes[j] < texts.len(),
        indexes.len() == 0 <==> occurring_patterns(texts, body).len() == 0,
{
    let hits = occurring_patterns(texts, body);
    let none = &None::<AlgorithmName>;
    if indexes.len() > 0 {
        assert(indexes.contains(indexes[0]));
        assert(confirmed(none, texts, body, indexes[0]));
    }
    if hits.len() > 0 {
        assert(hits.contains(hits[0]));
        assert(confirmed(none, texts, body, hits[0]));
        assert(indexes.contains(hits[0]));
    }
}

/// A listed position can be masked: it is in the catalog and the engine
/// accepts its pattern.
pub open spec fn redactable(texts: Seq<Seq<char>>, index: usize) -> bool {
    index < texts.len() && pattern_compiles(texts[index as int])
}

/// The error for a listed position that cannot be masked.
pub open spec fn redaction_fault(texts: Seq<Seq<char>>, index: usize) -> ScanError {
    if index < texts.len() {
        ScanError::Pattern(index)
    } else {
        ScanError::NoSuchSecret(index)
    }
}

/// What a list of confirmed positions must be: strictly ascending, inside
/// the catalog, and holding exactly the confirmed positions.
pub open spec fn lists_confirmed<A: AlgorithmMethods>(
    algorithm: &Option<A>,
    texts: Seq<Seq<char>>,
    body: Seq<u8>,
    indexes: Seq<usize>,
) -> bool {
    &&& ascending(indexes)
    &&& forall|j: int| 0 <= j < indexes.len() ==> (#[trigger] indexes[j]) < texts.len()
    &&& forall|index: usize|
        #![trigger indexes.contains(index)]
        #![trigger confirmed(algorithm, texts, body, index)]
        indexes.contains(index) <==> confirmed(algorithm, texts, body, index)
}

/// What a list of captured values must be: without repeats, and holding
/// exactly the captured texts.
pub open spec fn lists_captured<A: AlgorithmMethods>(
    algorithm: &Option<A>,
    texts: Seq<Seq<char>>,
    body: Seq<u8>,
    values: Seq<Seq<char>>,
) -> bool {
    values.no_duplicates() && forall|text: Seq<char>|
        #![trigger values.contains(text)]
        #![trigger captured(algorithm, texts, body, text)]
        values.contains(text) <==> captured(algorithm, texts, body, text)
}

/// The names of a catalog, or its pattern texts.
pub open spec fn catalog_labels(secrets: Seq<Secret>, names: bool) -> Seq<Seq<char>> {
    if names {
        secret_names(secrets)
    } else {
        pattern_texts(secrets)
    }
}

/// What a list of names or pattern texts must be: without repeats, and
/// holding exactly the labels at the confirmed positions.
pub open spec fn lists_labelled<A: AlgorithmMethods>(
    algorithm: &Option<A>,
    secrets: Seq<Secret>,
    names: bool,
    body: Seq<u8>,
    labels: Seq<Seq<char>>,
) -> bool {
    labels.no_duplicates() && forall|text: Seq<char>|
        #![trigger labels.contains(text)]
        #![trigger labelled(algorithm, pattern_texts(secrets), catalog_labels(secrets, names), body, text)]
        labels.contains(text) <==> labelled(
            algorithm,
            pattern_texts(secrets),
            catalog_labels(secrets, names),
            body,
            text,
        )
}

/// The listed position at `k` is the first that cannot be masked.
pub open spec fn first_unredactable(texts: Seq<Seq<char>>, indexes: Seq<usize>, k: int) -> bool {
    &&& 0 <= k < indexes.len()
    &&& !redactable(texts, indexes[k])
    &&& forall|j: int| 0 <= j < k ==> redactable(texts, #[trigger] indexes[j])
}

/// A body that can be scanned and masked.
pub trait SearchMethods {
    /// The bytes of the body.
    spec fn content(&self) -> Seq<u8>;

    /// Does nothing, and says so.
    fn bypass(&self) -> (done: bool)
        ensures
            done,
    ;

    /// Whether any pattern of the command's catalog occurs in the body. No
    /// capture is looked at and no algorithm is asked.
    fn find_any_match(&self, command: &Command) -> (found: Result<bool, ScanError>)
        ensures
            scan_fault(pattern_texts(command.secrets@), self.content(), false, fault_of(found)),
            found matches Ok(any) ==> any == (occurring_patterns(
                pattern_texts(command.secrets@),
                self.content(),
            ).len() > 0),
    ;

    /// The names of the confirmed secrets, each once.
    fn find_names<A: AlgorithmMethods>(&self, command: &Command, algorithm: &Option<A>) -> (found:
        Result<Vec<String>, ScanError>)
        ensures
            scan_fault(
                pattern_texts(command.secrets@),
                self.content(),
                algorithm.is_some(),
                fault_of(found),
            ),
            found matches Ok(names) ==> lists_labelled(
                algorithm,
                command.secrets@,
                true,
                self.content(),
                names.deep_view(),
            ),
    ;

    /// The pattern texts of the confirmed secrets, each once.
    fn find_regexes<A: AlgorithmMethods>(&self, command: &Command, algorithm: &Option<A>) -> (found:
        Result<Vec<String>, ScanError>)
        ensures
            scan_fault(
                pattern_texts(command.secrets@),
                self.content(),
                algorithm.is_some(),
                fault_of(found),
            ),
            found matches Ok(regexes) ==> lists_labelled(
                algorithm,
                command.secrets@,
                false,
                self.content(),
                regexes.deep_view(),
            ),
    ;

    /// The captured values, each once. These are the sensitive data
    /// themselves: they are not to be logged.
    fn find_captures<A: AlgorithmMethods>(&self, command: &Command, algorithm: &Option<A>) -> (found:
        Result<Vec<String>, ScanError>)
        ensures
            scan_fault(pattern_texts(command.secrets@), self.content(), true, fault_of(found)),
            found matches Ok(values) ==> lists_captured(
                algorithm,
                pattern_texts(command.secrets@),
                self.content(),
                values.deep_view(),
            ),
    ;

    /// The confirmed catalog positions, in ascending order.
    fn find_indexes<A: AlgorithmMethods>(&self, command: &Command, algorithm: &Option<A>) -> (found:
        Result<Vec<usize>, ScanError>)
        ensures
            scan_fault(
                pattern_texts(command.secrets@),
                self.content(),
                algorithm.is_some(),
                fault_of(found),
            ),
            found matches Ok(indexes) ==> lists_confirmed(
                algorithm,
                pattern_texts(command.secrets@),
                self.content(),
                indexes@,
            ),
    ;

    /// Masks the first capture group of every occurrence of the patterns at
    /// the listed catalog positions. On a fault the body is left as it was.
    fn replace_matches(&mut self, secrets: &Secrets, indexes: &[usize]) -> (done: Result<
        (),
        ScanError,
    >)
        ensures
            final(self).content().len() == old(self).content().len(),
            done is Ok ==> (forall|j: int|
                0 <= j < indexes@.len() ==> redactable(
                    pattern_texts(secrets@),
                    #[trigger] indexes@[j],
                )) && final(self).content() == redacted(
                old(self).content(),
                pattern_texts(secrets@),
                indexes@,
            ),
            done matches Err(fault) ==> final(self).content() == old(self).content() && exists|
                k: int,
            |
                #[trigger] first_unredactable(pattern_texts(secrets@), indexes@, k) && fault
                    == redaction_fault(pattern_texts(secrets@), indexes@[k]),
    ;
}

} // verus!

//! Response bodies, and the scans and the masking that run on them.

use crate::algorithms::AlgorithmMethods;
use crate::commands::Command;
use crate::matcher::{
    ascending, catalog_compiles, compile, compile_set, first_group_spans, group_spans,
    occurring_patterns, pattern_compiles, regex_text, set_is_match, set_matches, spans_within,
    utf8_text,
};
use crate::search::{
    captured, catalog_fault, catalog_labels, confirmed, covered, fault_of, first_unredactable,
    hits_compile_below, labelled, lemma_redacted_keeps_length, lists_captured, lists_confirmed,
    lists_labelled, masked, redactable, redacted, redaction_fault, scan_fault,
    some_span_accepted, span_bytes, span_yields, spans_yield, ScanError, SearchMethods,
    CROSSOUT_BYTE,
};
use crate::secrets::{pattern_texts, Secrets};
use vstd::prelude::*;
use vstd::slice::slice_subrange;

verus! {

/// A body as raw bytes.
#[derive(Debug)]
pub struct BodyBytes(pub Vec<u8>);

/// A body as text.
#[derive(Debug)]
pub struct BodyString(pub String);

impl View for BodyBytes {
    type V = Seq<u8>;

    open spec fn view(&self) -> Seq<u8> {
        self.0@
    }
}

impl View for BodyString {
    type V = Seq<char>;

    open spec fn view(&self) -> Seq<char> {
        self.0@
    }
}

/// The pattern texts of a catalog, as owned strings.
pub fn pattern_strings(secrets: &Secrets) -> (texts: Vec<String>)
    ensures
        texts.deep_view() == pattern_texts(secrets@),
{
    let mut texts: Vec<String> = Vec::new();
    let mut i: usize = 0;
    while i < secrets.len()
        invariant
            i <= secrets.len(),
            texts.len() == i,
            forall|j: int| 0 <= j < i ==> (#[trigger] texts@[j])@ == secrets@[j].regex@,
        decreases secrets.len() - i,
    {
        texts.push(secrets[i].regex.to_owned());
        i += 1;
    }
    assert(texts.deep_view() =~= pattern_texts(secrets@));
    texts
}

/// Checks a catalog before it is used: every pattern has to compile on its
/// own, and all of them as a set. A catalog that passes never makes a scan
/// fail.
pub fn check_catalog(secrets: &Secrets) -> (checked: Result<(), ScanError>)
    ensures
        catalog_fault(pattern_texts(secrets@), fault_of(checked)),
{
    let ghost texts = pattern_texts(secrets@);
    let mut i: usize = 0;
    while i < secrets.len()
        invariant
            i <= secrets.len(),
            texts == pattern_texts(secrets@),
            forall|j: int| 0 <= j < i ==> pattern_compiles(#[trigger] texts[j]),
        decreases secrets.len() - i,
    {
        if compile(secrets[i].regex).is_err() {
            return Err(ScanError::Pattern(i));
        }
        i += 1;
    }
    let owned = pattern_strings(secrets);
    if compile_set(&owned).is_err() {
        return Err(ScanError::Catalog);
    }
    Ok(())
}

/// The catalog positions whose patterns occur in the body, in ascending
/// order, or the fault where the engine refuses the catalog.
pub fn occurring(body: &[u8], secrets: &Secrets) -> (hits: Result<Vec<usize>, ScanError>)
    ensures
        hits matches Ok(found) ==> catalog_compiles(pattern_texts(secrets@)) && found@
            == occurring_patterns(pattern_texts(secrets@), body@) && ascending(found@) && (forall|
            k: int,
        | 0 <= k < found.len() ==> found[k] < secrets.len()),
        hits matches Err(fault) ==> fault == ScanError::Catalog && !catalog_compiles(
            pattern_texts(secrets@),
        ),
{
    let texts = pattern_strings(secrets);
    match compile_set(&texts) {
        Ok(set) => Ok(set_matches(&set, body)),
        Err(_) => Err(ScanError::Catalog),
    }
}

/// Whether the algorithm accepts the bytes of at least one of the spans.
pub fn any_span_accepted<A: AlgorithmMethods>(
    algorithm: &A,
    spans: &Vec<Option<(usize, usize)>>,
    body: &[u8],
) -> (any: bool)
    requires
        spans_within(spans@, body@.len()),
    ensures
        any == some_span_accepted(algorithm, spans@, body@),
{
    let mut k: usize = 0;
    while k < spans.len()
        invariant
            k <= spans.len(),
            spans_within(spans@, body@.len()),
            forall|j: int|
                0 <= j < k ==> !(#[trigger] spans@[j] matches Some(span)
                    && algorithm.accepts_bytes(span_bytes(body@, span))),
        decreases spans.len() - k,
    {
        match spans[k] {
            Some(span) => {
                if algorithm.validate_bytes(slice_subrange(body, span.0, span.1)) {
                    return true;
                }
            },
            None => {},
        }
        k += 1;
    }
    false
}

/// The first position not yet looked at, when `k` occurring positions have
/// been: the position at `k`, or a number above every position.
spec fn frontier(hits: Seq<usize>, k: int) -> int {
    if 0 <= k < hits.len() {
        hits[k] as int
    } else {
        usize::MAX + 1
    }
}

/// The confirmed catalog positions, in ascending order: the positions whose
/// pattern occurs in the body and, where an algorithm is given, has an
/// occurrence whose first capture group the algorithm accepts.
pub fn confirmed_indexes<A: AlgorithmMethods>(
    body: &[u8],
    secrets: &Secrets,
    algorithm: &Option<A>,
) -> (found: Result<Vec<usize>, ScanError>)
    ensures
        scan_fault(pattern_texts(secrets@), body@, algorithm.is_some(), fault_of(found)),
        found matches Ok(indexes) ==> lists_confirmed(
            algorithm,
            pattern_texts(secrets@),
            body@,
            indexes@,
        ),
{
    let ghost texts = pattern_texts(secrets@);
    let hits = match occurring(body, secrets) {
        Ok(hits) => hits,
        Err(fault) => {
            return Err(fault);
        },
    };
    let algo = match algorithm {
        Some(algo) => algo,
        None => {
            return Ok(hits);
        },
    };
    let mut found: Vec<usize> = Vec::new();
    let mut k: usize = 0;
    while k < hits.len()
        invariant
            k <= hits.len(),
            texts == pattern_texts(secrets@),
            *algorithm == Some(*algo),
            catalog_compiles(texts),
            hits@ == occurring_patterns(texts, body@),
            ascending(hits@),
            forall|j: int| 0 <= j < hits.len() ==> hits[j] < secrets.len(),
            hits_compile_below(texts, body@, frontier(hits@, k as int)),
            ascending(found@),
            forall|j: int| 0 <= j < found.len() ==> (#[trigger] found@[j]) < frontier(hits@, k as int),
            forall|j: int| 0 <= j < found.len() ==> (#[trigger] found@[j]) < secrets.len(),
            forall|index: usize|
                found@.contains(index) <==> (#[trigger] confirmed(algorithm, texts, body@, index)
                    && index < frontier(hits@, k as int)),
        decreases hits.len() - k,
    {
        let index: usize = hits[k];
        let ghost before = found@;
        let re = match compile(secrets[index].regex) {
            Ok(re) => re,
            Err(_) => {
                assert(hits@.contains(index));
                return Err(ScanError::Pattern(index));
            },
        };
        let spans = group_spans(&re, body);
        let accepted: bool = any_span_accepted(algo, &spans, body);
        if accepted {
            found.push(index);
        }
        proof {
            assert(hits@.contains(index));
            assert(accepted == confirmed(algorithm, texts, body@, index));
            let next = frontier(hits@, k + 1);
            assert(index < next);
            assert forall|other: usize| #[trigger]
                hits@.contains(other) && other < next implies other <= index by {
                let at = choose|at: int| 0 <= at < hits.len() && hits@[at] == other;
                if at > k {
                    assert(hits@[k + 1] <= hits@[at]) by {
                        if at > k + 1 {
                            assert(hits@[k + 1] < hits@[at]);
                        }
                    }
                }
                if at < k {
                    assert(hits@[at] < hits@[k as int]);
                }
            }
            assert forall|other: usize|
                found@.contains(other) <==> (#[trigger] confirmed(algorithm, texts, body@, other)
                    && other < next) by {
                if accepted {
                    assert(found@ == before.push(index));
                    assert(found@[before.len() as int] == index);
                    if found@.contains(other) {
                        let at = choose|at: int| 0 <= at < found@.len() && found@[at] == other;
                        if at < before.len() {
                            assert(before[at] == other);
                            assert(before.contains(other));
                        }
                    }
                    if before.contains(other) {
                        let at = choose|at: int| 0 <= at < before.len() && before[at] == other;
                        assert(found@[at] == other);
                    }
                }
                if confirmed(algorithm, texts, body@, other) && other < next {
                    assert(hits@.contains(other));
                }
            }
        }
        k += 1;
    }
    Ok(found)
}

/// Whether the list holds the text.
pub fn holds_text(list: &Vec<String>, text: &String) -> (held: bool)
    ensures
        held == list.deep_view().contains(text@),
{
    let mut j: usize = 0;
    while j < list.len()
        invariant
            j <= list.len(),
            forall|i: int| 0 <= i < j ==> (#[trigger] list@[i])@ != text@,
        decreases list.len() - j,
    {
        if list[j] == *text {
            assert(list.deep_view()[j as int] == text@);
            return true;
        }
        j += 1;
    }
    assert forall|i: int| 0 <= i < list.deep_view().len() implies list.deep_view()[i]
        != text@ by {
        assert(list.deep_view()[i] == list@[i]@);
    }
    false
}

/// Adds the text to the list unless the list holds it already.
pub fn push_unique(list: &mut Vec<String>, text: String)
    requires
        old(list).deep_view().no_duplicates(),
    ensures
        final(list).deep_view().no_duplicates(),
        forall|other: Seq<char>|
            #[trigger] final(list).deep_view().contains(other) <==> (old(
                list,
            ).deep_view().contains(other) || other == text@),
{
    let ghost before = list.deep_view();
    if !holds_text(list, &text) {
        let ghost added = text@;
        list.push(text);
        proof {
            assert(list.deep_view() =~= before.push(added));
            assert forall|other: Seq<char>|
                list.deep_view().contains(other) <==> (before.contains(other) || other
                    == added) by {
                if list.deep_view().contains(other) {
                    let at = choose|at: int|
                        0 <= at < list.deep_view().len() && list.deep_view()[at] == other;
                    if at < before.len() {
                        assert(before[at] == other);
                    }
                }
                if before.contains(other) {
                    let at = choose|at: int| 0 <= at < before.len() && before[at] == other;
                    assert(list.deep_view()[at] == other);
                }
                if other == added {
                    assert(list.deep_view()[before.len() as int] == other);
                }
            }
        }
    }
}

/// The text that a span of the body holds, where the algorithm lets it
/// count: the span's bytes decoded as UTF-8 and, where an algorithm is
/// given, accepted by it. A span that is not well-formed UTF-8 holds none.
pub fn span_text<A: AlgorithmMethods>(algorithm: &Option<A>, body: &[u8], span: (usize, usize)) -> (text:
    Option<String>)
    requires
        span.0 <= span.1 <= body@.len(),
    ensures
        forall|other: Seq<char>|
            span_yields(algorithm, body@, span, other) <==> (text matches Some(t) && t@ == other),
{
    let bytes = slice_subrange(body, span.0, span.1);
    match utf8_text(bytes) {
        Some(decoded) => {
            let accepted: bool = match algorithm {
                Some(algo) => algo.validate_string(decoded),
                None => true,
            };
            proof {
                assert forall|other: Seq<char>|
                    vstd::utf8::encode_utf8(other) == bytes@ implies other == decoded@ by {
                    vstd::utf8::encode_utf8_decode_utf8(other);
                    vstd::utf8::encode_utf8_decode_utf8(decoded@);
                }
            }
            if accepted {
                Some(decoded.to_owned())
            } else {
                None
            }
        },
        None => {
            proof {
                assert forall|other: Seq<char>| vstd::utf8::encode_utf8(other) != bytes@ by {
                    vstd::utf8::encode_utf8_valid_utf8(other);
                }
            }
            None
        },
    }
}

/// Adds to the list the texts that the spans yield, each once.
pub fn collect_span_texts<A: AlgorithmMethods>(
    algorithm: &Option<A>,
    spans: &Vec<Option<(usize, usize)>>,
    body: &[u8],
    list: &mut Vec<String>,
)
    requires
        spans_within(spans@, body@.len()),
        old(list).deep_view().no_duplicates(),
    ensures
        final(list).deep_view().no_duplicates(),
        forall|text: Seq<char>|
            #[trigger] final(list).deep_view().contains(text) <==> (old(list).deep_view().contains(text)
                || spans_yield(algorithm, spans@, body@, text)),
{
    let ghost before = list.deep_view();
    let mut m: usize = 0;
    while m < spans.len()
        invariant
            m <= spans.len(),
            spans_within(spans@, body@.len()),
            list.deep_view().no_duplicates(),
            forall|text: Seq<char>|
                #[trigger] list.deep_view().contains(text) <==> (before.contains(text) || spans_yield(
                    algorithm,
                    spans@.take(m as int),
                    body@,
                    text,
                )),
        decreases spans.len() - m,
    {
        let ghost earlier = list.deep_view();
        let ghost added: Option<Seq<char>> = None;
        match spans[m] {
            Some(span) => {
                match span_text(algorithm, body, span) {
                    Some(text) => {
                        proof {
                            added = Some(text@);
                        }
                        push_unique(list, text);
                    },
                    None => {},
                }
            },
            None => {},
        }
        proof {
            let done = spans@.take(m as int);
            let next = spans@.take((m + 1) as int);
            assert(next.drop_last() =~= done);
            assert(next.last() == spans@[m as int]);
            assert forall|text: Seq<char>|
                spans_yield(algorithm, next, body@, text) <==> (spans_yield(
                    algorithm,
                    done,
                    body@,
                    text,
                ) || added == Some(text)) by {
                if spans_yield(algorithm, next, body@, text) {
                    let k = choose|k: int|
                        0 <= k < next.len() && (#[trigger] next[k] matches Some(span)
                            && span_yields(algorithm, body@, span, text));
                    if k < m {
                        assert(done[k] == next[k]);
                    }
                }
                if spans_yield(algorithm, done, body@, text) {
                    let k = choose|k: int|
                        0 <= k < done.len() && (#[trigger] done[k] matches Some(span)
                            && span_yields(algorithm, body@, span, text));
                    assert(next[k] == done[k]);
                }
                if added == Some(text) {
                    assert(next[m as int] == spans@[m as int]);
                }
            }
            assert forall|text: Seq<char>|
                #[trigger] list.deep_view().contains(text) <==> (before.contains(text) || spans_yield(
                    algorithm,
                    next,
                    body@,
                    text,
                )) by {
                assert(list.deep_view().contains(text) <==> (earlier.contains(text) || added
                    == Some(text)));
                assert(earlier.contains(text) <==> (before.contains(text) || spans_yield(
                    algorithm,
                    done,
                    body@,
                    text,
                )));
            }
        }
        m += 1;
    }
    assert(spans@.take(spans.len() as int) =~= spans@);
}

/// Some pattern that occurs in the body, at a catalog position below
/// `limit`, has an occurrence that yields the text.
spec fn captured_below<A: AlgorithmMethods>(
    algorithm: &Option<A>,
    texts: Seq<Seq<char>>,
    body: Seq<u8>,
    limit: int,
    text: Seq<char>,
) -> bool {
    exists|index: usize|
        #[trigger] occurring_patterns(texts, body).contains(index) && index < limit
            && spans_yield(algorithm, first_group_spans(texts[index as int], body), body, text)
}

/// The captured values, each once: the first capture group of every
/// occurrence of every pattern of the catalog, decoded as text, where the
/// algorithm, if one is given, accepts it. These are the sensitive data
/// themselves.
pub fn captured_values<A: AlgorithmMethods>(
    body: &[u8],
    secrets: &Secrets,
    algorithm: &Option<A>,
) -> (found: Result<Vec<String>, ScanError>)
    ensures
        scan_fault(pattern_texts(secrets@), body@, true, fault_of(found)),
        found matches Ok(values) ==> lists_captured(
            algorithm,
            pattern_texts(secrets@),
            body@,
            values.deep_view(),
        ),
{
    let ghost texts = pattern_texts(secrets@);
    let hits = match occurring(body, secrets) {
        Ok(hits) => hits,
        Err(fault) => {
            return Err(fault);
        },
    };
    let mut found: Vec<String> = Vec::new();
    assert(found.deep_view() =~= Seq::<Seq<char>>::empty());
    let mut k: usize = 0;
    while k < hits.len()
        invariant
            k <= hits.len(),
            texts == pattern_texts(secrets@),
            catalog_compiles(texts),
            hits@ == occurring_patterns(texts, body@),
            ascending(hits@),
            forall|j: int| 0 <= j < hits.len() ==> hits[j] < secrets.len(),
            hits_compile_below(texts, body@, frontier(hits@, k as int)),
            found.deep_view().no_duplicates(),
            forall|text: Seq<char>|
                #[trigger] found.deep_view().contains(text) <==> captured_below(
                    algorithm,
                    texts,
                    body@,
                    frontier(hits@, k as int),
                    text,
                ),
        decreases hits.len() - k,
    {
        let index: usize = hits[k];
        let ghost before = found.deep_view();
        assert(hits@.contains(index));
        let re = match compile(secrets[index].regex) {
            Ok(re) => re,
            Err(_) => {
                return Err(ScanError::Pattern(index));
            },
        };
        let spans = group_spans(&re, body);
        collect_span_texts(algorithm, &spans, body, &mut found);
        proof {
            let here = frontier(hits@, k as int);
            let next = frontier(hits@, k + 1);
            assert(index == here);
            assert(index < next);
            assert forall|other: usize| #[trigger]
                hits@.contains(other) && other < next implies other <= index by {
                let at = choose|at: int| 0 <= at < hits.len() && hits@[at] == other;
                if at > k {
                    assert(hits@[k + 1] <= hits@[at]) by {
                        if at > k + 1 {
                            assert(hits@[k + 1] < hits@[at]);
                        }
                    }
                }
                if at < k {
                    assert(hits@[at] < hits@[k as int]);
                }
            }
            assert forall|text: Seq<char>|
                captured_below(algorithm, texts, body@, next, text) <==> (captured_below(
                    algorithm,
                    texts,
                    body@,
                    here,
                    text,
                ) || spans_yield(algorithm, spans@, body@, text)) by {
                if captured_below(algorithm, texts, body@, next, text) {
                    let other = choose|other: usize|
                        #[trigger] hits@.contains(other) && other < next && spans_yield(
                            algorithm,
                            first_group_spans(texts[other as int], body@),
                            body@,
                            text,
                        );
                    assert(other <= index);
                }
                if captured_below(algorithm, texts, body@, here, text) {
                    let other = choose|other: usize|
                        #[trigger] hits@.contains(other) && other < here && spans_yield(
                            algorithm,
                            first_group_spans(texts[other as int], body@),
                            body@,
                            text,
                        );
                    assert(hits@.contains(other) && other < next);
                }
                if spans_yield(algorithm, spans@, body@, text) {
                    assert(hits@.contains(index) && index < next);
                }
            }
            assert forall|text: Seq<char>|
                #[trigger] found.deep_view().contains(text) <==> captured_below(
                    algorithm,
                    texts,
                    body@,
                    next,
                    text,
                ) by {
                assert(found.deep_view().contains(text) <==> (before.contains(text)
                    || spans_yield(algorithm, spans@, body@, text)));
            }
        }
        k += 1;
    }
    proof {
        assert forall|text: Seq<char>|
            #[trigger] found.deep_view().contains(text) <==> captured(
                algorithm,
                texts,
                body@,
                text,
            ) by {
            if captured(algorithm, texts, body@, text) {
                let other = choose|other: usize|
                    #[trigger] hits@.contains(other) && spans_yield(
                        algorithm,
                        first_group_spans(texts[other as int], body@),
                        body@,
                        text,
                    );
                assert(hits@.contains(other) && other < usize::MAX + 1);
            }
        }
    }
    Ok(found)
}

/// A text is the label at one of the first `count` listed positions.
pub open spec fn labels_some(
    labels: Seq<Seq<char>>,
    indexes: Seq<usize>,
    count: int,
    text: Seq<char>,
) -> bool {
    exists|j: int| 0 <= j < count && labels[#[trigger] indexes[j] as int] == text
}

/// The names, or the pattern texts, of the secrets at the listed catalog
/// positions, each once.
pub fn labels_at(secrets: &Secrets, indexes: &Vec<usize>, names: bool) -> (labels: Vec<String>)
    requires
        forall|j: int| 0 <= j < indexes.len() ==> indexes[j] < secrets.len(),
    ensures
        labels.deep_view().no_duplicates(),
        forall|text: Seq<char>|
            #[trigger] labels.deep_view().contains(text) <==> labels_some(
                catalog_labels(secrets@, names),
                indexes@,
                indexes.len() as int,
                text,
            ),
{
    let ghost all = catalog_labels(secrets@, names);
    let mut labels: Vec<String> = Vec::new();
    assert(labels.deep_view() =~= Seq::<Seq<char>>::empty());
    let mut k: usize = 0;
    while k < indexes.len()
        invariant
            k <= indexes.len(),
            all == catalog_labels(secrets@, names),
            forall|j: int| 0 <= j < indexes.len() ==> indexes[j] < secrets.len(),
            labels.deep_view().no_duplicates(),
            forall|text: Seq<char>|
                #[trigger] labels.deep_view().contains(text) <==> labels_some(
                    all,
                    indexes@,
                    k as int,
                    text,
                ),
        decreases indexes.len() - k,
    {
        let ghost before = labels.deep_view();
        let secret = &secrets[indexes[k]];
        let label: String = if names {
            secret.name.to_owned()
        } else {
            secret.regex.to_owned()
        };
        let ghost added = label@;
        assert(added == all[indexes@[k as int] as int]);
        push_unique(&mut labels, label);
        proof {
            assert forall|text: Seq<char>|
                #[trigger] labels.deep_view().contains(text) <==> labels_some(
                    all,
                    indexes@,
                    k + 1,
                    text,
                ) by {
                assert(labels.deep_view().contains(text) <==> (before.contains(text) || text
                    == added));
                if labels_some(all, indexes@, k + 1, text) {
                    let j = choose|j: int|
                        0 <= j < k + 1 && all[#[trigger] indexes@[j] as int] == text;
                    if j < k {
                        assert(labels_some(all, indexes@, k as int, text));
                    }
                }
                if labels_some(all, indexes@, k as int, text) {
                    let j = choose|j: int| 0 <= j < k && all[#[trigger] indexes@[j] as int] == text;
                    assert(0 <= j < k + 1);
                }
            }
        }
        k += 1;
    }
    labels
}

/// The names, or the pattern texts, of the confirmed secrets, each once.
pub fn confirmed_labels<A: AlgorithmMethods>(
    body: &[u8],
    secrets: &Secrets,
    algorithm: &Option<A>,
    names: bool,
) -> (found: Result<Vec<String>, ScanError>)
    ensures
        scan_fault(pattern_texts(secrets@), body@, algorithm.is_some(), fault_of(found)),
        found matches Ok(labels) ==> lists_labelled(
            algorithm,
            secrets@,
            names,
            body@,
            labels.deep_view(),
        ),
{
    let ghost texts = pattern_texts(secrets@);
    let ghost all = catalog_labels(secrets@, names);
    let indexes = match confirmed_indexes(body, secrets, algorithm) {
        Ok(indexes) => indexes,
        Err(fault) => {
            return Err(fault);
        },
    };
    let labels = labels_at(secrets, &indexes, names);
    proof {
        assert forall|text: Seq<char>|
            #[trigger] labels.deep_view().contains(text) <==> labelled(
                algorithm,
                texts,
                all,
                body@,
                text,
            ) by {
            if labels.deep_view().contains(text) {
                let j = choose|j: int|
                    0 <= j < indexes.len() && all[#[trigger] indexes@[j] as int] == text;
                assert(indexes@.contains(indexes@[j]));
                assert(confirmed(algorithm, texts, body@, indexes@[j]));
            }
            if labelled(algorithm, texts, all, body@, text) {
                let index = choose|index: usize|
                    #[trigger] confirmed(algorithm, texts, body@, index) && index < all.len()
                        && all[index as int] == text;
                assert(indexes@.contains(index));
                let j = choose|j: int| 0 <= j < indexes.len() && indexes@[j] == index;
                assert(all[indexes@[j] as int] == text);
            }
        }
    }
    Ok(labels)
}

/// Overwrites the bytes from `start` up to `end` with the crossout byte.
pub fn mask_span(body: &mut Vec<u8>, start: usize, end: usize)
    requires
        start <= end <= old(body)@.len(),
    ensures
        final(body)@.len() == old(body)@.len(),
        forall|at: int|
            0 <= at < old(body)@.len() ==> #[trigger] final(body)@[at] == (if start <= at < end {
                CROSSOUT_BYTE
            } else {
                old(body)@[at]
            }),
{
    let ghost before = body@;
    let mut at: usize = start;
    while at < end
        invariant
            start <= at <= end <= body@.len(),
            body@.len() == before.len(),
            forall|i: int|
                0 <= i < before.len() ==> #[trigger] body@[i] == (if start <= i < at {
                    CROSSOUT_BYTE
                } else {
                    before[i]
                }),
        decreases end - at,
    {
        body.set(at, CROSSOUT_BYTE);
        at += 1;
    }
}

/// Overwrites every span with the crossout byte. The length of the body
/// and the bytes outside the spans stay as they are.
pub fn mask_spans(body: &mut Vec<u8>, spans: &Vec<Option<(usize, usize)>>)
    requires
        spans_within(spans@, old(body)@.len()),
    ensures
        final(body)@ == masked(old(body)@, spans@),
{
    let ghost before = body@;
    let mut k: usize = 0;
    assert(body@ =~= masked(before, spans@.take(0)));
    while k < spans.len()
        invariant
            k <= spans.len(),
            spans_within(spans@, before.len()),
            body@ == masked(before, spans@.take(k as int)),
        decreases spans.len() - k,
    {
        let ghost earlier = body@;
        match spans[k] {
            Some(span) => {
                mask_span(body, span.0, span.1);
            },
            None => {},
        }
        proof {
            let done = spans@.take(k as int);
            let next = spans@.take(k + 1);
            assert forall|at: int| 0 <= at < before.len() implies (covered(next, at) <==> (covered(
                done,
                at,
            ) || (spans@[k as int] matches Some(span) && span.0 <= at < span.1))) by {
                if covered(next, at) {
                    let j = choose|j: int|
                        0 <= j < next.len() && (#[trigger] next[j] matches Some(span) && span.0
                            <= at < span.1);
                    if j < k {
                        assert(done[j] == next[j]);
                    }
                }
                if covered(done, at) {
                    let j = choose|j: int|
                        0 <= j < done.len() && (#[trigger] done[j] matches Some(span) && span.0
                            <= at < span.1);
                    assert(next[j] == done[j]);
                }
                if spans@[k as int] matches Some(span) && span.0 <= at < span.1 {
                    assert(next[k as int] == spans@[k as int]);
                }
            }
            assert(body@ =~= masked(before, next));
        }
        k += 1;
    }
    assert(spans@.take(spans.len() as int) =~= spans@);
}

/// Masks, for each listed catalog position in turn, the first capture
/// group of every occurrence of that position's pattern. The body keeps its
/// length, and a pattern that no longer occurs changes nothing. Where a
/// listed position is outside the catalog or the engine refuses its
/// pattern, the body is left as it was.
pub fn redact(body: &mut Vec<u8>, secrets: &Secrets, indexes: &[usize]) -> (done: Result<
    (),
    ScanError,
>)
    ensures
        final(body)@.len() == old(body)@.len(),
        done is Ok ==> (forall|j: int|
            0 <= j < indexes@.len() ==> redactable(
                pattern_texts(secrets@),
                #[trigger] indexes@[j],
            )) && final(body)@ == redacted(old(body)@, pattern_texts(secrets@), indexes@),
        done matches Err(fault) ==> final(body)@ == old(body)@ && exists|k: int|
            #[trigger] first_unredactable(pattern_texts(secrets@), indexes@, k) && fault
                == redaction_fault(pattern_texts(secrets@), indexes@[k]),
{
    let ghost texts = pattern_texts(secrets@);
    let ghost before = body@;
    let mut compiled: Vec<regex::bytes::Regex> = Vec::new();
    let mut k: usize = 0;
    while k < indexes.len()
        invariant
            k <= indexes.len(),
            texts == pattern_texts(secrets@),
            body@ == before,
            compiled.len() == k,
            forall|j: int| 0 <= j < k ==> redactable(texts, #[trigger] indexes@[j]),
            forall|j: int|
                0 <= j < k ==> regex_text(&#[trigger] compiled@[j]) == texts[indexes@[j] as int],
        decreases indexes.len() - k,
    {
        let index: usize = indexes[k];
        if index >= secrets.len() {
            assert(first_unredactable(texts, indexes@, k as int));
            return Err(ScanError::NoSuchSecret(index));
        }
        match compile(secrets[index].regex) {
            Ok(re) => {
                compiled.push(re);
            },
            Err(_) => {
                assert(first_unredactable(texts, indexes@, k as int));
                return Err(ScanError::Pattern(index));
            },
        }
        k += 1;
    }
    let mut k: usize = 0;
    assert(indexes@.take(0) =~= Seq::<usize>::empty());
    while k < compiled.len()
        invariant
            k <= compiled.len(),
            compiled.len() == indexes.len(),
            texts == pattern_texts(secrets@),
            forall|j: int| 0 <= j < indexes@.len() ==> redactable(texts, #[trigger] indexes@[j]),
            forall|j: int|
                0 <= j < compiled.len() ==> regex_text(&#[trigger] compiled@[j])
                    == texts[indexes@[j] as int],
            body@ == redacted(before, texts, indexes@.take(k as int)),
        decreases compiled.len() - k,
    {
        let spans = group_spans(&compiled[k], body.as_slice());
        mask_spans(body, &spans);
        proof {
            let next = indexes@.take(k + 1);
            assert(next.drop_last() =~= indexes@.take(k as int));
            assert(next.last() == indexes@[k as int]);
        }
        k += 1;
    }
    proof {
        assert(indexes@.take(indexes@.len() as int) =~= indexes@);
        lemma_redacted_keeps_length(before, texts, indexes@);
    }
    Ok(())
}

impl SearchMethods for BodyBytes {
    open spec fn content(&self) -> Seq<u8> {
        self.0@
    }

    fn bypass(&self) -> (done: bool) {
        true
    }

    fn find_any_match(&self, command: &Command) -> (found: Result<bool, ScanError>) {
        let texts = pattern_strings(&command.secrets);
        match compile_set(&texts) {
            Ok(set) => Ok(set_is_match(&set, self.0.as_slice())),
            Err(_) => Err(ScanError::Catalog),
        }
    }

    fn find_names<A: AlgorithmMethods>(&self, command: &Command, algorithm: &Option<A>) -> (found:
        Result<Vec<String>, ScanError>) {
        confirmed_labels(self.0.as_slice(), &command.secrets, algorithm, true)
    }

    fn find_regexes<A: AlgorithmMethods>(&self, command: &Command, algorithm: &Option<A>) -> (found:
        Result<Vec<String>, ScanError>) {
        confirmed_labels(self.0.as_slice(), &command.secrets, algorithm, false)
    }

    fn find_captures<A: AlgorithmMethods>(&self, command: &Command, algorithm: &Option<A>) -> (found:
        Result<Vec<String>, ScanError>) {
        captured_values(self.0.as_slice(), &command.secrets, algorithm)
    }

    fn find_indexes<A: AlgorithmMethods>(&self, command: &Command, algorithm: &Option<A>) -> (found:
        Result<Vec<usize>, ScanError>) {
        confirmed_indexes(self.0.as_slice(), &command.secrets, algorithm)
    }

    fn replace_matches(&mut self, secrets: &Secrets, indexes: &[usize]) -> (done: Result<
        (),
        ScanError,
    >) {
        redact(&mut self.0, secrets, indexes)
    }
}

} // verus!

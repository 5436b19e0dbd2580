//! Carries the span of a request to another node.

use opentelemetry::propagation::TextMapPropagator;
use std::collections::HashMap;
use vstd::prelude::*;

verus! {

/// Tracing context entry for propagation
#[derive(Clone, Debug)]
pub struct TracingContextEntry {
    pub key: String,
    pub value: String,
}

impl View for TracingContextEntry {
    type V = (Seq<char>, Seq<char>);

    open spec fn view(&self) -> (Seq<char>, Seq<char>) {
        (self.key@, self.value@)
    }
}

/// Tracing context for span propagation
#[derive(Clone, Debug)]
pub struct TracingContext {
    pub entries: Vec<TracingContextEntry>,
}

impl View for TracingContext {
    type V = Seq<(Seq<char>, Seq<char>)>;

    open spec fn view(&self) -> Seq<(Seq<char>, Seq<char>)> {
        self.entries@.map_values(|e: TracingContextEntry| e@)
    }
}

impl Default for TracingContext {
    fn default() -> (context: Self)
        ensures
            context@ == Seq::<(Seq<char>, Seq<char>)>::empty(),
    {
        let context = TracingContext { entries: Vec::new() };
        assert(context@ =~= Seq::empty());
        context
    }
}

/// What goes with a request: the span that it belongs to, and more.
#[verifier::external_type_specification]
#[verifier::external_body]
pub struct ExContext(opentelemetry::Context);

/// Writes spans as headers of Zipkin, and reads them.
#[verifier::external_type_specification]
#[verifier::external_body]
pub struct ExPropagator(opentelemetry_zipkin::Propagator);

/// What a list of headers says.
pub open spec fn headers_view(headers: Seq<(String, String)>) -> Seq<(Seq<char>, Seq<char>)> {
    headers.map_values(|h: (String, String)| (h.0@, h.1@))
}

/// Whether no two headers have the same key.
pub open spec fn are_distinct(headers: Seq<(Seq<char>, Seq<char>)>) -> bool {
    forall|i: int, j: int|
        0 <= i < j < headers.len() ==> (#[trigger] headers[i]).0 != (#[trigger] headers[j]).0
}

/// Whether a list has the headers of a map, each of them once.
pub open spec fn lists(
    headers: Seq<(Seq<char>, Seq<char>)>,
    map: Map<Seq<char>, Seq<char>>,
) -> bool {
    &&& are_distinct(headers)
    &&& forall|i: int|
        0 <= i < headers.len() ==> map.contains_key((#[trigger] headers[i]).0) && map[headers[i].0]
            == headers[i].1
    &&& forall|key: Seq<char>| #[trigger]
        map.contains_key(key) ==> exists|i: int|
            0 <= i < headers.len() && (#[trigger] headers[i]).0 == key
}

/// The headers that a propagator writes for a span, by their keys.
pub uninterp spec fn span_headers(span: opentelemetry::Context, propagator: opentelemetry_zipkin::Propagator) -> Map<Seq<char>, Seq<char>>;

/// Calls `TextMapPropagator::inject_context`, which writes the headers of a span
/// into a map, and lists them.
///
/// The headers, `span_headers`, are those of the span in the encoding of the
/// propagator. A map has a key only once. In which order they are listed is left
/// to the map: nothing is said of it.
#[verifier::external_body]
fn injected_headers(
    span: &opentelemetry::Context,
    propagator: &opentelemetry_zipkin::Propagator,
) -> (headers: Vec<(String, String)>)
    ensures
        lists(headers_view(headers@), span_headers(*span, *propagator)),
{
    let mut carrier: HashMap<String, String> = HashMap::new();
    propagator.inject_context(span, &mut carrier);
    carrier.into_iter().collect()
}

/// The headers of a list, by their keys. Of a key that occurs more than once, the
/// last value counts.
pub open spec fn headers_map(headers: Seq<(Seq<char>, Seq<char>)>) -> Map<Seq<char>, Seq<char>>
    decreases headers.len(),
{
    if headers.len() == 0 {
        Map::empty()
    } else {
        headers_map(headers.drop_last()).insert(headers.last().0, headers.last().1)
    }
}

/// The headers, by their keys, that a propagator writes for the span that it has
/// read from some headers. `None` if it reads no span from them.
pub uninterp spec fn reread_headers(headers: Map<Seq<char>, Seq<char>>, propagator: opentelemetry_zipkin::Propagator) -> Option<Map<Seq<char>, Seq<char>>>;

/// Calls `TextMapPropagator::extract`, which reads a span from the headers in a map.
///
/// Where the headers hold a span, the context is one of that span: the
/// propagator writes for it what the headers and its encoding decide,
/// `reread_headers`. What else the context holds, and which context comes of
/// headers that hold no span, depends on the current thread: nothing is said of
/// either.
#[verifier::external_body]
fn extracted_context(
    headers: Vec<(String, String)>,
    propagator: &opentelemetry_zipkin::Propagator,
) -> (context: opentelemetry::Context)
    ensures
        reread_headers(headers_map(headers_view(headers@)), *propagator) matches Some(written)
            ==> span_headers(context, *propagator) == written,
{
    let carrier: HashMap<String, String> = headers.into_iter().collect();
    propagator.extract(&carrier)
}

/// The context that holds some headers, in order.
pub fn context_of_headers(headers: Vec<(String, String)>) -> (context: TracingContext)
    ensures
        context@ == headers_view(headers@),
{
    let ghost all = headers@;
    let mut entries: Vec<TracingContextEntry> = Vec::new();
    for header in iter: headers
        invariant
            iter.seq() == all,
            entries@.len() == iter.index(),
            forall|i: int| 0 <= i < entries@.len() ==> (#[trigger] entries@[i])@ == (all[i].0@, all[i].1@),
    {
        entries.push(TracingContextEntry { key: header.0, value: header.1 });
    }
    let context = TracingContext { entries };
    assert(context@ =~= headers_view(all));
    context
}

/// The headers that a context holds, in order.
pub fn headers_of_context(context: &TracingContext) -> (headers: Vec<(String, String)>)
    ensures
        headers_view(headers@) == context@,
{
    let len: usize = context.entries.len();
    let mut headers: Vec<(String, String)> = Vec::new();
    let mut done: usize = 0;
    while done < len
        invariant
            len == context.entries.len(),
            done <= len,
            headers@.len() == done,
            forall|i: int|
                0 <= i < done ==> ((#[trigger] headers@[i]).0@, headers@[i].1@)
                    == context.entries@[i]@,
        decreases len - done,
    {
        let entry = &context.entries[done];
        headers.push((entry.key.clone(), entry.value.clone()));
        done = done + 1;
    }
    assert(headers_view(headers@) =~= context@);
    headers
}

/// Convert a span to a TracingContext for propagation, which lists the headers of
/// the span. No key occurs twice in it.
pub fn span_to_tracing_context(
    span: &opentelemetry::Context,
    propagator: &opentelemetry_zipkin::Propagator,
) -> (context: TracingContext)
    ensures
        lists(context@, span_headers(*span, *propagator)),
{
    context_of_headers(injected_headers(span, propagator))
}

/// Convert a TracingContext to a span, where the context holds one.
pub fn tracing_context_to_span(
    tracing_context: &TracingContext,
    propagator: &opentelemetry_zipkin::Propagator,
) -> (span: opentelemetry::Context)
    ensures
        reread_headers(headers_map(tracing_context@), *propagator) matches Some(written)
            ==> span_headers(span, *propagator) == written,
{
    extracted_context(headers_of_context(tracing_context), propagator)
}

} // verus!

//! Distributed tracing support for network operations.

use crate::text;
use crate::text::{push_hex16, same_text, IntoText};
use crate::time;
use crate::time::{Clock, Instant};
use vstd::prelude::*;
use vstd::string::*;

verus! {

/// Trace ID counter. Its view is the number that comes next.
#[derive(Debug)]
pub struct TraceCounter {
    next: u64,
}

impl View for TraceCounter {
    type V = u64;

    closed spec fn view(&self) -> u64 {
        self.next
    }
}

impl TraceCounter {
    /// A counter that starts at one.
    pub fn new() -> (c: TraceCounter)
        ensures
            c@ == 1,
    {
        TraceCounter { next: 1 }
    }

    /// The next number. After the largest the counter starts again at zero.
    fn take(&mut self) -> (n: u64)
        ensures
            n == old(self)@,
            final(self)@ == old(self)@.wrapping_add(1),
    {
        let n: u64 = self.next;
        self.next = n.wrapping_add(1);
        n
    }
}

/// The trace ID of a number.
pub open spec fn trace_id(n: u64) -> Seq<char> {
    "trace-"@ + text::hex16(n)
}

/// The span ID of a number.
pub open spec fn span_id(n: u64) -> Seq<char> {
    "span-"@ + text::hex16(n)
}

/// Generates a new trace ID.
pub fn generate_trace_id(counter: &mut TraceCounter) -> (id: String)
    ensures
        id@ == trace_id(old(counter)@),
        final(counter)@ == old(counter)@.wrapping_add(1),
{
    let mut id = "trace-".to_owned();
    push_hex16(&mut id, counter.take());
    id
}

/// Calls `std::time::SystemTime::now` and `duration_since` the Unix epoch: the
/// nanoseconds, or nothing where the clock lies before the epoch. The reading depends on
/// the machine, so nothing is claimed of it.
#[verifier::external_body]
fn unix_nanos() -> Option<u128> {
    std::time::SystemTime::now().duration_since(std::time::SystemTime::UNIX_EPOCH).ok().map(
        |d: std::time::Duration| d.as_nanos(),
    )
}

/// The lower 64 bits of a number of nanoseconds.
pub open spec fn low_bits(nanos: u128) -> u64 {
    (nanos % 0x1_0000_0000_0000_0000) as u64
}

/// The span ID of a reading of the clock in nanoseconds, or of the counter where there is
/// none.
pub fn span_id_of(reading: Option<u128>, counter: &mut TraceCounter) -> (id: String)
    ensures
        match reading {
            Some(nanos) => id@ == span_id(low_bits(nanos)) && final(counter)@ == old(counter)@,
            None => id@ == span_id(old(counter)@) && final(counter)@ == old(
                counter,
            )@.wrapping_add(1),
        },
{
    let n: u64 = match reading {
        Some(nanos) => (nanos % 0x1_0000_0000_0000_0000) as u64,
        None => counter.take(),
    };
    let mut id = "span-".to_owned();
    push_hex16(&mut id, n);
    id
}

/// Whether an ID and the counter after it are those of some reading of the clock.
pub open spec fn is_new_span(id: Seq<char>, before: u64, after: u64) -> bool {
    ||| after == before && exists|nanos: u128| id == span_id(#[trigger] low_bits(nanos))
    ||| after == before.wrapping_add(1) && id == span_id(before)
}

/// Generates a new span ID.
pub fn generate_span_id(counter: &mut TraceCounter) -> (id: String)
    ensures
        is_new_span(id@, old(counter)@, final(counter)@),
{
    let reading = unix_nanos();
    span_id_of(reading, counter)
}

/// The number of the ID that a span under a parent gets, and the counter afterwards, given
/// a reading of the clock: that of the reading, or else of the counter, unless it is the
/// parent's; then that of the first number of the counter that is not.
pub open spec fn child_number(reading: Option<u128>, parent: Seq<char>, next: u64) -> (u64, u64) {
    let n = match reading {
        Some(nanos) => low_bits(nanos),
        None => next,
    };
    let left = match reading {
        Some(_) => next,
        None => next.wrapping_add(1),
    };
    if span_id(n) != parent {
        (n, left)
    } else if span_id(left) != parent {
        (left, left.wrapping_add(1))
    } else {
        (left.wrapping_add(1), left.wrapping_add(1).wrapping_add(1))
    }
}

/// The ID of a span under a parent, given a reading of the clock. It is not the parent's.
pub fn child_span_id_of(reading: Option<u128>, parent: &str, counter: &mut TraceCounter) -> (id:
    String)
    ensures
        id@ == span_id(child_number(reading, parent@, old(counter)@).0),
        final(counter)@ == child_number(reading, parent@, old(counter)@).1,
        id@ != parent@,
{
    let id = span_id_of(reading, counter);
    if !same_text(id.as_str(), parent) {
        return id;
    }
    proof {
        trace_ids_differ(counter@, counter@.wrapping_add(1));
    }
    let id = span_id_of(None, counter);
    if !same_text(id.as_str(), parent) {
        return id;
    }
    span_id_of(None, counter)
}

/// Whether an ID and the counter after it are those of a span under a parent, for some
/// reading of the clock.
pub open spec fn is_child_span(id: Seq<char>, parent: Seq<char>, before: u64, after: u64) -> bool {
    exists|reading: Option<u128>|
        id == span_id((#[trigger] child_number(reading, parent, before)).0) && after
            == child_number(reading, parent, before).1
}

/// Generates the ID of a span under a parent. It is not the parent's.
pub fn generate_child_span_id(parent: &str, counter: &mut TraceCounter) -> (id: String)
    ensures
        is_child_span(id@, parent@, old(counter)@, final(counter)@),
        id@ != parent@,
{
    let reading = unix_nanos();
    child_span_id_of(reading, parent, counter)
}

/// What a [`TraceContext`] holds.
pub struct ContextView {
    pub trace_id: Seq<char>,
    pub span_id: Seq<char>,
    pub parent_span_id: Option<Seq<char>>,
    pub service_name: Seq<char>,
    pub operation: Seq<char>,
}

/// Trace context for a network operation.
#[derive(Debug)]
pub struct TraceContext {
    /// Trace ID for request correlation across services.
    pub trace_id: String,
    /// Current span ID.
    pub span_id: String,
    /// Parent span ID (if any).
    pub parent_span_id: Option<String>,
    /// Service name.
    pub service_name: String,
    /// Operation name.
    pub operation: String,
}

/// The characters of a text that may be missing.
pub open spec fn text_view(t: Option<String>) -> Option<Seq<char>> {
    match t {
        Some(s) => Some(s@),
        None => None,
    }
}

/// A copy of a text that may be missing.
fn copied(t: &Option<String>) -> (c: Option<String>)
    ensures
        text_view(c) == text_view(*t),
{
    match t {
        Some(s) => Some(s.clone()),
        None => None,
    }
}

impl View for TraceContext {
    type V = ContextView;

    open spec fn view(&self) -> ContextView {
        ContextView {
            trace_id: self.trace_id@,
            span_id: self.span_id@,
            parent_span_id: text_view(self.parent_span_id),
            service_name: self.service_name@,
            operation: self.operation@,
        }
    }
}

impl Clone for TraceContext {
    fn clone(&self) -> (c: TraceContext)
        ensures
            c@ == self@,
    {
        TraceContext {
            trace_id: self.trace_id.clone(),
            span_id: self.span_id.clone(),
            parent_span_id: copied(&self.parent_span_id),
            service_name: self.service_name.clone(),
            operation: self.operation.clone(),
        }
    }
}

impl TraceContext {
    /// Creates a new trace context (root span).
    pub fn new<S: IntoText, O: IntoText>(
        service_name: S,
        operation: O,
        counter: &mut TraceCounter,
    ) -> (c: TraceContext)
        ensures
            c@ == (ContextView {
                trace_id: trace_id(old(counter)@),
                span_id: c@.span_id,
                parent_span_id: None,
                service_name: service_name.text(),
                operation: operation.text(),
            }),
            is_new_span(c@.span_id, old(counter)@.wrapping_add(1), final(counter)@),
    {
        let trace_id = generate_trace_id(counter);
        let span_id = generate_span_id(counter);
        TraceContext {
            trace_id,
            span_id,
            parent_span_id: None,
            service_name: service_name.into_text(),
            operation: operation.into_text(),
        }
    }

    /// Creates a child span: of the same trace and service, with this span as parent, and
    /// with an ID of its own.
    pub fn child_span<O: IntoText>(&self, operation: O, counter: &mut TraceCounter) -> (c:
        TraceContext)
        ensures
            c@ == (ContextView {
                span_id: c@.span_id,
                parent_span_id: Some(self@.span_id),
                operation: operation.text(),
                ..self@
            }),
            c@.span_id != self@.span_id,
            is_child_span(c@.span_id, self@.span_id, old(counter)@, final(counter)@),
    {
        TraceContext {
            trace_id: self.trace_id.clone(),
            span_id: generate_child_span_id(self.span_id.as_str(), counter),
            parent_span_id: Some(self.span_id.clone()),
            service_name: self.service_name.clone(),
            operation: operation.into_text(),
        }
    }

    /// Creates a context from existing trace and parent span IDs, with a new span ID.
    pub fn from_parent<S: IntoText, O: IntoText>(
        trace_id: String,
        parent_span_id: String,
        service_name: S,
        operation: O,
        counter: &mut TraceCounter,
    ) -> (c: TraceContext)
        ensures
            c@ == (ContextView {
                trace_id: trace_id@,
                span_id: c@.span_id,
                parent_span_id: Some(parent_span_id@),
                service_name: service_name.text(),
                operation: operation.text(),
            }),
            is_new_span(c@.span_id, old(counter)@, final(counter)@),
    {
        let span_id = generate_span_id(counter);
        TraceContext {
            trace_id,
            span_id,
            parent_span_id: Some(parent_span_id),
            service_name: service_name.into_text(),
            operation: operation.into_text(),
        }
    }
}

/// The attributes that a list of names and values means: of a name that occurs more
/// than once, the last value.
pub open spec fn attributes_of(list: Seq<(String, String)>) -> Map<Seq<char>, Seq<char>>
    decreases list.len(),
{
    if list.len() == 0 {
        Map::empty()
    } else {
        attributes_of(list.drop_last()).insert(list.last().0@, list.last().1@)
    }
}

/// Whether no name occurs twice.
pub open spec fn names_distinct(list: Seq<(String, String)>) -> bool {
    forall|i: int, j: int|
        0 <= i < list.len() && 0 <= j < list.len() && i != j ==> (#[trigger] list[i]).0@ != (
        #[trigger] list[j]).0@
}

/// What the attributes of a list are, name by name.
proof fn lemma_attributes(list: Seq<(String, String)>)
    requires
        names_distinct(list),
    ensures
        forall|i: int|
            0 <= i < list.len() ==> attributes_of(list).contains_key((#[trigger] list[i]).0@)
                && attributes_of(list)[list[i].0@] == list[i].1@,
        forall|name: Seq<char>| #[trigger]
            attributes_of(list).contains_key(name) ==> exists|i: int|
                0 <= i < list.len() && (#[trigger] list[i]).0@ == name,
    decreases list.len(),
{
    if list.len() > 0 {
        let rest = list.drop_last();
        assert forall|i: int, j: int|
            0 <= i < rest.len() && 0 <= j < rest.len() && i != j implies (
        #[trigger] rest[i]).0@ != (#[trigger] rest[j]).0@ by {
            assert(rest[i] == list[i] && rest[j] == list[j]);
        }
        lemma_attributes(rest);
        assert forall|i: int| 0 <= i < list.len() implies attributes_of(list).contains_key(
            (#[trigger] list[i]).0@,
        ) && attributes_of(list)[list[i].0@] == list[i].1@ by {
            if i < rest.len() {
                assert(rest[i] == list[i]);
                assert(list[i].0@ != list[list.len() - 1].0@);
            }
        }
        assert forall|name: Seq<char>| #[trigger] attributes_of(list).contains_key(
            name,
        ) implies exists|i: int| 0 <= i < list.len() && (#[trigger] list[i]).0@ == name by {
            if name == list.last().0@ {
                assert(list[list.len() - 1].0@ == name);
            } else {
                assert(attributes_of(rest).contains_key(name));
                let i = choose|i: int| 0 <= i < rest.len() && (#[trigger] rest[i]).0@ == name;
                assert(list[i].0@ == name);
            }
        }
    }
}

/// Copies a list of names and values.
fn copied_list(list: &Vec<(String, String)>) -> (c: Vec<(String, String)>)
    ensures
        c@ == list@,
{
    let mut c: Vec<(String, String)> = Vec::new();
    let mut i: usize = 0;
    while i < list.len()
        invariant
            i <= list@.len(),
            c@ == list@.take(i as int),
        decreases list@.len() - i,
    {
        c.push((list[i].0.clone(), list[i].1.clone()));
        assert(list@.take(i + 1) =~= list@.take(i as int).push(list@[i as int]));
        i = i + 1;
    }
    assert(list@.take(list@.len() as int) =~= list@);
    c
}

/// What a [`Span`] holds. Its start is in nanoseconds of its clock.
pub struct SpanView {
    pub context: ContextView,
    pub start_time: nat,
    pub attributes: Map<Seq<char>, Seq<char>>,
}

/// Span for measuring operation duration.
pub struct Span {
    context: TraceContext,
    clock: Clock,
    start_time: Instant,
    attributes: Vec<(String, String)>,
}

impl View for Span {
    type V = SpanView;

    closed spec fn view(&self) -> SpanView {
        SpanView {
            context: self.context@,
            start_time: self.start_time@,
            attributes: attributes_of(self.attributes@),
        }
    }
}

impl Span {
    #[verifier::type_invariant]
    spec fn each_name_once(self) -> bool {
        names_distinct(self.attributes@)
    }

    /// Creates a new span that starts at a given time.
    pub fn new_at(context: TraceContext, clock: Clock, now: Instant) -> (s: Span)
        ensures
            s@ == started(context@, now@),
    {
        Span { context, clock, start_time: now, attributes: Vec::new() }
    }

    /// Creates a new span that starts now.
    pub fn new(context: TraceContext) -> (s: Span)
        ensures
            exists|now: nat| s@ == #[trigger] started(context@, now),
    {
        let clock = Clock::start();
        let now = clock.now();
        Span::new_at(context, clock, now)
    }

    /// What the span's clock shows. Any time may come.
    pub fn now(&self) -> Instant {
        self.clock.now()
    }

    /// Adds an attribute to the span, in place of one of the same name.
    pub fn set_attribute<K: IntoText, V: IntoText>(&mut self, key: K, value: V)
        ensures
            final(self)@ == (SpanView {
                attributes: old(self)@.attributes.insert(key.text(), value.text()),
                ..old(self)@
            }),
    {
        proof {
            use_type_invariant(&*self);
        }
        let ghost before = self.attributes@;
        let name = key.into_text();
        let value = value.into_text();
        let mut list = copied_list(&self.attributes);
        let mut i: usize = 0;
        while i < list.len() && !same_text(list[i].0.as_str(), name.as_str())
            invariant
                i <= list@.len(),
                list@ == before,
                forall|j: int| 0 <= j < i ==> (#[trigger] before[j]).0@ != name@,
            decreases list@.len() - i,
        {
            i = i + 1;
        }
        let ghost pair = (name, value);
        if i < list.len() {
            list.set(i, (name, value));
            proof {
                lemma_attributes(before);
                assert(names_distinct(list@));
                lemma_attributes(list@);
                let m = attributes_of(list@);
                let n = attributes_of(before).insert(pair.0@, pair.1@);
                assert forall|k: Seq<char>| m.contains_key(k) == n.contains_key(k) by {
                    if m.contains_key(k) {
                        let j = choose|j: int| 0 <= j < list@.len() && (#[trigger] list@[j]).0@ == k;
                        assert(before[j].0@ == k);
                    }
                    if n.contains_key(k) && k != pair.0@ {
                        let j = choose|j: int| 0 <= j < before.len() && (#[trigger] before[j]).0@ == k;
                        assert(list@[j].0@ == k);
                    }
                    assert(list@[i as int].0@ == pair.0@);
                }
                assert forall|k: Seq<char>| m.contains_key(k) implies m[k] == n[k] by {
                    let j = choose|j: int| 0 <= j < list@.len() && (#[trigger] list@[j]).0@ == k;
                    if j != i {
                        assert(before[j] == list@[j]);
                    }
                }
                assert(m =~= n);
            }
        } else {
            list.push((name, value));
            proof {
                assert(list@.drop_last() =~= before);
                assert(list@.last() == pair);
                assert forall|a: int, b: int|
                    0 <= a < list@.len() && 0 <= b < list@.len() && a != b implies (
                #[trigger] list@[a]).0@ != (#[trigger] list@[b]).0@ by {
                    if a < before.len() {
                        assert(list@[a] == before[a]);
                    }
                    if b < before.len() {
                        assert(list@[b] == before[b]);
                    }
                }
            }
        }
        self.attributes = list;
    }

    /// The trace context.
    pub fn context(&self) -> (c: &TraceContext)
        ensures
            c@ == self@.context,
    {
        &self.context
    }

    /// The time since the start in whole milliseconds, at a given time.
    pub fn elapsed_ms_at(&self, now: Instant) -> (ms: u64)
        ensures
            ms == elapsed_millis(self@, now@),
    {
        now.duration_since(self.start_time).as_millis() as u64
    }

    /// The time since the start in whole milliseconds.
    pub fn elapsed_ms(&self) -> (ms: u64)
        ensures
            exists|now: nat| ms == #[trigger] elapsed_millis(self@, now),
    {
        let now = self.clock.now();
        self.elapsed_ms_at(now)
    }

    /// Ends the span at a given time and returns a summary.
    pub fn end_at(self, now: Instant) -> (s: SpanSummary)
        ensures
            s@ == summary_of(self@, now@),
    {
        let duration_ms: u64 = self.elapsed_ms_at(now);
        SpanSummary {
            trace_id: self.context.trace_id.clone(),
            span_id: self.context.span_id.clone(),
            parent_span_id: copied(&self.context.parent_span_id),
            service_name: self.context.service_name.clone(),
            operation: self.context.operation.clone(),
            duration_ms,
            attributes: copied_list(&self.attributes),
        }
    }

    /// Ends the span and returns a summary.
    pub fn end(self) -> (s: SpanSummary)
        ensures
            exists|now: nat| s@ == #[trigger] summary_of(self@, now),
    {
        let now = self.clock.now();
        self.end_at(now)
    }
}

/// A span that starts at a given time.
pub open spec fn started(context: ContextView, now: nat) -> SpanView {
    SpanView { context, start_time: now, attributes: Map::empty() }
}

/// The whole milliseconds since the start of a span, cut to 64 bits.
pub open spec fn elapsed_millis(s: SpanView, now: nat) -> u64 {
    (time::passed(s.start_time, now) / time::NANOS_PER_MILLI as nat) as u64
}

/// The summary of a span that ends at a given time.
pub open spec fn summary_of(s: SpanView, now: nat) -> SummaryView {
    SummaryView {
        context: s.context,
        duration_ms: elapsed_millis(s, now),
        attributes: s.attributes,
    }
}

/// What a [`SpanSummary`] holds.
pub struct SummaryView {
    pub context: ContextView,
    pub duration_ms: u64,
    pub attributes: Map<Seq<char>, Seq<char>>,
}

/// Summary of a completed span.
#[derive(Debug)]
pub struct SpanSummary {
    pub trace_id: String,
    pub span_id: String,
    pub parent_span_id: Option<String>,
    pub service_name: String,
    pub operation: String,
    pub duration_ms: u64,
    pub attributes: Vec<(String, String)>,
}

impl View for SpanSummary {
    type V = SummaryView;

    open spec fn view(&self) -> SummaryView {
        SummaryView {
            context: ContextView {
                trace_id: self.trace_id@,
                span_id: self.span_id@,
                parent_span_id: text_view(self.parent_span_id),
                service_name: self.service_name@,
                operation: self.operation@,
            },
            duration_ms: self.duration_ms,
            attributes: attributes_of(self.attributes@),
        }
    }
}

impl Clone for SpanSummary {
    fn clone(&self) -> (c: SpanSummary)
        ensures
            c@ == self@,
    {
        SpanSummary {
            trace_id: self.trace_id.clone(),
            span_id: self.span_id.clone(),
            parent_span_id: copied(&self.parent_span_id),
            service_name: self.service_name.clone(),
            operation: self.operation.clone(),
            duration_ms: self.duration_ms,
            attributes: copied_list(&self.attributes),
        }
    }
}

/// A span as it is exported.
#[derive(Debug)]
pub struct SpanExport {
    pub trace_id: String,
    pub span_id: String,
    pub parent_span_id: Option<String>,
    pub service: String,
    pub operation: String,
    pub duration_ms: u64,
    pub attributes: Vec<(String, String)>,
}

impl View for SpanExport {
    type V = SummaryView;

    open spec fn view(&self) -> SummaryView {
        SummaryView {
            context: ContextView {
                trace_id: self.trace_id@,
                span_id: self.span_id@,
                parent_span_id: text_view(self.parent_span_id),
                service_name: self.service@,
                operation: self.operation@,
            },
            duration_ms: self.duration_ms,
            attributes: attributes_of(self.attributes@),
        }
    }
}

/// Span collector for aggregating trace data. Its view is the spans in the order in
/// which they were recorded.
pub struct SpanCollector {
    spans: Vec<SpanSummary>,
}

impl View for SpanCollector {
    type V = Seq<SummaryView>;

    closed spec fn view(&self) -> Seq<SummaryView> {
        self.spans@.map_values(|s: SpanSummary| s@)
    }
}

impl SpanCollector {
    /// Creates a new span collector.
    pub fn new() -> (c: SpanCollector)
        ensures
            c@ == Seq::<SummaryView>::empty(),
    {
        let c = SpanCollector { spans: Vec::new() };
        assert(c@ =~= Seq::empty());
        c
    }

    /// Records a completed span.
    pub fn record(&mut self, span: SpanSummary)
        ensures
            final(self)@ == old(self)@.push(span@),
    {
        self.spans.push(span);
        assert(self@ =~= old(self)@.push(span@));
    }

    /// All recorded spans.
    pub fn get_spans(&self) -> (spans: Vec<SpanSummary>)
        ensures
            spans@.map_values(|s: SpanSummary| s@) == self@,
    {
        let mut spans: Vec<SpanSummary> = Vec::new();
        let mut i: usize = 0;
        while i < self.spans.len()
            invariant
                i <= self.spans@.len(),
                spans@.len() == i,
                forall|k: int| 0 <= k < i ==> (#[trigger] spans@[k])@ == self.spans@[k]@,
            decreases self.spans@.len() - i,
        {
            spans.push(self.spans[i].clone());
            i = i + 1;
        }
        assert(spans@.map_values(|s: SpanSummary| s@) =~= self@);
        spans
    }

    /// Clears all spans.
    pub fn clear(&mut self)
        ensures
            final(self)@ == Seq::<SummaryView>::empty(),
    {
        self.spans.clear();
        assert(self@ =~= Seq::empty());
    }

    /// All recorded spans as they are exported.
    pub fn export_rows(&self) -> (rows: Vec<SpanExport>)
        ensures
            rows@.map_values(|s: SpanExport| s@) == self@,
    {
        let mut rows: Vec<SpanExport> = Vec::new();
        let mut i: usize = 0;
        while i < self.spans.len()
            invariant
                i <= self.spans@.len(),
                rows@.len() == i,
                forall|k: int| 0 <= k < i ==> (#[trigger] rows@[k])@ == self.spans@[k]@,
            decreases self.spans@.len() - i,
        {
            let s = &self.spans[i];
            rows.push(
                SpanExport {
                    trace_id: s.trace_id.clone(),
                    span_id: s.span_id.clone(),
                    parent_span_id: copied(&s.parent_span_id),
                    service: s.service_name.clone(),
                    operation: s.operation.clone(),
                    duration_ms: s.duration_ms,
                    attributes: copied_list(&s.attributes),
                },
            );
            i = i + 1;
        }
        assert(rows@.map_values(|s: SpanExport| s@) =~= self@);
        rows
    }
}

impl Default for SpanCollector {
    fn default() -> (c: SpanCollector)
        ensures
            c@ == Seq::<SummaryView>::empty(),
    {
        SpanCollector::new()
    }
}

/// Trace IDs are unique: two numbers of the counter never give the same ID.
pub proof fn trace_ids_differ(a: u64, b: u64)
    requires
        a != b,
    ensures
        trace_id(a) != trace_id(b),
        span_id(a) != span_id(b),
{
    if trace_id(a) == trace_id(b) {
        let n = "trace-"@.len() as int;
        assert(trace_id(a).skip(n) =~= text::hex16(a));
        assert(trace_id(b).skip(n) =~= text::hex16(b));
        text::hex16_injective(a, b);
    }
    if span_id(a) == span_id(b) {
        let n = "span-"@.len() as int;
        assert(span_id(a).skip(n) =~= text::hex16(a));
        assert(span_id(b).skip(n) =~= text::hex16(b));
        text::hex16_injective(a, b);
    }
}

/// The number of a counter after it was used a number of times.
pub open spec fn counted(start: u64, uses: nat) -> u64
    decreases uses,
{
    if uses == 0 {
        start
    } else {
        counted(start, (uses - 1) as nat).wrapping_add(1)
    }
}

/// A counter gives no number twice before it has given all of them.
pub proof fn counter_does_not_repeat(start: u64, a: nat, b: nat)
    requires
        a < b < a + 0x1_0000_0000_0000_0000,
    ensures
        counted(start, a) != counted(start, b),
{
    lemma_counted(start, a);
    lemma_counted(start, b);
    let m = 0x1_0000_0000_0000_0000int;
    if (start + a) % m == (start + b) % m {
        assert((b - a) % m == 0) by (nonlinear_arith)
            requires
                (start + a) % m == (start + b) % m,
                m == 0x1_0000_0000_0000_0000int,
        ;
    }
}

/// A counter that wraps round counts modulo its range.
proof fn lemma_counted(start: u64, uses: nat)
    ensures
        counted(start, uses) == (start + uses) % 0x1_0000_0000_0000_0000,
    decreases uses,
{
    if uses > 0 {
        lemma_counted(start, (uses - 1) as nat);
    }
}

/// A span that was just started has its context, no attributes, and has lasted no time.
pub proof fn started_span_is_new(context: ContextView, now: nat)
    ensures
        started(context, now).context == context,
        started(context, now).attributes == Map::<Seq<char>, Seq<char>>::empty(),
        elapsed_millis(started(context, now), now) == 0,
{
}

/// A span lasts as many milliseconds as have passed whole since it was started.
pub proof fn whole_milliseconds_count(
    context: ContextView,
    start: nat,
    ms: nat,
    rest: nat,
    attributes: Map<Seq<char>, Seq<char>>,
)
    requires
        ms <= u64::MAX,
        rest < 1_000_000,
    ensures
        elapsed_millis(
            SpanView { context, start_time: start, attributes },
            start + ms * 1_000_000 + rest,
        ) == ms,
{
    let passed = ms * 1_000_000 + rest;
    assert(passed / 1_000_000 == ms);
}

/// A span that ends is summed up with its context, its attributes, and how long it lasted.
pub proof fn summary_keeps_span(s: SpanView, now: nat)
    ensures
        summary_of(s, now).context == s.context,
        summary_of(s, now).attributes == s.attributes,
        summary_of(s, now).duration_ms == elapsed_millis(s, now),
{
}

/// Of several values under one name, the last counts, and a value under one name leaves the
/// others as they are.
pub proof fn last_value_counts(list: Seq<(String, String)>, name: String, value: String)
    ensures
        attributes_of(Seq::<(String, String)>::empty()) == Map::<Seq<char>, Seq<char>>::empty(),
        attributes_of(list.push((name, value)))[name@] == value@,
        attributes_of(list.push((name, value))).contains_key(name@),
        forall|other: Seq<char>|
            other != name@ ==> #[trigger] attributes_of(list.push((name, value))).contains_key(other)
                == attributes_of(list).contains_key(other) && (attributes_of(list).contains_key(
                other,
            ) ==> attributes_of(list.push((name, value)))[other] == attributes_of(list)[other]),
{
    assert(list.push((name, value)).drop_last() =~= list);
}

/// IDs tell what they are of, and write their number with 16 hexadecimal digits.
pub proof fn ids_tell_their_kind(n: u64)
    ensures
        "trace-"@.is_prefix_of(trace_id(n)),
        "span-"@.is_prefix_of(span_id(n)),
        trace_id(n).skip(6) == text::hex16(n),
        span_id(n).skip(5) == text::hex16(n),
        trace_id(n).len() == 22,
        span_id(n).len() == 21,
{
    reveal_strlit("trace-");
    reveal_strlit("span-");
    assert(trace_id(n).take(6) =~= "trace-"@);
    assert(span_id(n).take(5) =~= "span-"@);
    assert(trace_id(n).skip(6) =~= text::hex16(n));
    assert(span_id(n).skip(5) =~= text::hex16(n));
}

/// Where the clock's reading is not the parent's number, a child span has the ID of that
/// reading, and the counter stays; without a reading, that of the counter, which goes on.
/// Whatever the reading, the ID is not the parent's.
pub proof fn child_follows_the_clock(reading: Option<u128>, parent: Seq<char>, next: u64)
    ensures
        reading matches Some(nanos) && span_id((nanos % 0x1_0000_0000_0000_0000) as u64) != parent
            ==> child_number(reading, parent, next) == (
            (reading->0 % 0x1_0000_0000_0000_0000) as u64,
            next,
        ),
        reading is None && span_id(next) != parent ==> child_number(reading, parent, next) == (
            next,
            next.wrapping_add(1),
        ),
        span_id(child_number(reading, parent, next).0) != parent,
{
    trace_ids_differ(next, next.wrapping_add(1));
    let left = next.wrapping_add(1);
    trace_ids_differ(left, left.wrapping_add(1));
}

} // verus!

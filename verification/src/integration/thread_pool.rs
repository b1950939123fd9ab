//! Processing of messages by CPU-intensive and blocking operations.

use crate::error::{concatenated, ErrorView, NetworkError};
use crate::network::message::Message;
use crate::text;
use crate::text::push_decimal;
use std::io::{Read, Write};
use std::sync::Arc;
use vstd::prelude::*;
use vstd::string::*;

verus! {

/// What came of processing a message: its payload afterwards, or the error.
pub open spec fn processed(r: Result<Message, NetworkError>) -> Result<Seq<u8>, ErrorView> {
    match r {
        Ok(m) => Ok(m@),
        Err(e) => Err(e@),
    }
}

/// Message processor that can handle CPU-intensive operations.
pub trait MessageProcessor: Send + Sync {
    /// Whether processing a payload can come to an outcome.
    spec fn gives(&self, payload: Seq<u8>, outcome: Result<Seq<u8>, ErrorView>) -> bool;

    /// Processes a message in a blocking or CPU-intensive way.
    fn process(&self, message: Message) -> (r: Result<Message, NetworkError>)
        ensures
            self.gives(message@, processed(r)),
    ;
}

/// Identity processor that returns a message unchanged.
#[derive(Debug, Clone, Copy)]
pub struct IdentityProcessor;

impl MessageProcessor for IdentityProcessor {
    open spec fn gives(&self, payload: Seq<u8>, outcome: Result<Seq<u8>, ErrorView>) -> bool {
        outcome == Ok::<Seq<u8>, ErrorView>(payload)
    }

    fn process(&self, message: Message) -> (r: Result<Message, NetworkError>) {
        Ok(message)
    }
}

/// What `flate2::write::GzEncoder` makes of some bytes at a compression level, or what
/// went wrong.
pub uninterp spec fn gzipped(data: Seq<u8>, level: u32) -> Result<Seq<u8>, Seq<char>>;

/// What `flate2::read::GzDecoder` makes of some bytes, or what is wrong with them.
pub uninterp spec fn gunzipped(data: Seq<u8>) -> Result<Seq<u8>, Seq<char>>;

/// Calls `flate2::write::GzEncoder`, writes all bytes and finishes: the named bytes,
/// from which `flate2::read::GzDecoder` makes the given ones again. A level above ten
/// can make it panic, so it is left out. How the bytes are compressed is not said here.
#[verifier::external_body]
fn gzip(data: &[u8], level: u32) -> (r: Result<Vec<u8>, String>)
    requires
        level <= 10,
    ensures
        match (r, gzipped(data@, level)) {
            (Ok(z), Ok(bytes)) => z@ == bytes && gunzipped(z@) == Ok::<Seq<u8>, Seq<char>>(data@),
            (Err(e), Err(t)) => e@ == t,
            _ => false,
        },
{
    let mut encoder = flate2::write::GzEncoder::new(Vec::new(), flate2::Compression::new(level));
    match encoder.write_all(data) {
        Ok(()) => encoder.finish().map_err(|e: std::io::Error| e.to_string()),
        Err(e) => Err(e.to_string()),
    }
}

/// Calls `flate2::read::GzDecoder` and reads to the end: the named bytes, or the named
/// failure. How the bytes are decompressed is not said here.
#[verifier::external_body]
fn gunzip(data: &[u8]) -> (r: Result<Vec<u8>, String>)
    ensures
        match (r, gunzipped(data@)) {
            (Ok(d), Ok(bytes)) => d@ == bytes,
            (Err(e), Err(t)) => e@ == t,
            _ => false,
        },
{
    let mut decompressed = Vec::new();
    match flate2::read::GzDecoder::new(data).read_to_end(&mut decompressed) {
        Ok(_) => Ok(decompressed),
        Err(e) => Err(e.to_string()),
    }
}

/// A failure of an operation, told as an error.
pub open spec fn failure<T>(prefix: Seq<char>, t: Seq<char>) -> Result<T, ErrorView> {
    Err(ErrorView::Other(prefix + t))
}

/// Compression processor.
#[derive(Debug, Clone, Copy)]
pub struct CompressionProcessor {
    level: u32,
}

impl CompressionProcessor {
    #[verifier::type_invariant]
    spec fn level_exists(self) -> bool {
        self.level <= 10
    }

    /// The compression level.
    pub closed spec fn strength(self) -> u32 {
        self.level
    }

    /// Creates a new compression processor.
    pub fn new(level: u32) -> (p: CompressionProcessor)
        requires
            level <= 10,
        ensures
            p.strength() == level,
    {
        CompressionProcessor { level }
    }
}

impl MessageProcessor for CompressionProcessor {
    /// The payload is compressed, and decompressing it gives it back.
    open spec fn gives(&self, payload: Seq<u8>, outcome: Result<Seq<u8>, ErrorView>) -> bool {
        match gzipped(payload, self.strength()) {
            Ok(z) => outcome == Ok::<Seq<u8>, ErrorView>(z) && gunzipped(z) == Ok::<
                Seq<u8>,
                Seq<char>,
            >(payload),
            Err(t) => outcome == failure::<Seq<u8>>("Compression failed: "@, t),
        }
    }

    fn process(&self, message: Message) -> (r: Result<Message, NetworkError>) {
        proof {
            use_type_invariant(self);
        }
        match gzip(message.as_slice(), self.level) {
            Ok(compressed) => Ok(Message::new(compressed)),
            Err(t) => Err(NetworkError::other(concatenated("Compression failed: ", &t))),
        }
    }
}

/// Decompression processor.
#[derive(Debug, Clone, Copy)]
pub struct DecompressionProcessor;

impl MessageProcessor for DecompressionProcessor {
    open spec fn gives(&self, payload: Seq<u8>, outcome: Result<Seq<u8>, ErrorView>) -> bool {
        match gunzipped(payload) {
            Ok(d) => outcome == Ok::<Seq<u8>, ErrorView>(d),
            Err(t) => outcome == failure::<Seq<u8>>("Decompression failed: "@, t),
        }
    }

    fn process(&self, message: Message) -> (r: Result<Message, NetworkError>) {
        match gunzip(message.as_slice()) {
            Ok(decompressed) => Ok(Message::new(decompressed)),
            Err(t) => Err(NetworkError::other(concatenated("Decompression failed: ", &t))),
        }
    }
}

/// Bytes combined with a key that is repeated as often as needed, by exclusive or.
pub open spec fn masked(data: Seq<u8>, key: Seq<u8>) -> Seq<u8> {
    Seq::new(data.len(), |i: int| data[i] ^ key[i % key.len() as int])
}

/// Encryption processor. This is a simple example: use real cryptography in production.
#[derive(Debug)]
pub struct EncryptionProcessor {
    key: Vec<u8>,
}

impl View for EncryptionProcessor {
    type V = Seq<u8>;

    closed spec fn view(&self) -> Seq<u8> {
        self.key@
    }
}

impl EncryptionProcessor {
    /// Creates a new encryption processor with a key.
    pub fn new(key: Vec<u8>) -> (p: EncryptionProcessor)
        ensures
            p@ == key@,
    {
        EncryptionProcessor { key }
    }
}

impl MessageProcessor for EncryptionProcessor {
    open spec fn gives(&self, payload: Seq<u8>, outcome: Result<Seq<u8>, ErrorView>) -> bool {
        outcome == if self@.len() == 0 {
            Err(ErrorView::Other("Encryption key is empty"@))
        } else {
            Ok(masked(payload, self@))
        }
    }

    fn process(&self, message: Message) -> (r: Result<Message, NetworkError>) {
        if self.key.len() == 0 {
            return Err(NetworkError::other("Encryption key is empty"));
        }
        let data = message.as_slice();
        let mut encrypted: Vec<u8> = Vec::with_capacity(data.len());
        let mut i: usize = 0;
        while i < data.len()
            invariant
                i <= data@.len(),
                self.key@.len() > 0,
                encrypted@.len() == i,
                forall|k: int|
                    0 <= k < i ==> #[trigger] encrypted@[k] == data@[k] ^ self.key@[k
                        % self.key@.len() as int],
            decreases data@.len() - i,
        {
            let byte: u8 = data[i];
            let key_byte: u8 = self.key[i % self.key.len()];
            encrypted.push(byte ^ key_byte);
            i = i + 1;
        }
        assert(encrypted@ =~= masked(message@, self.key@));
        Ok(Message::new(encrypted))
    }
}

impl<P: MessageProcessor + ?Sized> MessageProcessor for Arc<P> {
    open spec fn gives(&self, payload: Seq<u8>, outcome: Result<Seq<u8>, ErrorView>) -> bool {
        (**self).gives(payload, outcome)
    }

    fn process(&self, message: Message) -> (r: Result<Message, NetworkError>) {
        (**self).process(message)
    }
}

/// One processor after another: the second gets what the first made, unless that failed.
#[derive(Debug)]
pub struct Chained<A, B> {
    first: A,
    second: B,
}

impl<A, B> Chained<A, B> {
    /// The processor that comes first.
    pub closed spec fn first_of(self) -> A {
        self.first
    }

    /// The processor that comes second.
    pub closed spec fn second_of(self) -> B {
        self.second
    }
}

impl<A: MessageProcessor, B: MessageProcessor> MessageProcessor for Chained<A, B> {
    open spec fn gives(&self, payload: Seq<u8>, outcome: Result<Seq<u8>, ErrorView>) -> bool {
        exists|made: Result<Seq<u8>, ErrorView>|
            #[trigger] self.first_of().gives(payload, made) && match made {
                Ok(p) => self.second_of().gives(p, outcome),
                Err(e) => outcome == Err::<Seq<u8>, ErrorView>(e),
            }
    }

    fn process(&self, message: Message) -> (r: Result<Message, NetworkError>) {
        let made = self.first.process(message);
        assert(self.first_of().gives(message@, processed(made)));
        match made {
            Ok(m) => self.second.process(m),
            Err(e) => Err(e),
        }
    }
}

/// Whether a processor that gets what was made before can come to an outcome: a failure is
/// handed on as it is.
pub open spec fn handed_on<P: MessageProcessor>(
    processor: P,
    made: Result<Seq<u8>, ErrorView>,
    outcome: Result<Seq<u8>, ErrorView>,
) -> bool {
    match made {
        Ok(p) => processor.gives(p, outcome),
        Err(e) => outcome == Err::<Seq<u8>, ErrorView>(e),
    }
}

/// Whether the processors of a list, one after another, can bring a payload to an outcome:
/// each gets what the one before made, and the first failure ends it.
pub open spec fn run_through<P: MessageProcessor>(
    list: Seq<P>,
    payload: Seq<u8>,
    outcome: Result<Seq<u8>, ErrorView>,
) -> bool
    decreases list.len(),
{
    if list.len() == 0 {
        outcome == Ok::<Seq<u8>, ErrorView>(payload)
    } else {
        exists|made: Result<Seq<u8>, ErrorView>|
            run_through(list.drop_last(), payload, made) && #[trigger] handed_on(
                list.last(),
                made,
                outcome,
            )
    }
}

/// A failure of the first processors of a list is that of all of them.
proof fn lemma_failure_ends<P: MessageProcessor>(
    list: Seq<P>,
    n: int,
    payload: Seq<u8>,
    e: ErrorView,
)
    requires
        0 <= n <= list.len(),
        run_through(list.take(n), payload, Err(e)),
    ensures
        run_through(list, payload, Err(e)),
    decreases list.len(),
{
    if n == list.len() {
        assert(list.take(n) =~= list);
    } else {
        assert(list.drop_last().take(n) =~= list.take(n));
        lemma_failure_ends(list.drop_last(), n, payload, e);
        assert(handed_on(list.last(), Err(e), Err(e)));
    }
}

/// A list of processors, whose length may be settled while the program runs, applies them
/// in order.
impl<P: MessageProcessor> MessageProcessor for Vec<P> {
    open spec fn gives(&self, payload: Seq<u8>, outcome: Result<Seq<u8>, ErrorView>) -> bool {
        run_through(self@, payload, outcome)
    }

    fn process(&self, message: Message) -> (r: Result<Message, NetworkError>) {
        let ghost payload = message@;
        let mut current = message;
        let mut i: usize = 0;
        while i < self.len()
            invariant
                i <= self@.len(),
                payload == message@,
                run_through(self@.take(i as int), payload, Ok(current@)),
            decreases self@.len() - i,
        {
            let ghost held = current@;
            let made = self[i].process(current);
            proof {
                let done = self@.take(i + 1);
                assert(done.drop_last() =~= self@.take(i as int));
                assert(done.last() == self@[i as int]);
                assert(handed_on(done.last(), Ok(held), processed(made)));
                assert(run_through(done, payload, processed(made)));
            }
            match made {
                Ok(m) => {
                    current = m;
                },
                Err(e) => {
                    proof {
                        lemma_failure_ends(self@, i + 1, payload, e@);
                    }
                    return Err(e);
                },
            }
            i = i + 1;
        }
        assert(self@.take(self@.len() as int) =~= self@);
        Ok(current)
    }
}

/// Message processing pipeline that chains multiple processors.
#[derive(Debug)]
pub struct ProcessorPipeline<P> {
    chain: P,
}

impl<P> ProcessorPipeline<P> {
    /// The processors, chained.
    pub closed spec fn processors(self) -> P {
        self.chain
    }
}

impl ProcessorPipeline<IdentityProcessor> {
    /// Creates a new empty pipeline, which changes nothing.
    pub fn new() -> (p: ProcessorPipeline<IdentityProcessor>)
        ensures
            p.processors() == IdentityProcessor,
    {
        ProcessorPipeline { chain: IdentityProcessor }
    }
}

impl<P: MessageProcessor> ProcessorPipeline<Vec<P>> {
    /// Creates a pipeline of a list of processors, which may have any length.
    pub fn of(processors: Vec<P>) -> (p: ProcessorPipeline<Vec<P>>)
        ensures
            p.processors() == processors,
    {
        ProcessorPipeline { chain: processors }
    }
}

impl<P: MessageProcessor> ProcessorPipeline<P> {
    /// Adds a processor to the end of the pipeline.
    pub fn add<Q: MessageProcessor>(self, processor: Q) -> (p: ProcessorPipeline<Chained<P, Q>>)
        ensures
            p.processors().first_of() == self.processors(),
            p.processors().second_of() == processor,
    {
        ProcessorPipeline { chain: Chained { first: self.chain, second: processor } }
    }

    /// Adds a shared processor to the end of the pipeline.
    pub fn add_arc<Q: MessageProcessor + ?Sized>(self, processor: Arc<Q>) -> (p: ProcessorPipeline<
        Chained<P, Arc<Q>>,
    >)
        ensures
            p.processors().first_of() == self.processors(),
            p.processors().second_of() == processor,
    {
        ProcessorPipeline { chain: Chained { first: self.chain, second: processor } }
    }
}

impl Default for ProcessorPipeline<IdentityProcessor> {
    fn default() -> (p: ProcessorPipeline<IdentityProcessor>)
        ensures
            p.processors() == IdentityProcessor,
    {
        ProcessorPipeline::new()
    }
}

impl<P: MessageProcessor> MessageProcessor for ProcessorPipeline<P> {
    open spec fn gives(&self, payload: Seq<u8>, outcome: Result<Seq<u8>, ErrorView>) -> bool {
        self.processors().gives(payload, outcome)
    }

    fn process(&self, message: Message) -> (r: Result<Message, NetworkError>) {
        self.chain.process(message)
    }
}

/// What became of a job that was to process a message for a session.
#[derive(Debug)]
pub enum JobOutcome {
    /// The job was not taken, and why.
    NotSubmitted(String),
    /// The job was given up before it ended.
    Cancelled,
    /// The job ended with this.
    Done(Result<Message, NetworkError>),
}

/// The line that is logged for a job of a session that brought no message.
pub open spec fn job_line(session_id: nat, outcome: JobOutcome) -> Seq<char> {
    match outcome {
        JobOutcome::NotSubmitted(t) => "Failed to submit job to thread pool for session "@
            + text::decimal(session_id) + ": "@ + t@,
        JobOutcome::Cancelled => "Thread pool job cancelled for session "@ + text::decimal(
            session_id,
        ),
        JobOutcome::Done(r) => match r {
            Ok(_) => Seq::empty(),
            Err(e) => "Message processing failed for session "@ + text::decimal(session_id)
                + ": "@ + e@.display(),
        },
    }
}

/// A line about a session.
fn session_line(prefix: &str, session_id: u128, detail: &str) -> (line: String)
    ensures
        line@ == prefix@ + text::decimal(session_id as nat) + detail@,
{
    let mut line = prefix.to_owned();
    push_decimal(&mut line, session_id);
    line.append(detail);
    line
}

/// The message that a job brought, to be handed on, or the line that is to be logged.
pub fn job_result(session_id: u128, outcome: JobOutcome) -> (r: Result<Message, String>)
    ensures
        match r {
            Ok(m) => outcome matches JobOutcome::Done(Ok(n)) && m == n,
            Err(line) => !(outcome matches JobOutcome::Done(Ok(_))) && line@ == job_line(
                session_id as nat,
                outcome,
            ),
        },
{
    match outcome {
        JobOutcome::NotSubmitted(t) => {
            let detail = concatenated(": ", &t);
            let line = session_line(
                "Failed to submit job to thread pool for session ",
                session_id,
                detail.as_str(),
            );
            assert(line@ =~= job_line(session_id as nat, outcome));
            Err(line)
        },
        JobOutcome::Cancelled => {
            let line = session_line("Thread pool job cancelled for session ", session_id, "");
            proof {
                reveal_strlit("");
                assert(line@ =~= job_line(session_id as nat, outcome));
            }
            Err(line)
        },
        JobOutcome::Done(result) => match result {
            Ok(m) => Ok(m),
            Err(e) => {
                let detail = concatenated(": ", &e.to_string());
                let line = session_line(
                    "Message processing failed for session ",
                    session_id,
                    detail.as_str(),
                );
                assert(line@ =~= job_line(session_id as nat, outcome));
                Err(line)
            },
        },
    }
}

/// Encrypting twice with the same key gives back what was there.
pub proof fn encryption_undoes_itself(payload: Seq<u8>, key: Seq<u8>)
    requires
        key.len() > 0,
    ensures
        masked(masked(payload, key), key) == payload,
{
    assert forall|i: int| 0 <= i < payload.len() implies masked(masked(payload, key), key)[i]
        == #[trigger] payload[i] by {
        let a = payload[i];
        let k = key[i % key.len() as int];
        assert((a ^ k) ^ k == a) by (bit_vector);
    }
    assert(masked(masked(payload, key), key) =~= payload);
}

/// What a processor with a key encrypts, a processor with the same key decrypts.
pub proof fn encryption_roundtrip(
    encrypt: EncryptionProcessor,
    decrypt: EncryptionProcessor,
    payload: Seq<u8>,
    between: Seq<u8>,
    outcome: Result<Seq<u8>, ErrorView>,
)
    requires
        encrypt@ == decrypt@,
        encrypt.gives(payload, Ok(between)),
        decrypt.gives(between, outcome),
    ensures
        outcome == Ok::<Seq<u8>, ErrorView>(payload),
{
    encryption_undoes_itself(payload, encrypt@);
}

/// What was compressed, at any level, decompresses to what it was.
pub proof fn compression_roundtrip(
    compress: CompressionProcessor,
    decompress: DecompressionProcessor,
    payload: Seq<u8>,
    between: Seq<u8>,
    outcome: Result<Seq<u8>, ErrorView>,
)
    requires
        compress.gives(payload, Ok(between)),
        decompress.gives(between, outcome),
    ensures
        outcome == Ok::<Seq<u8>, ErrorView>(payload),
{
}

/// A pipeline does what its processors do one after another, each with what the one
/// before made, and ends with the first failure.
pub proof fn pipeline_applies_in_order<P: MessageProcessor, Q: MessageProcessor>(
    chain: Chained<P, Q>,
    payload: Seq<u8>,
    outcome: Result<Seq<u8>, ErrorView>,
)
    requires
        chain.gives(payload, outcome),
    ensures
        (exists|between: Seq<u8>|
            chain.first_of().gives(payload, Ok(between)) && #[trigger] chain.second_of().gives(
                between,
                outcome,
            )) || (outcome is Err && chain.first_of().gives(payload, outcome)),
{
}

/// A list of processors applies them in order: an empty one changes nothing, and one more
/// processor at the end gets what the others made, or their failure is handed on.
pub proof fn list_applies_in_order<P: MessageProcessor>(
    list: Seq<P>,
    processor: P,
    payload: Seq<u8>,
    outcome: Result<Seq<u8>, ErrorView>,
)
    ensures
        run_through(Seq::<P>::empty(), payload, outcome) <==> outcome == Ok::<Seq<u8>, ErrorView>(
            payload,
        ),
        run_through(list.push(processor), payload, outcome) <==> exists|made: Result<
            Seq<u8>,
            ErrorView,
        >|
            run_through(list, payload, made) && #[trigger] handed_on(processor, made, outcome),
{
    let all = list.push(processor);
    assert(all.drop_last() =~= list);
    assert(all.last() == processor);
    if run_through(all, payload, outcome) {
        let made = choose|made: Result<Seq<u8>, ErrorView>|
            run_through(all.drop_last(), payload, made) && #[trigger] handed_on(
                all.last(),
                made,
                outcome,
            );
        assert(run_through(list, payload, made) && handed_on(processor, made, outcome));
    }
    if exists|made: Result<Seq<u8>, ErrorView>|
        run_through(list, payload, made) && #[trigger] handed_on(processor, made, outcome) {
        let made = choose|made: Result<Seq<u8>, ErrorView>|
            run_through(list, payload, made) && #[trigger] handed_on(processor, made, outcome);
        assert(handed_on(all.last(), made, outcome));
    }
}

/// Encryption mixes the key into every byte, over and over: what a byte and its encrypted
/// form differ by is the byte of the key that its place falls on.
pub proof fn encryption_mixes_key_in(payload: Seq<u8>, key: Seq<u8>, i: int)
    requires
        key.len() > 0,
        0 <= i < payload.len(),
    ensures
        masked(payload, key).len() == payload.len(),
        masked(payload, key)[i] ^ payload[i] == key[i % key.len() as int],
{
    let a = payload[i];
    let k = key[i % key.len() as int];
    assert((a ^ k) ^ a == k) by (bit_vector);
}

/// With a key everything is encrypted; without one nothing is.
pub proof fn encryption_needs_a_key(
    p: EncryptionProcessor,
    payload: Seq<u8>,
    outcome: Result<Seq<u8>, ErrorView>,
)
    requires
        p.gives(payload, outcome),
    ensures
        p@.len() == 0 ==> outcome == Err::<Seq<u8>, ErrorView>(
            ErrorView::Other("Encryption key is empty"@),
        ),
        p@.len() > 0 ==> (outcome matches Ok(made) && made.len() == payload.len() && forall|i: int|
            0 <= i < made.len() ==> #[trigger] made[i] ^ payload[i] == p@[i % p@.len() as int]),
{
    if p@.len() > 0 {
        let made = outcome->Ok_0;
        assert forall|i: int| 0 <= i < made.len() implies #[trigger] made[i] ^ payload[i] == p@[i
            % p@.len() as int] by {
            encryption_mixes_key_in(payload, p@, i);
        }
    }
}

/// Compression makes the gzip form of a payload at the level of the processor, decompression
/// reads that form, and either tells what failed.
pub proof fn compression_is_gzip(
    compress: CompressionProcessor,
    decompress: DecompressionProcessor,
    payload: Seq<u8>,
    made: Result<Seq<u8>, ErrorView>,
    read: Result<Seq<u8>, ErrorView>,
)
    requires
        compress.gives(payload, made),
        decompress.gives(payload, read),
    ensures
        gzipped(payload, compress.strength()) matches Ok(z) ==> made == Ok::<Seq<u8>, ErrorView>(z),
        gzipped(payload, compress.strength()) matches Err(t) ==> made == Err::<Seq<u8>, ErrorView>(
            ErrorView::Other("Compression failed: "@ + t),
        ),
        gunzipped(payload) matches Ok(d) ==> read == Ok::<Seq<u8>, ErrorView>(d),
        gunzipped(payload) matches Err(t) ==> read == Err::<Seq<u8>, ErrorView>(
            ErrorView::Other("Decompression failed: "@ + t),
        ),
{
}

/// A failure is handed on as it is, and no further processor runs; what was made is handed
/// to the next processor.
pub proof fn failures_are_handed_on<P: MessageProcessor>(
    processor: P,
    payload: Seq<u8>,
    e: ErrorView,
    outcome: Result<Seq<u8>, ErrorView>,
)
    ensures
        handed_on(processor, Err(e), outcome) <==> outcome == Err::<Seq<u8>, ErrorView>(e),
        handed_on(processor, Ok(payload), outcome) <==> processor.gives(payload, outcome),
{
}

/// The line that is logged for a job tells its session, and why it brought no message.
pub proof fn job_lines_tell_why(session_id: nat, t: String, e: NetworkError)
    ensures
        job_line(session_id, JobOutcome::NotSubmitted(t))
            == "Failed to submit job to thread pool for session "@ + text::decimal(session_id)
            + ": "@ + t@,
        job_line(session_id, JobOutcome::Cancelled) == "Thread pool job cancelled for session "@
            + text::decimal(session_id),
        job_line(session_id, JobOutcome::Done(Err(e))) == "Message processing failed for session "@
            + text::decimal(session_id) + ": "@ + e@.display(),
{
}

} // verus!

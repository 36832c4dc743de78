//! HTTP chunked transfer encoding on the gateway channels.
//!
//! Data format:
//! ```text
//! [size in hex]\r\n
//! [data]\r\n
//! 0\r\n
//! \r\n
//! ```
//!
//! The IN channel writes every payload as one chunk; the OUT channel is
//! decoded incrementally by a state machine (`ChunkedState`), driven one read
//! at a time by `GatewayReadState`.
use vstd::prelude::*;
use vstd::utf8::{decode_utf8, valid_utf8};

use crate::text::{chars_of, parse_hex_usize, parse_hex_usize_in, trim, trim_bounds};

verus! {

// ---------------------------------------------------------------------------
// Writing chunks
// ---------------------------------------------------------------------------

/// Uppercase hexadecimal digit for `d < 16`.
pub open spec fn hex_digit(d: nat) -> u8 {
    if d < 10 {
        (48 + d) as u8
    } else {
        (55 + d) as u8
    }
}

/// `format!("{:X}", n)`: uppercase hexadecimal without leading zeros.
pub open spec fn hex_upper(n: nat) -> Seq<u8>
    decreases n,
{
    if n < 16 {
        seq![hex_digit(n)]
    } else {
        hex_upper(n / 16).push(hex_digit(n % 16))
    }
}

pub open spec fn crlf() -> Seq<u8> {
    seq![13u8, 10u8]
}

/// One chunk: size line, data, and the trailing CRLF.
pub open spec fn chunk_frame(data: Seq<u8>) -> Seq<u8> {
    hex_upper(data.len()) + crlf() + data + crlf()
}

fn push_hex(out: &mut Vec<u8>, n: usize)
    ensures
        final(out)@ == old(out)@ + hex_upper(n as nat),
    decreases n,
{
    if n >= 16 {
        push_hex(out, n / 16);
    }
    let d = (n % 16) as u8;
    let c = if d < 10 {
        48 + d
    } else {
        55 + d
    };
    out.push(c);
    assert(final(out)@ =~= old(out)@ + hex_upper(n as nat));
}

/// The bytes that write `data` as one HTTP chunk: size in hexadecimal,
/// CRLF, the data, CRLF.
pub fn encode_chunk(data: &[u8]) -> (r: Vec<u8>)
    ensures
        r@ == chunk_frame(data@),
{
    let mut out: Vec<u8> = Vec::new();
    push_hex(&mut out, data.len());
    out.push(13);
    out.push(10);
    let mut i: usize = 0;
    let ghost head = out@;
    while i < data.len()
        invariant
            i <= data@.len(),
            out@ == head + data@.take(i as int),
        decreases data@.len() - i,
    {
        out.push(data[i]);
        assert(data@.take(i + 1) =~= data@.take(i as int).push(data@[i as int]));
        i = i + 1;
    }
    assert(data@.take(data@.len() as int) =~= data@);
    out.push(13);
    out.push(10);
    assert(out@ =~= chunk_frame(data@));
    out
}

// ---------------------------------------------------------------------------
// Reading the size line
// ---------------------------------------------------------------------------

/// What `String::from_utf8_lossy` returns for bytes that are not valid UTF-8.
pub uninterp spec fn utf8_lossy(b: Seq<u8>) -> Seq<char>;

/// The text of bytes read leniently: valid UTF-8 is the text it encodes;
/// otherwise what `String::from_utf8_lossy` makes of it.
pub open spec fn lossy_text(b: Seq<u8>) -> Seq<char> {
    if valid_utf8(b) {
        decode_utf8(b)
    } else {
        utf8_lossy(b)
    }
}

/// Calls `String::from_utf8_lossy`, which returns valid UTF-8 as the text it
/// encodes and replaces invalid sequences with U+FFFD; for invalid input the
/// result is named `utf8_lossy`.
#[verifier::external_body]
pub(crate) fn from_utf8_lossy(b: &[u8]) -> (r: String)
    ensures
        r@ == (if valid_utf8(b@) {
            decode_utf8(b@)
        } else {
            utf8_lossy(b@)
        }),
{
    String::from_utf8_lossy(b).into_owned()
}

/// The chunk size that a complete size line (ending in `\n`) announces: the
/// line read as text, trimmed, and parsed as hexadecimal.
pub open spec fn chunk_size_of(line: Seq<u8>) -> Option<usize> {
    parse_hex_usize(trim(lossy_text(line)))
}

fn parse_chunk_size(line: &Vec<u8>) -> (r: Option<usize>)
    ensures
        r == chunk_size_of(line@),
{
    let text = from_utf8_lossy(line.as_slice());
    let cs = chars_of(text.as_str());
    let (a, b) = trim_bounds(&cs, 0, cs.len());
    assert(cs@.subrange(0, cs@.len() as int) =~= cs@);
    parse_hex_usize_in(&cs, a, b)
}

// ---------------------------------------------------------------------------
// The decoder state machine
// ---------------------------------------------------------------------------

#[derive(Debug, Clone, Copy, PartialEq, Eq, Structural)]
pub enum ChunkPhase {
    LengthHeader,  // Reading chunk size (hex format)
    Data,  // Reading chunk data
    Footer,  // Reading trailing \r\n
    End,  // End of stream
}

/// Why reading the chunked stream failed.
#[derive(Debug, Clone, Copy, PartialEq, Eq, Structural)]
pub enum ChunkError {
    /// The size line is not a hexadecimal number
    InvalidChunkSize,
    /// The size line grew beyond 20 bytes
    HeaderTooLong,
    /// The stream ended inside chunk data
    EofInData,
    /// The stream ended inside the CRLF after chunk data
    EofInFooter,
    /// The channel reported an error
    Io,
}

pub struct ChunkedStateView {
    pub phase: ChunkPhase,
    pub next_offset: nat,
    pub header_footer_pos: nat,
    pub len_buffer: Seq<u8>,
}

/// What a size-line byte did.
pub enum HeaderEvent {
    /// The size line goes on
    Pending,
    /// A chunk of data starts
    Started,
    /// The zero-size chunk ends the stream
    Ended,
    /// The size line is malformed
    Failed(ChunkError),
}

pub open spec fn initial_view() -> ChunkedStateView {
    ChunkedStateView {
        phase: ChunkPhase::LengthHeader,
        next_offset: 0,
        header_footer_pos: 0,
        len_buffer: Seq::empty(),
    }
}

/// A byte of the size line: it is buffered; at `\n` the size is parsed (0 ends
/// the stream, another size starts a chunk and clears the buffer); a buffer
/// longer than 20 bytes is an error.
pub open spec fn header_step(s: ChunkedStateView, b: u8) -> (ChunkedStateView, HeaderEvent) {
    let buf = s.len_buffer.push(b);
    let s1 = ChunkedStateView { len_buffer: buf, ..s };
    if b == 10 {
        match chunk_size_of(buf) {
            None => (s1, HeaderEvent::Failed(ChunkError::InvalidChunkSize)),
            Some(n) => if n == 0 {
                (ChunkedStateView { phase: ChunkPhase::End, ..s1 }, HeaderEvent::Ended)
            } else {
                (
                    ChunkedStateView {
                        phase: ChunkPhase::Data,
                        next_offset: n as nat,
                        len_buffer: Seq::empty(),
                        ..s
                    },
                    HeaderEvent::Started,
                )
            },
        }
    } else if buf.len() > 20 {
        (s1, HeaderEvent::Failed(ChunkError::HeaderTooLong))
    } else {
        (s1, HeaderEvent::Pending)
    }
}

/// `n` bytes of chunk data; the chunk's end leads to its footer.
pub open spec fn data_step(s: ChunkedStateView, n: nat) -> ChunkedStateView {
    let rest = (s.next_offset - n) as nat;
    if rest == 0 {
        ChunkedStateView { phase: ChunkPhase::Footer, next_offset: 0, header_footer_pos: 0, ..s }
    } else {
        ChunkedStateView { next_offset: rest, ..s }
    }
}

/// A byte of the CRLF after chunk data (its value is not checked); after two
/// bytes the next size line starts.
pub open spec fn footer_step(s: ChunkedStateView) -> ChunkedStateView {
    if s.header_footer_pos + 1 == 2 {
        ChunkedStateView { phase: ChunkPhase::LengthHeader, header_footer_pos: 0, ..s }
    } else {
        ChunkedStateView { header_footer_pos: s.header_footer_pos + 1, ..s }
    }
}

/// The decoder run over a byte stream: the state it reaches (or its error)
/// and the data it yields. Bytes after the end of the stream are not read.
pub open spec fn feed(s: ChunkedStateView, bs: Seq<u8>) -> (Result<ChunkedStateView, ChunkError>, Seq<u8>)
    decreases bs.len(),
{
    if bs.len() == 0 || s.phase == ChunkPhase::End {
        (Ok(s), Seq::empty())
    } else if s.phase == ChunkPhase::LengthHeader {
        let (s2, ev) = header_step(s, bs[0]);
        match ev {
            HeaderEvent::Failed(e) => (Err(e), Seq::empty()),
            _ => feed(s2, bs.drop_first()),
        }
    } else if s.phase == ChunkPhase::Data {
        let (r, out) = feed(data_step(s, 1), bs.drop_first());
        (r, seq![bs[0]] + out)
    } else {
        feed(footer_step(s), bs.drop_first())
    }
}

/// State machine for HTTP chunked transfer encoding decoder
///
/// This tracks the current position in the chunk reading process.
#[derive(Debug)]
pub struct ChunkedState {
    state: ChunkPhase,
    next_offset: usize,  // Bytes remaining in current chunk
    header_footer_pos: usize,  // Position in header/footer reading
    len_buffer: Vec<u8>,  // Buffer for hex size reading
}

impl View for ChunkedState {
    type V = ChunkedStateView;

    closed spec fn view(&self) -> ChunkedStateView {
        ChunkedStateView {
            phase: self.state,
            next_offset: self.next_offset as nat,
            header_footer_pos: self.header_footer_pos as nat,
            len_buffer: self.len_buffer@,
        }
    }
}

impl ChunkedState {
    /// A decoder at the start of a size line.
    pub fn new() -> (r: Self)
        ensures
            r@ == initial_view(),
    {
        Self {
            state: ChunkPhase::LengthHeader,
            next_offset: 0,
            header_footer_pos: 0,
            len_buffer: Vec::new(),
        }
    }

    pub fn phase(&self) -> (r: ChunkPhase)
        ensures
            r == self@.phase,
    {
        self.state
    }

    pub fn remaining_in_chunk(&self) -> (r: usize)
        ensures
            r == self@.next_offset,
    {
        self.next_offset
    }

    /// Consumes one byte of a size line.
    pub fn header_byte(&mut self, b: u8) -> (ev: HeaderEvent)
        requires
            old(self)@.phase == ChunkPhase::LengthHeader,
        ensures
            (final(self)@, ev) == header_step(old(self)@, b),
    {
        self.len_buffer.push(b);
        if b == 10 {
            match parse_chunk_size(&self.len_buffer) {
                None => {
                    return HeaderEvent::Failed(ChunkError::InvalidChunkSize);
                },
                Some(n) => {
                    if n == 0 {
                        self.state = ChunkPhase::End;
                        return HeaderEvent::Ended;
                    }
                    self.next_offset = n;
                    self.state = ChunkPhase::Data;
                    self.len_buffer = Vec::new();
                    assert(self@ == header_step(old(self)@, b).0);
                    return HeaderEvent::Started;
                },
            }
        }
        if self.len_buffer.len() > 20 {
            return HeaderEvent::Failed(ChunkError::HeaderTooLong);
        }
        HeaderEvent::Pending
    }

    /// Consumes `n` bytes of chunk data.
    pub fn data_consumed(&mut self, n: usize)
        requires
            old(self)@.phase == ChunkPhase::Data,
            n <= old(self)@.next_offset,
        ensures
            final(self)@ == data_step(old(self)@, n as nat),
    {
        self.next_offset = self.next_offset - n;
        if self.next_offset == 0 {
            self.state = ChunkPhase::Footer;
            self.header_footer_pos = 0;
        }
    }

    /// Consumes one byte of the CRLF after chunk data.
    pub fn footer_byte(&mut self)
        requires
            old(self)@.phase == ChunkPhase::Footer,
            old(self)@.header_footer_pos < 2,
        ensures
            final(self)@ == footer_step(old(self)@),
    {
        self.header_footer_pos = self.header_footer_pos + 1;
        if self.header_footer_pos == 2 {
            self.state = ChunkPhase::LengthHeader;
            self.header_footer_pos = 0;
        }
    }
}

// ---------------------------------------------------------------------------
// One read of the OUT channel
// ---------------------------------------------------------------------------

/// How a read of the decoded stream ends.
#[derive(Debug, Clone, Copy, PartialEq, Eq, Structural)]
pub enum ReadOutcome {
    /// This many bytes were delivered (0: end of stream, or an empty buffer)
    Read(usize),
    /// Nothing could be delivered yet: the channel would block
    WouldBlock,
    /// The read failed
    Failed(ChunkError),
}

/// What a read needs next.
#[derive(Debug, Clone, Copy, PartialEq, Eq, Structural)]
pub enum ReadStep {
    /// Take the next step without new input
    Continue,
    /// Read one byte from the channel and hand it to `on_byte`
    NeedByte,
    /// Read at most this many bytes from the channel and hand them to `on_data`
    NeedData(usize),
    /// The read is over
    Done(ReadOutcome),
}

/// What the channel gave for a one-byte read.
#[derive(Debug, Clone, Copy, PartialEq, Eq, Structural)]
pub enum ByteInput {
    Byte(u8),
    Eof,
    WouldBlock,
    Error,
}

/// What the channel gave for a read of chunk data.
#[derive(Debug)]
pub enum DataInput {
    /// The bytes read (none: end of stream)
    Bytes(Vec<u8>),
    WouldBlock,
    Error,
}

/// What a read is waiting for.
#[derive(Debug, Clone, Copy, PartialEq, Eq, Structural)]
pub enum Awaiting {
    Nothing,
    Byte,
    Data(usize),
}

/// A read in progress into a buffer of `capacity` bytes.
pub struct ReadCall {
    capacity: usize,
    out: Vec<u8>,  // Decoded bytes delivered so far
    pending_part: usize,  // Bytes of the current data step taken from pending bytes
    awaiting: Awaiting,
    start: Ghost<ChunkedStateView>,  // The decoder state when the read began
    taken: Ghost<Seq<u8>>,  // The raw bytes handed to the decoder by this read
}

impl ReadCall {
    pub closed spec fn capacity(&self) -> nat {
        self.capacity as nat
    }

    pub closed spec fn out(&self) -> Seq<u8> {
        self.out@
    }

    pub closed spec fn awaiting(&self) -> Awaiting {
        self.awaiting
    }

    pub closed spec fn pending_part(&self) -> nat {
        self.pending_part as nat
    }

    pub closed spec fn start(&self) -> ChunkedStateView {
        self.start@
    }

    pub closed spec fn taken(&self) -> Seq<u8> {
        self.taken@
    }

    /// The call's own bounds: output within capacity, a data step within the output.
    pub closed spec fn wf(&self) -> bool {
        &&& self.out@.len() <= self.capacity
        &&& self.pending_part <= self.out@.len()
        &&& (self.awaiting matches Awaiting::Data(k) ==> k > 0 && self.out@.len() + k
            <= self.capacity)
        &&& (!(self.awaiting is Data) ==> self.pending_part == 0)
    }

    /// The bytes delivered by the read.
    pub fn data(&self) -> (r: &Vec<u8>)
        ensures
            r@ == self.out(),
    {
        &self.out
    }
}

/// What a read has handed the decoder so far: the raw bytes it took, fed from
/// the state the read began in, lead to `chunk` and yield the data delivered
/// so far, except its last `pending_part` bytes, which are still to be handed
/// over.
pub open spec fn decodes(call: ReadCall, chunk: ChunkedStateView) -> bool {
    feed(call.start(), call.taken()) == (
        Ok::<ChunkedStateView, ChunkError>(chunk),
        call.out().take(call.out().len() - call.pending_part()),
    )
}

/// The decoding state of the OUT channel: raw bytes not yet decoded, and the
/// chunk decoder.
///
/// Data written to the gateway goes through the IN channel as chunks; data
/// read comes from the OUT channel through this state. The raw bytes held
/// here are never more than the channel gave: the seed payload after the
/// HTTP response is skipped, so every read takes its bytes from the channel.
/// Once the last chunk has been read the decoder stays at its end, and every
/// later read delivers nothing without asking the channel for input.
pub struct GatewayReadState {
    pending_bytes: Vec<u8>,  // Raw HTTP bytes not yet processed by chunked decoder
    pending_pos: usize,
    chunk_state: ChunkedState,
}

pub struct GatewayReadView {
    pub pending: Seq<u8>,
    pub pending_pos: nat,
    pub chunk: ChunkedStateView,
}

impl View for GatewayReadState {
    type V = GatewayReadView;

    closed spec fn view(&self) -> GatewayReadView {
        GatewayReadView {
            pending: self.pending_bytes@,
            pending_pos: self.pending_pos as nat,
            chunk: self.chunk_state@,
        }
    }
}

/// What every read keeps: no raw bytes wait undecoded, and the decoder's
/// own bounds.
pub open spec fn read_view_wf(v: GatewayReadView) -> bool {
    &&& v.pending_pos == v.pending.len()
    &&& (v.chunk.phase == ChunkPhase::Data ==> v.chunk.next_offset > 0)
    &&& (v.chunk.phase == ChunkPhase::Footer ==> v.chunk.header_footer_pos < 2)
}

/// The end of a step after a size-line byte.
pub open spec fn after_header(ev: HeaderEvent, eff: nat) -> ReadStep {
    match ev {
        HeaderEvent::Failed(e) => ReadStep::Done(ReadOutcome::Failed(e)),
        HeaderEvent::Ended => ReadStep::Done(ReadOutcome::Read(eff as usize)),
        _ => ReadStep::Continue,
    }
}

/// The end of a step after a footer byte: a finished footer ends a read that
/// delivered data.
pub open spec fn after_footer(c: ChunkedStateView, eff: nat) -> ReadStep {
    if c.phase == ChunkPhase::LengthHeader && eff > 0 {
        ReadStep::Done(ReadOutcome::Read(eff as usize))
    } else {
        ReadStep::Continue
    }
}

/// The end of a step after data: a full buffer ends the read.
pub open spec fn after_data(eff: nat, capacity: nat) -> ReadStep {
    if eff == capacity {
        ReadStep::Done(ReadOutcome::Read(eff as usize))
    } else {
        ReadStep::Continue
    }
}

/// A failure of the channel ends the read with what was delivered, or with the error.
pub open spec fn after_failure(e: ChunkError, eff: nat) -> ReadStep {
    if eff > 0 {
        ReadStep::Done(ReadOutcome::Read(eff as usize))
    } else {
        ReadStep::Done(ReadOutcome::Failed(e))
    }
}

/// Handing the decoder chunk data extends what it yields by that data.
proof fn lemma_commit_decodes(
    start: ChunkedStateView,
    taken: Seq<u8>,
    chunk: ChunkedStateView,
    committed: Seq<u8>,
    d: Seq<u8>,
)
    requires
        feed(start, taken) == (Ok::<ChunkedStateView, ChunkError>(chunk), committed),
        chunk.phase == ChunkPhase::Data,
        0 < d.len() <= chunk.next_offset,
    ensures
        feed(start, taken + d) == (
            Ok::<ChunkedStateView, ChunkError>(data_step(chunk, d.len())),
            committed + d,
        ),
{
    lemma_feed_append(start, taken, d);
    lemma_feed_data_block(chunk, d, Seq::empty());
    assert(d + Seq::<u8>::empty() =~= d);
    assert(d + Seq::<u8>::empty() =~= d);
}

/// Handing the decoder a byte of a size line or footer yields no data.
proof fn lemma_byte_decodes(
    start: ChunkedStateView,
    taken: Seq<u8>,
    chunk: ChunkedStateView,
    committed: Seq<u8>,
    b: u8,
)
    requires
        feed(start, taken) == (Ok::<ChunkedStateView, ChunkError>(chunk), committed),
        chunk.phase == ChunkPhase::LengthHeader || chunk.phase == ChunkPhase::Footer,
    ensures
        chunk.phase == ChunkPhase::LengthHeader && !(header_step(chunk, b).1 is Failed) ==> feed(
            start,
            taken.push(b),
        ) == (Ok::<ChunkedStateView, ChunkError>(header_step(chunk, b).0), committed),
        chunk.phase == ChunkPhase::Footer ==> feed(start, taken.push(b)) == (
            Ok::<ChunkedStateView, ChunkError>(footer_step(chunk)),
            committed,
        ),
{
    let bs = seq![b];
    lemma_feed_append(start, taken, bs);
    assert(taken + bs =~= taken.push(b));
    assert(bs.drop_first() =~= Seq::<u8>::empty());
    assert(bs[0] == b);
    assert(committed + Seq::<u8>::empty() =~= committed);
    if chunk.phase == ChunkPhase::LengthHeader {
        let (s2, ev) = header_step(chunk, b);
        if !(ev is Failed) {
            assert(feed(chunk, bs) == feed(s2, Seq::<u8>::empty()));
            assert(feed(s2, Seq::<u8>::empty()) == (
                Ok::<ChunkedStateView, ChunkError>(s2),
                Seq::<u8>::empty(),
            ));
        }
    } else {
        assert(feed(chunk, bs) == feed(footer_step(chunk), Seq::<u8>::empty()));
        assert(feed(footer_step(chunk), Seq::<u8>::empty()) == (
            Ok::<ChunkedStateView, ChunkError>(footer_step(chunk)),
            Seq::<u8>::empty(),
        ));
    }
}

impl GatewayReadState {
    #[verifier::type_invariant]
    spec fn inv(self) -> bool {
        read_view_wf(self@)
    }

    /// A fresh state for a channel whose HTTP response body began with
    /// `seed_payload`.
    ///
    /// Per MS-TSGU, the server sends back the final status code 200 OK and a
    /// random entity body of limited size; this seed payload is skipped
    /// before reading actual chunked data.
    pub fn new(seed_payload: Vec<u8>) -> (r: Self)
        ensures
            r@.pending.len() == 0,
            r@.pending_pos == 0,
            r@.chunk == initial_view(),
    {
        Self {
            pending_bytes: Vec::new(),
            pending_pos: 0,
            chunk_state: ChunkedState::new(),
        }
    }

    /// Starts a read into a buffer of `capacity` bytes: the chunk decoder
    /// takes over from where the last read left it.
    pub fn begin_read(&mut self, capacity: usize) -> (r: (ReadCall, ReadStep))
        ensures
            r.0.wf(),
            r.0.capacity() == capacity,
            r.0.awaiting() == Awaiting::Nothing,
            r.0.out().len() == 0,
            r.0.start() == old(self)@.chunk,
            r.0.taken().len() == 0,
            r.1 == ReadStep::Continue,
            decodes(r.0, final(self)@.chunk),
            final(self)@ == old(self)@,
    {
        let call = ReadCall {
            capacity,
            out: Vec::new(),
            pending_part: 0,
            awaiting: Awaiting::Nothing,
            start: Ghost(self.chunk_state@),
            taken: Ghost(Seq::empty()),
        };
        assert(call.out@.take(0) =~= Seq::<u8>::empty());
        (call, ReadStep::Continue)
    }

    /// Commits `n` bytes of chunk data that are already in the output.
    fn commit_data(&mut self, call: &mut ReadCall, n: usize) -> (r: ReadStep)
        requires
            old(self)@.chunk.phase == ChunkPhase::Data,
            n > 0,
            n <= old(self)@.chunk.next_offset,
            n <= old(call).out().len(),
            old(call).wf(),
        ensures
            final(self)@ == (GatewayReadView { chunk: data_step(old(self)@.chunk, n as nat), ..old(self)@ }),
            final(call).start() == old(call).start(),
            final(call).taken() == old(call).taken() + old(call).out().skip(
                old(call).out().len() - n,
            ),
            feed(old(call).start(), old(call).taken()) == (
                Ok::<ChunkedStateView, ChunkError>(old(self)@.chunk),
                old(call).out().take(old(call).out().len() - n),
            ) ==> decodes(*final(call), final(self)@.chunk),
            final(call).out() == old(call).out(),
            final(call).capacity() == old(call).capacity(),
            final(call).awaiting() == Awaiting::Nothing,
            final(call).wf(),
            r == after_data(old(call).out().len(), old(call).capacity()),
    {
        proof {
            use_type_invariant(&*self);
        }
        let ghost c0 = self.chunk_state@;
        let ghost out = call.out@;
        let ghost d = out.skip(out.len() - n);
        proof {
            if feed(call.start@, call.taken@) == (Ok::<ChunkedStateView, ChunkError>(c0), out.take(out.len() - n)) {
                lemma_commit_decodes(call.start@, call.taken@, c0, out.take(out.len() - n), d);
                assert(out.take(out.len() - n) + d =~= out);
                assert(out.take(out.len() - 0) =~= out);
            }
        }
        let mut cs = ChunkedState::new();
        std::mem::swap(&mut cs, &mut self.chunk_state);
        cs.data_consumed(n);
        self.chunk_state = cs;
        call.awaiting = Awaiting::Nothing;
        call.pending_part = 0;
        call.taken = Ghost(call.taken@ + d);
        if call.out.len() == call.capacity {
            ReadStep::Done(ReadOutcome::Read(call.out.len()))
        } else {
            ReadStep::Continue
        }
    }

    /// Hands a byte of a size line or footer to the decoder.
    fn decode_byte(&mut self, call: &mut ReadCall, b: u8) -> (r: ReadStep)
        requires
            old(self)@.chunk.phase == ChunkPhase::LengthHeader || old(self)@.chunk.phase
                == ChunkPhase::Footer,
            old(call).wf(),
            !(old(call).awaiting() is Data),
        ensures
            final(call).out() == old(call).out(),
            final(call).capacity() == old(call).capacity(),
            final(call).awaiting() == Awaiting::Nothing,
            final(call).wf(),
            final(self)@.pending == old(self)@.pending,
            final(self)@.pending_pos == old(self)@.pending_pos,
            final(call).start() == old(call).start(),
            final(call).taken() == old(call).taken().push(b),
            decodes(*old(call), old(self)@.chunk) && !(r matches ReadStep::Done(
                ReadOutcome::Failed(_),
            )) ==> decodes(*final(call), final(self)@.chunk),
            old(self)@.chunk.phase == ChunkPhase::LengthHeader ==> ({
                let (c, ev) = header_step(old(self)@.chunk, b);
                final(self)@.chunk == c && r == after_header(ev, old(call).out().len())
            }),
            old(self)@.chunk.phase == ChunkPhase::Footer ==> ({
                let c = footer_step(old(self)@.chunk);
                final(self)@.chunk == c && r == after_footer(c, old(call).out().len())
            }),
    {
        proof {
            use_type_invariant(&*self);
        }
        let ghost c0 = self.chunk_state@;
        let ghost out = call.out@;
        proof {
            if decodes(*call, c0) {
                assert(out.take(out.len() - call.pending_part as int) =~= out);
                lemma_byte_decodes(call.start@, call.taken@, c0, out, b);
            }
        }
        call.awaiting = Awaiting::Nothing;
        call.pending_part = 0;
        call.taken = Ghost(call.taken@.push(b));
        proof {
            assert(out.take(out.len() - 0) =~= out);
        }
        let mut cs = ChunkedState::new();
        std::mem::swap(&mut cs, &mut self.chunk_state);
        if cs.phase() == ChunkPhase::LengthHeader {
            let ev = cs.header_byte(b);
            self.chunk_state = cs;
            match ev {
                HeaderEvent::Failed(e) => ReadStep::Done(ReadOutcome::Failed(e)),
                HeaderEvent::Ended => ReadStep::Done(ReadOutcome::Read(call.out.len())),
                _ => ReadStep::Continue,
            }
        } else {
            cs.footer_byte();
            let done = cs.phase() == ChunkPhase::LengthHeader;
            self.chunk_state = cs;
            if done && call.out.len() > 0 {
                ReadStep::Done(ReadOutcome::Read(call.out.len()))
            } else {
                ReadStep::Continue
            }
        }
    }

    /// Takes one step of a read: a decision, or a byte from the pending
    /// bytes, or a request for input from the channel.
    pub fn step(&mut self, call: &mut ReadCall) -> (r: ReadStep)
        requires
            old(call).wf(),
            old(call).awaiting() == Awaiting::Nothing,
        ensures
            final(call).wf(),
            final(call).capacity() == old(call).capacity(),
            final(call).start() == old(call).start(),
            decodes(*old(call), old(self)@.chunk) && !(r matches ReadStep::Done(
                ReadOutcome::Failed(_),
            )) ==> decodes(*final(call), final(self)@.chunk),
            r matches ReadStep::Done(ReadOutcome::Read(n)) ==> n == final(call).out().len()
                && final(call).pending_part() == 0,
            r matches ReadStep::Done(ReadOutcome::WouldBlock) ==> final(call).out().len() == 0,
            r == ReadStep::Done(ReadOutcome::Read(0)) ==> final(call).capacity() == 0
                || final(self)@.chunk.phase == ChunkPhase::End,
            final(call).taken() == old(call).taken(),
            final(call).out() == old(call).out(),
            final(call).pending_part() == 0,
            final(self)@.pending == old(self)@.pending,
            ({
                let o = old(self)@;
                let eff = old(call).out().len();
                let has_pending = o.pending_pos < o.pending.len();
                match o.chunk.phase {
                    ChunkPhase::End => r == ReadStep::Done(ReadOutcome::Read(eff as usize))
                        && final(self)@ == o && final(call).out() == old(call).out(),
                    ChunkPhase::LengthHeader => if has_pending {
                        let (c, ev) = header_step(o.chunk, o.pending[o.pending_pos as int]);
                        &&& final(self)@.pending_pos == o.pending_pos + 1
                        &&& final(self)@.chunk == c
                        &&& r == after_header(ev, eff)
                        &&& final(call).out() == old(call).out()
                        &&& final(call).awaiting() == Awaiting::Nothing
                    } else {
                        &&& r == ReadStep::NeedByte
                        &&& final(self)@ == o
                        &&& final(call).out() == old(call).out()
                        &&& final(call).awaiting() == Awaiting::Byte
                    },
                    ChunkPhase::Footer => if has_pending {
                        let c = footer_step(o.chunk);
                        &&& final(self)@.pending_pos == o.pending_pos + 1
                        &&& final(self)@.chunk == c
                        &&& r == after_footer(c, eff)
                        &&& final(call).out() == old(call).out()
                        &&& final(call).awaiting() == Awaiting::Nothing
                    } else {
                        &&& r == ReadStep::NeedByte
                        &&& final(self)@ == o
                        &&& final(call).out() == old(call).out()
                        &&& final(call).awaiting() == Awaiting::Byte
                    },
                    ChunkPhase::Data => {
                        let room = old(call).capacity() - eff;
                        let to_read = if room < o.chunk.next_offset {
                            room
                        } else {
                            o.chunk.next_offset as int
                        };
                        let avail = o.pending.len() - o.pending_pos;
                        let take = if to_read < avail {
                            to_read
                        } else {
                            avail
                        };
                        if to_read == 0 {
                            r == ReadStep::Done(ReadOutcome::Read(eff as usize)) && final(self)@
                                == o && final(call).out() == old(call).out()
                        } else {
                            &&& final(call).out() == old(call).out() + o.pending.subrange(
                                o.pending_pos as int,
                                o.pending_pos + take,
                            )
                            &&& final(self)@.pending_pos == o.pending_pos + take
                            &&& if take < to_read {
                                &&& r == ReadStep::NeedData((to_read - take) as usize)
                                &&& final(call).awaiting() == Awaiting::Data(
                                    (to_read - take) as usize,
                                )
                                &&& final(call).pending_part() == take
                                &&& final(self)@.chunk == o.chunk
                            } else {
                                &&& final(self)@.chunk == data_step(o.chunk, take as nat)
                                &&& r == after_data((eff + take) as nat, old(call).capacity())
                                &&& final(call).awaiting() == Awaiting::Nothing
                            }
                        }
                    },
                }
            }),
    {
        proof {
            use_type_invariant(&*self);
        }
        let phase = self.chunk_state.phase();
        match phase {
            ChunkPhase::End => ReadStep::Done(ReadOutcome::Read(call.out.len())),
            ChunkPhase::LengthHeader | ChunkPhase::Footer => {
                if self.pending_pos < self.pending_bytes.len() {
                    let b = self.pending_bytes[self.pending_pos];
                    self.pending_pos = self.pending_pos + 1;
                    self.decode_byte(call, b)
                } else {
                    call.awaiting = Awaiting::Byte;
                    ReadStep::NeedByte
                }
            },
            ChunkPhase::Data => {
                let room = call.capacity - call.out.len();
                let next_offset = self.chunk_state.remaining_in_chunk();
                let to_read = if room < next_offset {
                    room
                } else {
                    next_offset
                };
                if to_read == 0 {
                    return ReadStep::Done(ReadOutcome::Read(call.out.len()));
                }
                let available = self.pending_bytes.len() - self.pending_pos;
                let take = if to_read < available {
                    to_read
                } else {
                    available
                };
                let ghost start = self.pending_pos as int;
                let ghost out0 = call.out@;
                let mut i: usize = 0;
                while i < take
                    invariant
                        i <= take,
                        start + take <= self.pending_bytes.len(),
                        start == self.pending_pos,
                        call.out@ == out0 + self.pending_bytes@.subrange(start, start + i),
                        call.capacity == old(call).capacity(),
                        out0.len() + take <= call.capacity,
                        call.pending_part == old(call).pending_part(),
                        call.awaiting == Awaiting::Nothing,
                        call.start == old(call).start,
                        call.taken == old(call).taken,
                    decreases take - i,
                {
                    call.out.push(self.pending_bytes[self.pending_pos + i]);
                    assert(call.out@ =~= out0 + self.pending_bytes@.subrange(start, start + i + 1));
                    i = i + 1;
                }
                self.pending_pos = self.pending_pos + take;
                proof {
                    assert(out0.take(out0.len() - 0) =~= out0);
                    assert(call.out@.take(call.out@.len() - take) =~= out0);
                }
                if take < to_read {
                    call.pending_part = take;
                    call.awaiting = Awaiting::Data(to_read - take);
                    ReadStep::NeedData(to_read - take)
                } else {
                    self.commit_data(call, take)
                }
            },
        }
    }

    /// Continues a read with the result of a one-byte read of the channel.
    pub fn on_byte(&mut self, call: &mut ReadCall, input: ByteInput) -> (r: ReadStep)
        requires
            old(call).wf(),
            old(call).awaiting() == Awaiting::Byte,
            old(self)@.chunk.phase == ChunkPhase::LengthHeader || old(self)@.chunk.phase
                == ChunkPhase::Footer,
        ensures
            final(call).wf(),
            final(call).capacity() == old(call).capacity(),
            final(call).out() == old(call).out(),
            final(call).awaiting() == Awaiting::Nothing,
            final(self)@.pending == old(self)@.pending,
            final(self)@.pending_pos == old(self)@.pending_pos,
            final(call).start() == old(call).start(),
            decodes(*old(call), old(self)@.chunk) && !(r matches ReadStep::Done(
                ReadOutcome::Failed(_),
            )) ==> decodes(*final(call), final(self)@.chunk),
            r matches ReadStep::Done(ReadOutcome::Read(n)) ==> n == final(call).out().len()
                && final(call).pending_part() == 0,
            r matches ReadStep::Done(ReadOutcome::WouldBlock) ==> final(call).out().len() == 0,
            r == ReadStep::Done(ReadOutcome::Read(0)) ==> input is Eof
                || final(self)@.chunk.phase == ChunkPhase::End,
            final(call).taken() == (match input {
                ByteInput::Byte(b) => old(call).taken().push(b),
                _ => old(call).taken(),
            }),
            ({
                let o = old(self)@;
                let eff = old(call).out().len();
                match input {
                    ByteInput::Byte(b) => if o.chunk.phase == ChunkPhase::LengthHeader {
                        let (c, ev) = header_step(o.chunk, b);
                        final(self)@.chunk == c && r == after_header(ev, eff)
                    } else {
                        let c = footer_step(o.chunk);
                        final(self)@.chunk == c && r == after_footer(c, eff)
                    },
                    ByteInput::Eof => final(self)@ == o && r == (if o.chunk.phase
                        == ChunkPhase::LengthHeader {
                        ReadStep::Done(ReadOutcome::Read(eff as usize))
                    } else {
                        after_failure(ChunkError::EofInFooter, eff)
                    }),
                    ByteInput::WouldBlock => final(self)@ == o && r == (if eff > 0 {
                        ReadStep::Done(ReadOutcome::Read(eff as usize))
                    } else {
                        ReadStep::Done(ReadOutcome::WouldBlock)
                    }),
                    ByteInput::Error => final(self)@ == o && r == after_failure(
                        ChunkError::Io,
                        eff,
                    ),
                }
            }),
    {
        match input {
            ByteInput::Byte(b) => self.decode_byte(call, b),
            ByteInput::Eof => {
                call.awaiting = Awaiting::Nothing;
                if self.chunk_state.phase() == ChunkPhase::LengthHeader {
                    ReadStep::Done(ReadOutcome::Read(call.out.len()))
                } else if call.out.len() > 0 {
                    ReadStep::Done(ReadOutcome::Read(call.out.len()))
                } else {
                    ReadStep::Done(ReadOutcome::Failed(ChunkError::EofInFooter))
                }
            },
            ByteInput::WouldBlock => {
                call.awaiting = Awaiting::Nothing;
                if call.out.len() > 0 {
                    ReadStep::Done(ReadOutcome::Read(call.out.len()))
                } else {
                    ReadStep::Done(ReadOutcome::WouldBlock)
                }
            },
            ByteInput::Error => {
                call.awaiting = Awaiting::Nothing;
                if call.out.len() > 0 {
                    ReadStep::Done(ReadOutcome::Read(call.out.len()))
                } else {
                    ReadStep::Done(ReadOutcome::Failed(ChunkError::Io))
                }
            },
        }
    }

    /// Continues a read with the result of reading chunk data from the channel.
    pub fn on_data(&mut self, call: &mut ReadCall, input: DataInput) -> (r: ReadStep)
        requires
            old(call).wf(),
            old(call).awaiting() matches Awaiting::Data(k) && (input matches DataInput::Bytes(v)
                ==> v@.len() <= k),
            old(self)@.chunk.phase == ChunkPhase::Data,
            old(self)@.chunk.next_offset >= old(call).pending_part() + match old(call).awaiting() {
                Awaiting::Data(k) => k as nat,
                _ => 0,
            },
        ensures
            final(call).wf(),
            final(call).capacity() == old(call).capacity(),
            final(call).awaiting() == Awaiting::Nothing,
            final(self)@.pending == old(self)@.pending,
            final(self)@.pending_pos == old(self)@.pending_pos,
            final(call).start() == old(call).start(),
            decodes(*old(call), old(self)@.chunk) && !(r matches ReadStep::Done(
                ReadOutcome::Failed(_),
            )) ==> decodes(*final(call), final(self)@.chunk),
            r matches ReadStep::Done(ReadOutcome::Read(n)) ==> n == final(call).out().len()
                && final(call).pending_part() == 0,
            r matches ReadStep::Done(ReadOutcome::WouldBlock) ==> final(call).out().len() == 0,
            r == ReadStep::Done(ReadOutcome::Read(0)) ==> final(call).capacity() == 0,
            final(call).taken() == old(call).taken() + old(call).out().skip(
                old(call).out().len() - old(call).pending_part(),
            ) + (match input {
                DataInput::Bytes(v) => v@,
                _ => Seq::<u8>::empty(),
            }),
            ({
                let o = old(self)@;
                let eff = old(call).out().len();
                let part = old(call).pending_part();
                match input {
                    DataInput::Bytes(v) => {
                        let n = part + v@.len();
                        &&& final(call).out() == old(call).out() + v@
                        &&& if n == 0 {
                            final(self)@ == o && r == after_failure(ChunkError::EofInData, eff)
                        } else {
                            final(self)@.chunk == data_step(o.chunk, n) && r == after_data(
                                eff + v@.len(),
                                old(call).capacity(),
                            )
                        }
                    },
                    _ => {
                        &&& final(call).out() == old(call).out()
                        &&& if part > 0 {
                            final(self)@.chunk == data_step(o.chunk, part) && r == after_data(
                                eff,
                                old(call).capacity(),
                            )
                        } else {
                            final(self)@ == o && r == (if input is WouldBlock {
                                if eff > 0 {
                                    ReadStep::Done(ReadOutcome::Read(eff as usize))
                                } else {
                                    ReadStep::Done(ReadOutcome::WouldBlock)
                                }
                            } else {
                                after_failure(ChunkError::Io, eff)
                            })
                        }
                    },
                }
            }),
    {
        let part = call.pending_part;
        match input {
            DataInput::Bytes(v) => {
                let got = v.len();
                let mut i: usize = 0;
                let ghost out0 = call.out@;
                while i < got
                    invariant
                        i <= got == v@.len(),
                        call.out@ == out0 + v@.take(i as int),
                        call.capacity == old(call).capacity(),
                        out0 == old(call).out(),
                        call.pending_part == part,
                        call.awaiting == old(call).awaiting(),
                        call.start == old(call).start,
                        call.taken == old(call).taken,
                    decreases got - i,
                {
                    call.out.push(v[i]);
                    assert(call.out@ =~= out0 + v@.take(i + 1));
                    i = i + 1;
                }
                assert(v@.take(got as int) =~= v@);
                let n = part + got;
                proof {
                    assert(call.out@.take(call.out@.len() - n) =~= out0.take(out0.len() - part));
                    assert(call.out@.skip(call.out@.len() - n) =~= out0.skip(out0.len() - part)
                        + v@);
                    if n == 0 {
                        assert(call.out@ =~= out0);
                        assert(out0.skip(out0.len() - part) =~= Seq::<u8>::empty());
                        assert(call.taken@ + Seq::<u8>::empty() + v@ =~= call.taken@);
                    }
                }
                if n == 0 {
                    call.awaiting = Awaiting::Nothing;
                    if call.out.len() > 0 {
                        ReadStep::Done(ReadOutcome::Read(call.out.len()))
                    } else {
                        ReadStep::Done(ReadOutcome::Failed(ChunkError::EofInData))
                    }
                } else {
                    call.pending_part = 0;
                    call.awaiting = Awaiting::Nothing;
                    self.commit_data(call, n)
                }
            },
            DataInput::WouldBlock => {
                proof {
                    let o = call.out@;
                    assert(call.taken@ + o.skip(o.len() - part) + Seq::<u8>::empty() =~= call.taken@
                        + o.skip(o.len() - part));
                    if part == 0 {
                        assert(call.taken@ + o.skip(o.len() - part) =~= call.taken@);
                    }
                }
                if part > 0 {
                    self.commit_data(call, part)
                } else {
                    call.awaiting = Awaiting::Nothing;
                    if call.out.len() > 0 {
                        ReadStep::Done(ReadOutcome::Read(call.out.len()))
                    } else {
                        ReadStep::Done(ReadOutcome::WouldBlock)
                    }
                }
            },
            DataInput::Error => {
                proof {
                    let o = call.out@;
                    assert(call.taken@ + o.skip(o.len() - part) + Seq::<u8>::empty() =~= call.taken@
                        + o.skip(o.len() - part));
                    if part == 0 {
                        assert(call.taken@ + o.skip(o.len() - part) =~= call.taken@);
                    }
                }
                if part > 0 {
                    self.commit_data(call, part)
                } else {
                    call.awaiting = Awaiting::Nothing;
                    if call.out.len() > 0 {
                        ReadStep::Done(ReadOutcome::Read(call.out.len()))
                    } else {
                        ReadStep::Done(ReadOutcome::Failed(ChunkError::Io))
                    }
                }
            },
        }
    }
}

// ---------------------------------------------------------------------------
// What the decoder makes of written chunks
// ---------------------------------------------------------------------------

/// Several chunks written one after the other.
pub open spec fn chunks_frames(cs: Seq<Seq<u8>>) -> Seq<u8>
    decreases cs.len(),
{
    if cs.len() == 0 {
        Seq::empty()
    } else {
        chunk_frame(cs[0]) + chunks_frames(cs.drop_first())
    }
}

/// The data of several chunks, in order.
pub open spec fn flatten(cs: Seq<Seq<u8>>) -> Seq<u8>
    decreases cs.len(),
{
    if cs.len() == 0 {
        Seq::empty()
    } else {
        cs[0] + flatten(cs.drop_first())
    }
}

/// The size line of the last, empty chunk: `0\r\n`.
pub open spec fn last_chunk_line() -> Seq<u8> {
    seq![48u8, 13u8, 10u8]
}

/// A size-line state holding `p`.
pub open spec fn header_view(p: Seq<u8>) -> ChunkedStateView {
    ChunkedStateView { len_buffer: p, ..initial_view() }
}

/// Bytes read as ASCII text.
pub open spec fn ascii_text(b: Seq<u8>) -> Seq<char> {
    Seq::new(b.len(), |i: int| b[i] as char)
}

proof fn lemma_ascii_lossy(b: Seq<u8>)
    requires
        forall|i: int| 0 <= i < b.len() ==> b[i] < 128,
    ensures
        valid_utf8(b),
        decode_utf8(b) == ascii_text(b),
{
    let c = ascii_text(b);
    assert(vstd::utf8::is_ascii_chars(c)) by {
        assert forall|i: int| 0 <= i < c.len() implies '\0' <= #[trigger] c[i] <= '\u{7f}' by {
            assert((b[i] as char) as u32 == b[i]);
        }
    }
    vstd::utf8::is_ascii_chars_encode_utf8(c);
    assert forall|i: int| 0 <= i < b.len() implies vstd::utf8::encode_utf8(c)[i] == b[i] by {
        assert(c[i] as u8 == b[i]);
    }
    assert(vstd::utf8::encode_utf8(c) =~= b);
    vstd::utf8::encode_utf8_valid_utf8(c);
    vstd::utf8::encode_utf8_decode_utf8(c);
}

proof fn lemma_hex_digit_value(d: nat)
    requires
        d < 16,
    ensures
        (hex_digit(d) as char) as u32 == hex_digit(d),
        crate::text::digit_value(hex_digit(d) as char, 16) == Some(d),
{
    assert((hex_digit(d) as char) as u32 == hex_digit(d));
}

proof fn lemma_hex_digits(n: nat)
    ensures
        hex_upper(n).len() >= 1,
        forall|i: int| 0 <= i < hex_upper(n).len() ==> {
            let b = #[trigger] hex_upper(n)[i];
            &&& (48 <= b <= 57 || 65 <= b <= 70)
        },
        crate::text::all_digits(ascii_text(hex_upper(n)), 16),
        crate::text::digits_value(ascii_text(hex_upper(n)), 16) == n,
    decreases n,
{
    let h = hex_upper(n);
    let a = ascii_text(h);
    if n < 16 {
        lemma_hex_digit_value(n);
        assert(a.drop_last() =~= Seq::<char>::empty());
        assert(a.last() == hex_digit(n) as char);
        assert(crate::text::digits_value(a.drop_last(), 16) == 0);
    } else {
        lemma_hex_digits(n / 16);
        let h0 = hex_upper(n / 16);
        let d = hex_digit(n % 16);
        lemma_hex_digit_value(n % 16);
        assert(h == h0.push(d));
        assert(a.drop_last() =~= ascii_text(h0));
        assert(a.last() == d as char);
        assert forall|i: int| 0 <= i < a.len() implies (#[trigger] crate::text::digit_value(
            a[i],
            16,
        )) is Some by {
            if i < h0.len() {
                assert(a[i] == ascii_text(h0)[i]);
            }
        }
        assert forall|i: int| 0 <= i < h.len() implies {
            let b = #[trigger] h[i];
            &&& (48 <= b <= 57 || 65 <= b <= 70)
        } by {
            if i < h0.len() {
                assert(h[i] == h0[i]);
            }
        }
        assert(crate::text::digits_value(a, 16) == crate::text::digits_value(ascii_text(h0), 16)
            * 16 + n % 16);
        assert((n / 16) * 16 + n % 16 == n) by (nonlinear_arith);
    }
}

/// `16^k`.
pub open spec fn pow16(k: nat) -> nat
    decreases k,
{
    if k == 0 {
        1
    } else {
        16 * pow16((k - 1) as nat)
    }
}

/// A number below `16^k` has at most `max(k, 1)` hexadecimal digits.
proof fn lemma_hex_len(n: nat, k: nat)
    requires
        n < pow16(k),
    ensures
        hex_upper(n).len() <= if k == 0 {
            1
        } else {
            k
        },
    decreases k,
{
    if n >= 16 && k > 0 {
        assert(n / 16 < pow16((k - 1) as nat)) by (nonlinear_arith)
            requires
                n < 16 * pow16((k - 1) as nat),
        ;
        lemma_hex_len(n / 16, (k - 1) as nat);
        if k == 1 {
            assert(pow16(0) == 1);
        }
    }
}

proof fn lemma_trim_size_line(h: Seq<char>)
    requires
        h.len() >= 1,
        forall|i: int| 0 <= i < h.len() ==> !crate::text::is_ws(#[trigger] h[i]),
    ensures
        trim(h + seq!['\r', '\n']) == h,
{
    let s = h + seq!['\r', '\n'];
    assert(('\r' as u32) == 13);
    assert(('\n' as u32) == 10);
    assert(s[0] == h[0]);
    assert(crate::text::trim_start(s) == s);
    assert(s.last() == '\n');
    assert((h + seq!['\r']).last() == '\r');
    assert(s.drop_last() =~= h + seq!['\r']);
    assert((h + seq!['\r']).drop_last() =~= h);
    assert(crate::text::is_ws('\n'));
    assert(crate::text::is_ws('\r'));
    assert(crate::text::trim_end(s) == crate::text::trim_end(h + seq!['\r']));
    assert(crate::text::trim_end(h + seq!['\r']) == crate::text::trim_end(h));
    assert(crate::text::trim_end(h) == h) by {
        assert(!crate::text::is_ws(h.last()));
    }
    assert(trim(s) == crate::text::trim_end(crate::text::trim_start(s)));
}

/// The size line of a chunk announces the chunk's size.
proof fn lemma_size_line(n: nat)
    requires
        n <= usize::MAX,
    ensures
        chunk_size_of(hex_upper(n) + crlf()) == Some(n as usize),
{
    let h = hex_upper(n);
    let line = h + crlf();
    lemma_hex_digits(n);
    assert forall|i: int| 0 <= i < line.len() implies line[i] < 128 by {
        if i < h.len() {
            assert(line[i] == h[i]);
        }
    }
    lemma_ascii_lossy(line);
    let hc = ascii_text(h);
    assert(ascii_text(line) =~= hc + seq!['\r', '\n']) by {
        assert((13u8 as char) == '\r');
        assert((10u8 as char) == '\n');
    }
    assert forall|i: int| 0 <= i < hc.len() implies !crate::text::is_ws(#[trigger] hc[i]) by {
        assert((h[i] as char) as u32 == h[i]);
    }
    lemma_trim_size_line(hc);
    assert(hc[0] != '+' && hc[0] != '-') by {
        assert((h[0] as char) as u32 == h[0]);
    }
}

/// Feeding size-line bytes other than `\n` only buffers them.
proof fn lemma_feed_header_bytes(p: Seq<u8>, q: Seq<u8>, rest: Seq<u8>)
    requires
        forall|i: int| 0 <= i < q.len() ==> q[i] != 10,
        p.len() + q.len() <= 20,
    ensures
        feed(header_view(p), q + rest) == feed(header_view(p + q), rest),
    decreases q.len(),
{
    if q.len() == 0 {
        assert(q + rest =~= rest);
        assert(p + q =~= p);
    } else {
        let bs = q + rest;
        assert(bs[0] == q[0]);
        assert(header_step(header_view(p), q[0]).0 == header_view(p.push(q[0])));
        assert(bs.drop_first() =~= q.drop_first() + rest);
        lemma_feed_header_bytes(p.push(q[0]), q.drop_first(), rest);
        assert(p.push(q[0]) + q.drop_first() =~= p + q);
    }
}

/// The view of the data state of a chunk with `m` bytes left.
pub open spec fn data_view(m: nat) -> ChunkedStateView {
    ChunkedStateView { phase: ChunkPhase::Data, next_offset: m, ..initial_view() }
}

pub open spec fn footer_view() -> ChunkedStateView {
    ChunkedStateView { phase: ChunkPhase::Footer, ..initial_view() }
}

/// Decoding is incremental: a stream read in two parts decodes as when read
/// at once, the data of the first part followed by what the second part
/// yields from the state the first left; an error in the first part ends the
/// stream there either way.
pub proof fn lemma_feed_append(s: ChunkedStateView, a: Seq<u8>, b: Seq<u8>)
    ensures
        feed(s, a + b) == (match feed(s, a).0 {
            Ok(t) => (feed(t, b).0, feed(s, a).1 + feed(t, b).1),
            Err(_) => feed(s, a),
        }),
    decreases a.len(),
{
    if a.len() == 0 {
        assert(a + b =~= b);
        assert(Seq::<u8>::empty() + feed(s, b).1 =~= feed(s, b).1);
    } else if s.phase == ChunkPhase::End {
        assert(Seq::<u8>::empty() + Seq::<u8>::empty() =~= Seq::<u8>::empty());
    } else {
        assert((a + b).drop_first() =~= a.drop_first() + b);
        assert((a + b)[0] == a[0]);
        if s.phase == ChunkPhase::LengthHeader {
            let (s2, ev) = header_step(s, a[0]);
            match ev {
                HeaderEvent::Failed(_) => {},
                _ => {
                    lemma_feed_append(s2, a.drop_first(), b);
                },
            }
        } else if s.phase == ChunkPhase::Data {
            let s2 = data_step(s, 1);
            lemma_feed_append(s2, a.drop_first(), b);
            match feed(s2, a.drop_first()).0 {
                Ok(t) => {
                    assert(seq![a[0]] + (feed(s2, a.drop_first()).1 + feed(t, b).1) =~= (seq![a[0]]
                        + feed(s2, a.drop_first()).1) + feed(t, b).1);
                },
                Err(_) => {},
            }
        } else {
            lemma_feed_append(footer_step(s), a.drop_first(), b);
        }
    }
}

/// Chunk data is yielded as it is: taking a block of `d` data bytes at once,
/// as a read does, is taking them one by one.
pub proof fn lemma_feed_data_block(s: ChunkedStateView, d: Seq<u8>, rest: Seq<u8>)
    requires
        s.phase == ChunkPhase::Data,
        0 < d.len() <= s.next_offset,
    ensures
        feed(s, d + rest).0 == feed(data_step(s, d.len()), rest).0,
        feed(s, d + rest).1 == d + feed(data_step(s, d.len()), rest).1,
    decreases d.len(),
{
    let bs = d + rest;
    assert(bs[0] == d[0]);
    assert(bs.drop_first() =~= d.drop_first() + rest);
    if d.len() == 1 {
        assert(d.drop_first() + rest =~= rest);
        assert(seq![d[0]] + feed(data_step(s, 1), rest).1 =~= d + feed(data_step(s, 1), rest).1);
    } else {
        let s1 = data_step(s, 1);
        assert(s1.phase == ChunkPhase::Data);
        assert(data_step(s1, (d.len() - 1) as nat) == data_step(s, d.len()));
        lemma_feed_data_block(s1, d.drop_first(), rest);
        assert(seq![d[0]] + (d.drop_first() + feed(data_step(s, d.len()), rest).1) =~= d + feed(
            data_step(s, d.len()),
            rest,
        ).1);
    }
}

/// One written chunk is read back whole, and the decoder is where it started.
proof fn lemma_feed_chunk(d: Seq<u8>, rest: Seq<u8>)
    requires
        0 < d.len() <= usize::MAX,
    ensures
        feed(initial_view(), chunk_frame(d) + rest).0 == feed(initial_view(), rest).0,
        feed(initial_view(), chunk_frame(d) + rest).1 == d + feed(initial_view(), rest).1,
{
    let n = d.len();
    let h = hex_upper(n);
    lemma_hex_digits(n);
    assert(pow16(16) == 0x1_0000_0000_0000_0000) by {
        reveal_with_fuel(pow16, 17);
    }
    lemma_hex_len(n, 16);
    let cr = crlf() + rest;
    let after_r = seq![10u8] + d + cr;
    let after_h = seq![13u8] + after_r;
    assert(chunk_frame(d) + rest =~= h + after_h);
    assert forall|i: int| 0 <= i < h.len() implies h[i] != 10 by {}
    assert(header_view(Seq::empty()) == initial_view());
    assert(Seq::<u8>::empty() + h =~= h);
    lemma_feed_header_bytes(Seq::empty(), h, after_h);
    let f0 = feed(initial_view(), chunk_frame(d) + rest);
    assert(f0 == feed(header_view(h), after_h));
    // the "\r" of the size line
    assert(after_h[0] == 13);
    assert(after_h.drop_first() =~= after_r);
    assert(header_step(header_view(h), 13).0 == header_view(h.push(13)));
    assert(feed(header_view(h), after_h) == feed(header_view(h.push(13)), after_r));
    // the "\n" of the size line
    lemma_size_line(n);
    assert(h.push(13).push(10) =~= h + crlf());
    assert(after_r[0] == 10);
    assert(after_r.drop_first() =~= d + cr);
    assert(header_step(header_view(h.push(13)), 10).0 == data_view(n));
    assert(feed(header_view(h.push(13)), after_r) == feed(data_view(n), d + cr));
    // the data
    lemma_feed_data_block(data_view(n), d, cr);
    assert(data_step(data_view(n), n) == footer_view());
    // the "\r\n" after the data
    let f1 = ChunkedStateView { header_footer_pos: 1, ..footer_view() };
    assert(cr[0] == 13);
    assert(footer_step(footer_view()) == f1);
    assert(cr.drop_first() =~= seq![10u8] + rest);
    assert(feed(footer_view(), cr) == feed(f1, seq![10u8] + rest));
    assert((seq![10u8] + rest)[0] == 10);
    assert((seq![10u8] + rest).drop_first() =~= rest);
    assert(footer_step(f1) == initial_view());
    assert(feed(f1, seq![10u8] + rest) == feed(initial_view(), rest));
}

/// Chunks written by `encode_chunk` and closed by the empty chunk's size line
/// are read back as their data, in order, and the stream ends there; what
/// follows is not read.
pub proof fn lemma_chunked_roundtrip(cs: Seq<Seq<u8>>, rest: Seq<u8>)
    requires
        forall|i: int| 0 <= i < cs.len() ==> 0 < (#[trigger] cs[i]).len() <= usize::MAX,
    ensures
        feed(initial_view(), chunks_frames(cs) + last_chunk_line() + rest).0 matches Ok(s) && s.phase
            == ChunkPhase::End,
        feed(initial_view(), chunks_frames(cs) + last_chunk_line() + rest).1 == flatten(cs),
    decreases cs.len(),
{
    if cs.len() == 0 {
        let bs = last_chunk_line() + rest;
        assert(chunks_frames(cs) + last_chunk_line() + rest =~= bs);
        lemma_size_line(0);
        assert(hex_upper(0) == seq![48u8]);
        let p1 = seq![48u8];
        let p2 = seq![48u8, 13u8];
        assert(bs[0] == 48);
        assert(header_step(initial_view(), 48).0 == header_view(p1)) by {
            assert(Seq::<u8>::empty().push(48u8) =~= p1);
        }
        let bs1 = bs.drop_first();
        assert(bs1[0] == 13);
        assert(header_step(header_view(p1), 13).0 == header_view(p2)) by {
            assert(p1.push(13u8) =~= p2);
        }
        let bs2 = bs1.drop_first();
        assert(bs2[0] == 10);
        assert(p2.push(10u8) =~= hex_upper(0) + crlf());
        let s3 = header_step(header_view(p2), 10).0;
        assert(s3.phase == ChunkPhase::End);
        assert(feed(initial_view(), bs) == feed(header_view(p1), bs1));
        assert(feed(header_view(p1), bs1) == feed(header_view(p2), bs2));
        assert(feed(header_view(p2), bs2) == feed(s3, bs2.drop_first()));
        assert(feed(s3, bs2.drop_first()) == (Ok::<ChunkedStateView, ChunkError>(s3), Seq::<u8>::empty()));
        assert(flatten(cs) == Seq::<u8>::empty());
    } else {
        let tail = chunks_frames(cs.drop_first()) + last_chunk_line() + rest;
        assert(chunks_frames(cs) + last_chunk_line() + rest =~= chunk_frame(cs[0]) + tail);
        lemma_feed_chunk(cs[0], tail);
        assert forall|i: int| 0 <= i < cs.drop_first().len() implies 0 < (
        #[trigger] cs.drop_first()[i]).len() <= usize::MAX by {
            assert(cs.drop_first()[i] == cs[i + 1]);
        }
        lemma_chunked_roundtrip(cs.drop_first(), rest);
    }
}

/// A finished read, with nothing left to hand over, yields exactly what the
/// decoder makes of the bytes it took from where the read began.
pub proof fn lemma_read_done(call: ReadCall, chunk: ChunkedStateView)
    requires
        decodes(call, chunk),
        call.pending_part() == 0,
    ensures
        feed(call.start(), call.taken()) == (Ok::<ChunkedStateView, ChunkError>(chunk), call.out()),
{
    assert(call.out().take(call.out().len() - 0) =~= call.out());
}

/// Successive reads, each beginning where the previous one left the decoder
/// and each yielding what the decoder makes of the bytes it took, together
/// yield what the decoder makes of all the bytes they took.
pub proof fn lemma_reads_compose(
    states: Seq<ChunkedStateView>,
    takens: Seq<Seq<u8>>,
    outs: Seq<Seq<u8>>,
)
    requires
        states.len() == takens.len() + 1,
        outs.len() == takens.len(),
        forall|i: int|
            0 <= i < takens.len() ==> #[trigger] feed(states[i], takens[i]) == (
                Ok::<ChunkedStateView, ChunkError>(states[i + 1]),
                outs[i],
            ),
    ensures
        feed(states[0], flatten(takens)) == (
            Ok::<ChunkedStateView, ChunkError>(states.last()),
            flatten(outs),
        ),
    decreases takens.len(),
{
    if takens.len() == 0 {
        assert(flatten(takens) =~= Seq::<u8>::empty());
        assert(flatten(outs) =~= Seq::<u8>::empty());
    } else {
        let st = states.drop_first();
        let ts = takens.drop_first();
        let os = outs.drop_first();
        assert forall|i: int| 0 <= i < ts.len() implies #[trigger] feed(st[i], ts[i]) == (
            Ok::<ChunkedStateView, ChunkError>(st[i + 1]),
            os[i],
        ) by {
            assert(feed(states[i + 1], takens[i + 1]) == (
                Ok::<ChunkedStateView, ChunkError>(states[i + 2]),
                outs[i + 1],
            ));
        }
        lemma_reads_compose(st, ts, os);
        assert(feed(states[0], takens[0]) == (
            Ok::<ChunkedStateView, ChunkError>(states[1]),
            outs[0],
        ));
        lemma_feed_append(states[0], takens[0], flatten(ts));
        assert(st[0] == states[1]);
        assert(st.last() == states.last());
    }
}

/// The payloads of written chunks come back from successive reads: when the
/// reads begin at a fresh decoder and the bytes they took, followed by
/// `rest`, are the chunks and then the last chunk, the data they delivered is
/// the beginning of the chunks' data (no size line or CRLF among it), and all
/// of it, with the stream ended, once nothing is left.
///
/// Each read of `GatewayReadState` meets the premise: `begin_read` starts it
/// at the decoder's state with nothing taken, the bytes it takes are exactly
/// those the channel gave to `on_byte` and `on_data`, and when it ends with
/// `Read(n)` its `n` bytes are what the decoder makes of them
/// (`lemma_read_done`), leaving the decoder in the state the next read
/// begins in.
pub proof fn lemma_reads_deliver_chunks(
    cs: Seq<Seq<u8>>,
    states: Seq<ChunkedStateView>,
    takens: Seq<Seq<u8>>,
    outs: Seq<Seq<u8>>,
    rest: Seq<u8>,
)
    requires
        forall|i: int| 0 <= i < cs.len() ==> 0 < (#[trigger] cs[i]).len() <= usize::MAX,
        states.len() == takens.len() + 1,
        outs.len() == takens.len(),
        states[0] == initial_view(),
        forall|i: int|
            0 <= i < takens.len() ==> #[trigger] feed(states[i], takens[i]) == (
                Ok::<ChunkedStateView, ChunkError>(states[i + 1]),
                outs[i],
            ),
        flatten(takens) + rest == chunks_frames(cs) + last_chunk_line(),
    ensures
        flatten(outs).len() <= flatten(cs).len(),
        flatten(outs) == flatten(cs).take(flatten(outs).len() as int),
        rest.len() == 0 ==> flatten(outs) == flatten(cs) && states.last().phase == ChunkPhase::End,
{
    lemma_reads_compose(states, takens, outs);
    lemma_chunked_roundtrip(cs, Seq::empty());
    assert(chunks_frames(cs) + last_chunk_line() + Seq::<u8>::empty() =~= flatten(takens) + rest);
    lemma_feed_append(initial_view(), flatten(takens), rest);
    let o = flatten(outs);
    let x = feed(states.last(), rest).1;
    assert(flatten(cs) == o + x);
    assert(flatten(cs).take(o.len() as int) =~= o);
    if rest.len() == 0 {
        assert(x =~= Seq::<u8>::empty());
        assert(o + x =~= o);
    }
}

} // verus!

//! The socket protocol: length-prefixed frames, every request followed by a
//! flush, every response followed by the response to the flush.
use vstd::prelude::*;

use crate::abci::error::AbciClientError;
use crate::varint;
use crate::varint::VarintStep;

verus! {

/// A body behind its length prefix.
pub open spec fn frame_bytes(body: Seq<u8>) -> Seq<u8> {
    varint::varint_bytes(body.len()) + body
}

/// Whether `bytes` are a complete frame around `body`: a length prefix that
/// ends within ten bytes, and as many bytes as it says.
pub open spec fn is_frame(bytes: Seq<u8>, body: Seq<u8>) -> bool {
    exists|last: int| #[trigger] is_frame_at(bytes, body, last)
}

/// As [`is_frame`], with the last byte of the prefix at `last`.
pub open spec fn is_frame_at(bytes: Seq<u8>, body: Seq<u8>, last: int) -> bool {
    &&& varint::varint_ends_at(bytes, last)
    &&& last < varint::MAX_VARINT_LEN
    &&& body == bytes.skip(last + 1)
    &&& body.len() == prefix_value(bytes.take(last + 1))
}

/// The length that a prefix announces.
pub open spec fn prefix_value(prefix: Seq<u8>) -> nat {
    varint::varint_value(prefix) % 0x1_0000_0000_0000_0000
}

/// A framed body is a frame around that body and around no other.
pub proof fn frame_roundtrip(body: Seq<u8>)
    requires
        body.len() <= u64::MAX,
    ensures
        is_frame(frame_bytes(body), body),
        forall|other: Seq<u8>| is_frame(frame_bytes(body), other) ==> other == body,
{
    let p = varint::varint_bytes(body.len());
    let bytes = frame_bytes(body);
    varint::varint_fits(body.len() as u64);
    let last = p.len() - 1;
    assert(bytes.take(last + 1) =~= p);
    assert(bytes.skip(last + 1) =~= body);
    assert(varint::varint_ends_at(bytes, last)) by {
        assert(bytes[last] == p[last]);
        assert forall|j: int| 0 <= j < last implies #[trigger] bytes[j] >= 128 by {
            assert(bytes[j] == p[j]);
        }
    }
    assert(is_frame_at(bytes, body, last));
    assert forall|other: Seq<u8>| is_frame(bytes, other) implies other == body by {
        let k = choose|k: int| #[trigger] is_frame_at(bytes, other, k);
        assert(k == last) by {
            if k < last {
                assert(bytes[k] >= 128);
            } else if last < k {
                assert(bytes[last] >= 128);
            }
        }
    }
}

/// No frame is a proper prefix of another: a reader that stops at the first
/// complete frame never stops too early.
pub proof fn frames_are_prefix_free(a: Seq<u8>, body_a: Seq<u8>, b: Seq<u8>, body_b: Seq<u8>)
    requires
        is_frame(a, body_a),
        is_frame(b, body_b),
        a.is_prefix_of(b),
    ensures
        a == b,
{
    let i = choose|i: int| #[trigger] is_frame_at(a, body_a, i);
    let j = choose|j: int| #[trigger] is_frame_at(b, body_b, j);
    assert forall|k: int| 0 <= k < a.len() implies a[k] == b[k] by {
        assert(a[k] == b.subrange(0, a.len() as int)[k]);
    }
    if i < j {
        assert(a[i] == b[i]);
        assert(b[i] >= 128);
    } else if j < i {
        assert(a[j] == b[j]);
        assert(a[j] >= 128);
    }
    assert(a.take(i + 1) =~= b.take(j + 1));
    assert(a =~= b);
}

/// Puts a message behind its length prefix.
pub fn frame(body: &[u8]) -> (out: Vec<u8>)
    ensures
        out@ == frame_bytes(body@),
{
    let mut out: Vec<u8> = varint::encode_varint(body.len());
    let mut tail: Vec<u8> = vstd::slice::slice_to_vec(body);
    out.append(&mut tail);
    out
}

/// The bytes of one exchange: a request and the flush behind it.
pub fn request_bytes(request: &[u8], flush: &[u8]) -> (out: Vec<u8>)
    ensures
        out@ == frame_bytes(request@) + frame_bytes(flush@),
{
    let mut out: Vec<u8> = frame(request);
    let mut tail: Vec<u8> = frame(flush);
    out.append(&mut tail);
    out
}

/// What a [`FrameReader`] makes of the bytes it was given.
pub enum FrameStep {
    /// The frame is not complete.
    More,
    /// The frame is complete; this is its body.
    Frame(Vec<u8>),
    /// Ten bytes came and the length prefix did not end.
    Invalid,
}

/// Reassembles one frame after the other from a byte stream.
pub struct FrameReader {
    prefix: Vec<u8>,
    len: Option<u64>,
    body: Vec<u8>,
}

impl FrameReader {
    /// The bytes of the current frame that were read so far.
    pub closed spec fn seen(self) -> Seq<u8> {
        self.prefix@ + self.body@
    }

    /// The bytes so far do not make a complete frame but can still become one.
    pub closed spec fn wf(self) -> bool {
        match self.len {
            None => {
                &&& self.prefix@.len() < varint::MAX_VARINT_LEN
                &&& self.body@.len() == 0
                &&& forall|j: int| 0 <= j < self.prefix@.len() ==> #[trigger] self.prefix@[j] >= 128
            },
            Some(n) => {
                &&& 1 <= self.prefix@.len() <= varint::MAX_VARINT_LEN
                &&& varint::varint_ends_at(self.prefix@, self.prefix@.len() - 1)
                &&& n == prefix_value(self.prefix@)
                &&& self.body@.len() < n
            },
        }
    }

    /// How many bytes may be read without running past the frame.
    pub closed spec fn room(self) -> nat {
        match self.len {
            None => 1,
            Some(n) => (n - self.body@.len()) as nat,
        }
    }

    /// A reader at the start of a frame. The length prefix is read byte by
    /// byte, so there is room for a single one.
    pub fn new() -> (reader: Self)
        ensures
            reader.wf(),
            reader.seen() == Seq::<u8>::empty(),
            reader.room() == 1,
    {
        let reader = FrameReader { prefix: Vec::new(), len: None, body: Vec::new() };
        assert(reader.seen() =~= Seq::<u8>::empty());
        reader
    }

    /// How many bytes to read next: at least one, and never past the frame.
    pub fn wanted(&self) -> (n: usize)
        requires
            self.wf(),
        ensures
            1 <= n <= self.room(),
            n == self.room() || n == usize::MAX,
    {
        match self.len {
            None => 1,
            Some(n) => {
                let rest: u64 = n - self.body.len() as u64;
                if rest > usize::MAX as u64 {
                    usize::MAX
                } else {
                    rest as usize
                }
            },
        }
    }

    /// Takes in bytes read from the stream.
    pub fn push(&mut self, bytes: &[u8]) -> (step: FrameStep)
        requires
            old(self).wf(),
            1 <= bytes@.len() <= old(self).room(),
        ensures
            final(self).wf(),
            ({
                let seen = old(self).seen() + bytes@;
                match step {
                    FrameStep::More => {
                        &&& final(self).seen() == seen
                        &&& forall|body: Seq<u8>| !is_frame(seen, body)
                    },
                    FrameStep::Frame(body) => {
                        &&& is_frame(seen, body@)
                        &&& final(self).seen() == Seq::<u8>::empty()
                    },
                    FrameStep::Invalid => {
                        &&& seen.len() == varint::MAX_VARINT_LEN
                        &&& forall|j: int| 0 <= j < seen.len() ==> #[trigger] seen[j] >= 128
                        &&& final(self).seen() == Seq::<u8>::empty()
                    },
                }
            }),
    {
        let ghost before = *self;
        let ghost seen = before.seen() + bytes@;
        match self.len {
            None => {
                self.prefix.push(bytes[0]);
                assert(self.prefix@ =~= seen);
                match varint::decode_varint(self.prefix.as_slice()) {
                    VarintStep::NeedMore => {
                        proof {
                            assert forall|body: Seq<u8>| !is_frame(seen, body) by {
                                if is_frame(seen, body) {
                                    let k = choose|k: int| #[trigger] is_frame_at(seen, body, k);
                                    assert(seen[k] < 128);
                                }
                            }
                        }
                        assert(self.seen() =~= seen);
                        FrameStep::More
                    },
                    VarintStep::Invalid => {
                        self.reset();
                        FrameStep::Invalid
                    },
                    VarintStep::Done { value, consumed } => {
                        proof {
                            assert(consumed == self.prefix@.len()) by {
                                if consumed < self.prefix@.len() {
                                    assert(before.prefix@[consumed - 1] == self.prefix@[consumed
                                        - 1]);
                                }
                            }
                            assert(self.prefix@.take(consumed as int) =~= self.prefix@);
                        }
                        if value == 0 {
                            proof {
                                assert(seen.skip(consumed as int) =~= Seq::<u8>::empty());
                                assert(is_frame_at(seen, Seq::<u8>::empty(), consumed - 1));
                            }
                            self.reset();
                            let body: Vec<u8> = Vec::new();
                            assert(body@ =~= Seq::<u8>::empty());
                            FrameStep::Frame(body)
                        } else {
                            self.len = Some(value);
                            assert(self.seen() =~= seen);
                            proof {
                                self.lemma_incomplete();
                            }
                            FrameStep::More
                        }
                    },
                }
            },
            Some(n) => {
                let mut chunk: Vec<u8> = vstd::slice::slice_to_vec(bytes);
                self.body.append(&mut chunk);
                assert(self.seen() =~= seen);
                if (self.body.len() as u64) < n {
                    proof {
                        self.lemma_incomplete();
                    }
                    FrameStep::More
                } else {
                    proof {
                        let last = self.prefix@.len() - 1;
                        assert(seen.take(last + 1) =~= self.prefix@);
                        assert(seen.skip(last + 1) =~= self.body@);
                        assert(varint::varint_ends_at(seen, last)) by {
                            assert(seen[last] == self.prefix@[last]);
                            assert forall|j: int| 0 <= j < last implies #[trigger] seen[j]
                                >= 128 by {
                                assert(seen[j] == self.prefix@[j]);
                            }
                        }
                        assert(is_frame_at(seen, self.body@, last));
                    }
                    let mut body: Vec<u8> = Vec::new();
                    body.append(&mut self.body);
                    assert(body@ =~= before.body@ + bytes@);
                    self.reset();
                    FrameStep::Frame(body)
                }
            },
        }
    }

    fn reset(&mut self)
        ensures
            final(self).wf(),
            final(self).seen() == Seq::<u8>::empty(),
    {
        self.prefix = Vec::new();
        self.len = None;
        self.body = Vec::new();
        assert(self.seen() =~= Seq::<u8>::empty());
    }

    proof fn lemma_incomplete(self)
        requires
            self.wf(),
            self.len is Some,
        ensures
            forall|body: Seq<u8>| !is_frame(self.seen(), body),
    {
        let seen = self.seen();
        let last = self.prefix@.len() - 1;
        assert forall|body: Seq<u8>| !is_frame(seen, body) by {
            if is_frame(seen, body) {
                let k = choose|k: int| #[trigger] is_frame_at(seen, body, k);
                assert(seen[last] == self.prefix@[last]);
                if k < last {
                    assert(seen[k] == self.prefix@[k]);
                } else if last < k {
                    assert(seen[last] >= 128);
                }
                assert(seen.take(last + 1) =~= self.prefix@);
            }
        }
    }
}

/// How a client words a missing flush response, and what it does with the
/// connection after a failed exchange.
#[derive(Clone, Copy, Debug, PartialEq, Eq, Structural)]
pub enum RoundtripFlavor {
    /// Keeps the connection whatever happened.
    Client,
    /// Drops the connection after a failed exchange.
    Integration,
}

impl RoundtripFlavor {
    /// The message for a second response that does not answer the flush.
    pub open spec fn flush_text(self) -> Seq<char> {
        match self {
            RoundtripFlavor::Client => "expected trailing flush response"@,
            RoundtripFlavor::Integration
                => "socket ABCI protocol expected trailing flush response"@,
        }
    }

    fn flush_message(self) -> (text: String)
        ensures
            text@ == self.flush_text(),
    {
        match self {
            RoundtripFlavor::Client => String::from_str("expected trailing flush response"),
            RoundtripFlavor::Integration => String::from_str(
                "socket ABCI protocol expected trailing flush response",
            ),
        }
    }
}

/// Where an exchange stands.
#[derive(Clone, Copy, Debug, PartialEq, Eq, Structural)]
pub enum RoundtripStage {
    Connecting,
    Writing,
    ReadingFirst,
    DecodingFirst,
    ReadingSecond,
    DecodingSecond,
    Finished,
}

/// What to do next in an exchange.
pub enum RoundtripAction<R> {
    /// Open a connection to the application.
    Connect,
    /// Write these bytes and flush the stream.
    Write(Vec<u8>),
    /// Read up to this many bytes, at least one.
    Read(usize),
    /// Decode this response.
    Decode(Vec<u8>),
    /// The exchange is over. `keep` says whether the connection stays open.
    Finish { result: Result<R, AbciClientError>, keep: bool },
}

/// One exchange over a socket: connect if there is no connection yet, write
/// the request and a flush, read two responses, and hand out the first one if
/// the second answers the flush.
pub struct SocketRoundtrip<R> {
    pub flavor: RoundtripFlavor,
    pub stage: RoundtripStage,
    pub outgoing: Vec<u8>,
    pub reader: FrameReader,
    pub first: Option<R>,
}

impl<R> SocketRoundtrip<R> {
    pub open spec fn wf(self) -> bool {
        &&& self.reader.wf()
        &&& self.first is Some <==> (self.stage == RoundtripStage::ReadingSecond || self.stage
            == RoundtripStage::DecodingSecond)
    }

    /// Starts an exchange.
    pub fn start(
        flavor: RoundtripFlavor,
        connected: bool,
        request: &[u8],
        flush: &[u8],
    ) -> (r: (Self, RoundtripAction<R>))
        ensures
            r.0.wf(),
            r.0.flavor == flavor,
            r.0.reader.seen() == Seq::<u8>::empty(),
            r.0.stage == if connected {
                RoundtripStage::Writing
            } else {
                RoundtripStage::Connecting
            },
            if connected {
                r.1 matches RoundtripAction::Write(out) && out@ == frame_bytes(request@)
                    + frame_bytes(flush@)
            } else {
                r.1 is Connect && r.0.outgoing@ == frame_bytes(request@) + frame_bytes(flush@)
            },
    {
        let out: Vec<u8> = request_bytes(request, flush);
        let reader = FrameReader::new();
        if connected {
            (
                SocketRoundtrip {
                    flavor,
                    stage: RoundtripStage::Writing,
                    outgoing: Vec::new(),
                    reader,
                    first: None,
                },
                RoundtripAction::Write(out),
            )
        } else {
            (
                SocketRoundtrip {
                    flavor,
                    stage: RoundtripStage::Connecting,
                    outgoing: out,
                    reader,
                    first: None,
                },
                RoundtripAction::Connect,
            )
        }
    }

    /// The connection is open.
    pub fn connected(&mut self) -> (action: RoundtripAction<R>)
        requires
            old(self).wf(),
            old(self).stage == RoundtripStage::Connecting,
        ensures
            final(self).wf(),
            final(self).flavor == old(self).flavor,
            final(self).reader == old(self).reader,
            final(self).stage == RoundtripStage::Writing,
            action matches RoundtripAction::Write(out) && out@ == old(self).outgoing@,
    {
        let mut out: Vec<u8> = Vec::new();
        out.append(&mut self.outgoing);
        self.stage = RoundtripStage::Writing;
        assert(out@ =~= old(self).outgoing@);
        RoundtripAction::Write(out)
    }

    /// The request is written.
    pub fn written(&mut self) -> (action: RoundtripAction<R>)
        requires
            old(self).wf(),
            old(self).stage == RoundtripStage::Writing,
        ensures
            final(self).wf(),
            final(self).flavor == old(self).flavor,
            final(self).reader == old(self).reader,
            final(self).stage == RoundtripStage::ReadingFirst,
            action matches RoundtripAction::Read(n) && 1 <= n <= final(self).reader.room(),
    {
        self.stage = RoundtripStage::ReadingFirst;
        RoundtripAction::Read(self.reader.wanted())
    }

    /// Bytes arrived.
    pub fn received(&mut self, bytes: &[u8]) -> (action: RoundtripAction<R>)
        requires
            old(self).wf(),
            old(self).stage == RoundtripStage::ReadingFirst || old(self).stage
                == RoundtripStage::ReadingSecond,
            1 <= bytes@.len() <= old(self).reader.room(),
        ensures
            final(self).wf(),
            final(self).flavor == old(self).flavor,
            ({
                let seen = old(self).reader.seen() + bytes@;
                match action {
                    RoundtripAction::Read(n) => {
                        &&& final(self).stage == old(self).stage
                        &&& final(self).first == old(self).first
                        &&& final(self).reader.seen() == seen
                        &&& 1 <= n <= final(self).reader.room()
                        &&& forall|body: Seq<u8>| !is_frame(seen, body)
                    },
                    RoundtripAction::Decode(body) => {
                        &&& is_frame(seen, body@)
                        &&& final(self).first == old(self).first
                        &&& final(self).reader.seen() == Seq::<u8>::empty()
                        &&& final(self).stage == if old(self).stage
                            == RoundtripStage::ReadingFirst {
                            RoundtripStage::DecodingFirst
                        } else {
                            RoundtripStage::DecodingSecond
                        }
                    },
                    RoundtripAction::Finish { result, keep } => {
                        &&& seen.len() == varint::MAX_VARINT_LEN
                        &&& forall|j: int| 0 <= j < seen.len() ==> #[trigger] seen[j] >= 128
                        &&& result matches Err(AbciClientError::Transport(t)) && t@
                            == "invalid varint length prefix"@
                        &&& keep == (old(self).flavor == RoundtripFlavor::Client)
                        &&& final(self).stage == RoundtripStage::Finished
                    },
                    _ => false,
                }
            }),
    {
        match self.reader.push(bytes) {
            FrameStep::More => RoundtripAction::Read(self.reader.wanted()),
            FrameStep::Frame(body) => {
                self.stage = match self.stage {
                    RoundtripStage::ReadingFirst => RoundtripStage::DecodingFirst,
                    _ => RoundtripStage::DecodingSecond,
                };
                RoundtripAction::Decode(body)
            },
            FrameStep::Invalid => self.failed(
                AbciClientError::Transport(String::from_str("invalid varint length prefix")),
            ),
        }
    }

    /// A response was decoded; `is_flush` says whether it answers a flush.
    pub fn decoded(&mut self, response: R, is_flush: bool) -> (action: RoundtripAction<R>)
        requires
            old(self).wf(),
            old(self).stage == RoundtripStage::DecodingFirst || old(self).stage
                == RoundtripStage::DecodingSecond,
        ensures
            final(self).wf(),
            final(self).flavor == old(self).flavor,
            if old(self).stage == RoundtripStage::DecodingFirst {
                &&& final(self).stage == RoundtripStage::ReadingSecond
                &&& final(self).first == Some(response)
                &&& final(self).reader == old(self).reader
                &&& action matches RoundtripAction::Read(n) && 1 <= n <= final(self).reader.room()
            } else {
                &&& final(self).stage == RoundtripStage::Finished
                &&& action matches RoundtripAction::Finish { result, keep } && if is_flush {
                    &&& result == Ok::<R, AbciClientError>(old(self).first->0)
                    &&& keep
                } else {
                    &&& result matches Err(AbciClientError::Transport(t)) && t@
                        == old(self).flavor.flush_text()
                    &&& keep == (old(self).flavor == RoundtripFlavor::Client)
                }
            },
    {
        match self.stage {
            RoundtripStage::DecodingFirst => {
                self.stage = RoundtripStage::ReadingSecond;
                self.first = Some(response);
                RoundtripAction::Read(self.reader.wanted())
            },
            _ => {
                if !is_flush {
                    let text: String = self.flavor.flush_message();
                    return self.failed(AbciClientError::Transport(text));
                }
                self.stage = RoundtripStage::Finished;
                let first: R = self.first.take().unwrap();
                RoundtripAction::Finish { result: Ok(first), keep: true }
            },
        }
    }

    /// Connecting, writing, reading or decoding failed. A connection that was
    /// never opened is not kept.
    pub fn failed(&mut self, error: AbciClientError) -> (action: RoundtripAction<R>)
        requires
            old(self).reader.wf(),
        ensures
            final(self).wf(),
            final(self).flavor == old(self).flavor,
            final(self).stage == RoundtripStage::Finished,
            action == (RoundtripAction::<R>::Finish {
                result: Err(error),
                keep: old(self).stage != RoundtripStage::Connecting && old(self).flavor
                    == RoundtripFlavor::Client,
            }),
    {
        let keep: bool = self.stage != RoundtripStage::Connecting && self.flavor
            == RoundtripFlavor::Client;
        self.stage = RoundtripStage::Finished;
        self.first = None;
        RoundtripAction::Finish { result: Err(error), keep }
    }
}

/// A frame is its length, seven bits to a byte with the least significant ones
/// first, and then its body: a body of less than a hundred and twenty-eight
/// bytes stands behind one byte that is its length.
pub proof fn frames_start_with_their_length(body: Seq<u8>)
    ensures
        frame_bytes(body).len() == varint::varint_bytes(body.len()).len() + body.len(),
        frame_bytes(body).skip(varint::varint_bytes(body.len()).len() as int) == body,
        body.len() < 128 ==> frame_bytes(body) == seq![body.len() as u8] + body,
        varint::varint_value(
            frame_bytes(body).take(varint::varint_bytes(body.len()).len() as int),
        ) == body.len(),
{
    let p = varint::varint_bytes(body.len());
    varint::varint_roundtrip(body.len());
    assert(frame_bytes(body).skip(p.len() as int) =~= body);
    assert(frame_bytes(body).take(p.len() as int) =~= p);
}

/// Bytes are a frame if and only if they start with a length of ten bytes at
/// most, the first one below a hundred and twenty-eight ending it, and just as
/// many bytes follow as it says.
pub proof fn frames_hold_what_their_length_says(bytes: Seq<u8>, body: Seq<u8>, last: int)
    requires
        0 <= last < bytes.len(),
        bytes[last] < 128,
        forall|j: int| 0 <= j < last ==> #[trigger] bytes[j] >= 128,
    ensures
        is_frame(bytes, body) <==> {
            &&& last < 10
            &&& bytes == bytes.take(last + 1) + body
            &&& body.len() == varint::varint_value(bytes.take(last + 1))
                % 0x1_0000_0000_0000_0000
        },
{
    let head = bytes.take(last + 1);
    if is_frame(bytes, body) {
        let l = choose|l: int| #[trigger] is_frame_at(bytes, body, l);
        assert(l == last) by {
            if l < last {
                assert(bytes[l] >= 128);
            } else if last < l {
                assert(bytes[last] >= 128);
            }
        }
        assert(bytes =~= head + body);
    }
    if last < 10 && bytes == head + body && body.len() == varint::varint_value(head)
        % 0x1_0000_0000_0000_0000 {
        assert(bytes.skip(last + 1) =~= body);
        assert(is_frame_at(bytes, body, last));
    }
}

/// A missing flush is told by each side in its own words.
pub proof fn missing_flushes_are_told()
    ensures
        RoundtripFlavor::Client.flush_text() == "expected trailing flush response"@,
        RoundtripFlavor::Integration.flush_text()
            == "socket ABCI protocol expected trailing flush response"@,
{
}

} // verus!

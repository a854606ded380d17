//! Local control channel between the wrapper and the Java bridge.
//!
//! Every packet is one type byte, a payload, and a NUL terminator. The
//! decoder (`Framer`) keeps partial packets across reads, so the way the byte
//! stream is cut into reads never changes the packets it yields.
use vstd::prelude::*;

use vstd::string::StringSliceAdditionalSpecFns;

use crate::error::{Error, owned};

verus! {

pub const START: u8 = 100;
pub const STOP: u8 = 101;
pub const RESTART: u8 = 102;
pub const PING: u8 = 103;
pub const STOP_PENDING: u8 = 104;
pub const START_PENDING: u8 = 105;
pub const STARTED: u8 = 106;
pub const STOPPED: u8 = 107;
pub const KEY: u8 = 110;
pub const BAD_KEY: u8 = 111;
pub const LOW_LOG_LEVEL: u8 = 112;
pub const SERVICE_CONTROL: u8 = 114;
pub const PROPERTIES: u8 = 115;
pub const LOG_BASE: u8 = 116;
pub const LOGFILE: u8 = 134;
pub const PAUSE: u8 = 138;
pub const RESUME: u8 = 139;
pub const GC: u8 = 140;

pub const MAX_PACKET_SIZE: usize = 1048576;

/// Message the wrapper sends to a connection that presented a wrong key.
pub const BAD_KEY_MESSAGE: &'static str = "Authentication failed.";

#[derive(Debug, Clone, PartialEq, Eq)]
pub struct Packet {
    pub code: u8,
    pub message: Vec<u8>,
}

/// Mathematical model of a packet.
pub struct PacketModel {
    pub code: u8,
    pub message: Seq<u8>,
}

impl View for Packet {
    type V = PacketModel;

    open spec fn view(&self) -> PacketModel {
        PacketModel { code: self.code, message: self.message@ }
    }
}

/// A payload can be framed: it fits the size limit and holds no NUL byte.
pub open spec fn frameable(message: Seq<u8>) -> bool {
    message.len() <= MAX_PACKET_SIZE && !message.contains(0u8)
}

/// The bytes of one framed packet.
pub open spec fn frame(code: u8, message: Seq<u8>) -> Seq<u8> {
    seq![code] + message + seq![0u8]
}

/// The bytes of a sequence of framed packets, one after the other.
pub open spec fn frames(packets: Seq<PacketModel>) -> Seq<u8>
    decreases packets.len(),
{
    if packets.len() == 0 {
        Seq::empty()
    } else {
        frames(packets.drop_last()) + frame(packets.last().code, packets.last().message)
    }
}

/// Decoder state: the type byte of a packet being received, and its payload
/// so far.
pub struct FramerModel {
    pub pending: Option<u8>,
    pub partial: Seq<u8>,
}

pub open spec fn idle_model() -> FramerModel {
    FramerModel { pending: None, partial: Seq::empty() }
}

pub open spec fn well_formed_model(st: FramerModel) -> bool {
    &&& st.pending is None ==> st.partial.len() == 0
    &&& st.partial.len() <= MAX_PACKET_SIZE
}

/// Outcome of decoding bytes: the new state and the completed packets, or a
/// protocol error (a payload longer than the limit).
pub enum FeedModel {
    Fed { state: FramerModel, packets: Seq<PacketModel> },
    Failed,
}

/// Effect of one received byte.
pub open spec fn step(st: FramerModel, b: u8) -> FeedModel {
    match st.pending {
        None => FeedModel::Fed {
            state: FramerModel { pending: Some(b), partial: st.partial },
            packets: Seq::empty(),
        },
        Some(code) => if b == 0 {
            FeedModel::Fed {
                state: FramerModel { pending: None, partial: Seq::empty() },
                packets: seq![PacketModel { code, message: st.partial }],
            }
        } else if st.partial.len() >= MAX_PACKET_SIZE {
            FeedModel::Failed
        } else {
            FeedModel::Fed {
                state: FramerModel { pending: Some(code), partial: st.partial.push(b) },
                packets: Seq::empty(),
            }
        },
    }
}

/// Effect of a run of received bytes, processed first to last.
pub open spec fn feed_model(st: FramerModel, bytes: Seq<u8>) -> FeedModel
    decreases bytes.len(),
{
    if bytes.len() == 0 {
        FeedModel::Fed { state: st, packets: Seq::empty() }
    } else {
        match feed_model(st, bytes.drop_last()) {
            FeedModel::Failed => FeedModel::Failed,
            FeedModel::Fed { state, packets } => match step(state, bytes.last()) {
                FeedModel::Failed => FeedModel::Failed,
                FeedModel::Fed { state: s2, packets: p2 } => FeedModel::Fed {
                    state: s2,
                    packets: packets + p2,
                },
            },
        }
    }
}

/// Outcome of reading one packet from the start of a byte stream.
pub enum ReadModel {
    Packet(PacketModel),
    EndOfStream,
    Failed,
}

/// Reads bytes one at a time until a packet completes: a packet, the end of
/// the stream between packets, or an error (the stream ended inside a
/// packet, or a payload exceeded the limit).
pub open spec fn read_model(st: FramerModel, bytes: Seq<u8>) -> ReadModel
    decreases bytes.len(),
{
    if bytes.len() == 0 {
        if st.pending is None {
            ReadModel::EndOfStream
        } else {
            ReadModel::Failed
        }
    } else {
        match step(st, bytes[0]) {
            FeedModel::Failed => ReadModel::Failed,
            FeedModel::Fed { state, packets } => if packets.len() > 0 {
                ReadModel::Packet(packets[0])
            } else {
                read_model(state, bytes.drop_first())
            },
        }
    }
}

/// Why a payload cannot be framed: its size first, then a NUL byte.
pub open spec fn unframeable_message(message: Seq<u8>) -> Seq<char> {
    if message.len() > MAX_PACKET_SIZE {
        "packet larger than 1048576 bytes"@
    } else {
        "a packet payload cannot contain a NUL byte"@
    }
}

impl Packet {
    /// A packet whose payload is the UTF-8 encoding of `message`.
    pub fn text(code: u8, message: &str) -> (r: Packet)
        ensures
            r.code == code,
            r.message@ == message.spec_bytes(),
    {
        let bytes = message.as_bytes();
        let mut out: Vec<u8> = Vec::new();
        let mut i: usize = 0;
        while i < bytes.len()
            invariant
                i <= bytes.len(),
                out@ == bytes@.take(i as int),
            decreases bytes.len() - i,
        {
            out.push(bytes[i]);
            assert(bytes@.take(i as int + 1) == bytes@.take(i as int).push(bytes@[i as int]));
            i += 1;
        }
        assert(bytes@.take(bytes.len() as int) == bytes@);
        Packet { code, message: out }
    }

    /// The framed bytes of the packet, or an error when the payload is too
    /// large or holds a NUL byte.
    pub fn encode(&self) -> (r: Result<Vec<u8>, Error>)
        ensures
            match r {
                Ok(bytes) => frameable(self.message@) && bytes@ == frame(self.code, self.message@),
                Err(e) => !frameable(self.message@) && (e matches Error::Protocol(m) && m@
                    == unframeable_message(self.message@)),
            },
    {
        if self.message.len() > MAX_PACKET_SIZE {
            return Err(Error::Protocol(owned("packet larger than 1048576 bytes")));
        }
        let mut out: Vec<u8> = Vec::new();
        out.push(self.code);
        let mut i: usize = 0;
        while i < self.message.len()
            invariant
                i <= self.message.len(),
                self.message.len() <= MAX_PACKET_SIZE,
                out@ == seq![self.code] + self.message@.take(i as int),
                forall|j: int| 0 <= j < i ==> self.message@[j] != 0u8,
            decreases self.message.len() - i,
        {
            if self.message[i] == 0 {
                assert(self.message@.contains(0u8));
                return Err(Error::Protocol(owned("a packet payload cannot contain a NUL byte")));
            }
            out.push(self.message[i]);
            assert(self.message@.take(i as int + 1) == self.message@.take(i as int).push(
                self.message@[i as int],
            ));
            i += 1;
        }
        out.push(0);
        assert(self.message@.take(self.message.len() as int) == self.message@);
        assert(!self.message@.contains(0u8));
        assert(out@ =~= frame(self.code, self.message@));
        Ok(out)
    }

    /// Appends the framed packet to `writer`. A packet that cannot be framed
    /// is refused and nothing is written.
    pub fn write_to(&self, writer: &mut Vec<u8>) -> (r: Result<(), Error>)
        ensures
            r is Ok <==> frameable(self.message@),
            r is Ok ==> final(writer)@ == old(writer)@ + frame(self.code, self.message@),
            r is Err ==> final(writer)@ == old(writer)@,
            r matches Err(e) ==> e matches Error::Protocol(m) && m@ == unframeable_message(
                self.message@,
            ),
    {
        let bytes = self.encode()?;
        let ghost start = writer@;
        let mut i: usize = 0;
        while i < bytes.len()
            invariant
                i <= bytes.len(),
                writer@ == start + bytes@.take(i as int),
            decreases bytes.len() - i,
        {
            writer.push(bytes[i]);
            assert(bytes@.take(i as int + 1) == bytes@.take(i as int).push(bytes@[i as int]));
            i += 1;
        }
        assert(bytes@.take(bytes.len() as int) == bytes@);
        Ok(())
    }

    /// Reads one complete packet from the start of `bytes`, as a blocking
    /// reader would deliver them: `Ok(None)` when the stream ends between
    /// packets, an error when it ends inside one.
    pub fn read_from(bytes: &[u8]) -> (r: Result<Option<Packet>, Error>)
        ensures
            match read_model(idle_model(), bytes@) {
                ReadModel::Packet(p) => r matches Ok(Some(q)) && q@ == p,
                ReadModel::EndOfStream => r matches Ok(None),
                ReadModel::Failed => r is Err,
            },
    {
        let mut framer = Framer::new();
        let mut i: usize = 0;
        assert(bytes@.skip(0) =~= bytes@);
        while i < bytes.len()
            invariant
                i <= bytes.len(),
                framer.wf(),
                read_model(idle_model(), bytes@) == read_model(framer@, bytes@.skip(i as int)),
            decreases bytes.len() - i,
        {
            proof {
                assert(bytes@.skip(i as int).drop_first() =~= bytes@.skip(i as int + 1));
                assert(bytes@.skip(i as int)[0] == bytes@[i as int]);
            }
            let ghost before = framer@;
            match framer.feed_byte(bytes[i]) {
                Err(e) => {
                    return Err(e);
                },
                Ok(Some(packet)) => {
                    return Ok(Some(packet));
                },
                Ok(None) => {},
            }
            i += 1;
        }
        if framer.is_idle() {
            Ok(None)
        } else {
            Err(Error::Protocol(owned("connection closed inside a packet")))
        }
    }

    /// The payload decoded as UTF-8, with invalid sequences replaced.
    pub fn message_lossy(&self) -> (r: String)
        ensures
            r@ == utf8_lossy(self.message@),
    {
        lossy_text(&self.message)
    }
}

/// `String::from_utf8_lossy`: the text of UTF-8 bytes with every invalid
/// sequence replaced by U+FFFD.
pub uninterp spec fn utf8_lossy(bytes: Seq<u8>) -> Seq<char>;

/// Calls `String::from_utf8_lossy`; its result is named `utf8_lossy`.
#[verifier::external_body]
pub(crate) fn lossy_text(bytes: &[u8]) -> (r: String)
    ensures
        r@ == utf8_lossy(bytes@),
{
    String::from_utf8_lossy(bytes).into_owned()
}

/// Incremental packet decoder. Partial packets survive across reads, so a
/// packet split over several reads is never misinterpreted.
#[derive(Debug)]
pub struct Framer {
    pending_code: Option<u8>,
    partial: Vec<u8>,
}

impl View for Framer {
    type V = FramerModel;

    closed spec fn view(&self) -> FramerModel {
        FramerModel { pending: self.pending_code, partial: self.partial@ }
    }
}

impl Framer {
    pub closed spec fn wf(&self) -> bool {
        well_formed_model(self@)
    }

    pub fn new() -> (r: Framer)
        ensures
            r@ == idle_model(),
            r.wf(),
    {
        Framer { pending_code: None, partial: Vec::new() }
    }

    /// Feeds one byte; returns the packet it completes, if any.
    pub fn feed_byte(&mut self, byte: u8) -> (r: Result<Option<Packet>, Error>)
        requires
            old(self).wf(),
        ensures
            final(self).wf(),
            match step(old(self)@, byte) {
                FeedModel::Failed => r is Err,
                FeedModel::Fed { state, packets } => {
                    &&& final(self)@ == state
                    &&& r is Ok
                    &&& packets.len() <= 1
                    &&& (packets.len() == 0 <==> r matches Ok(None))
                    &&& packets.len() == 1 ==> (r matches Ok(Some(p)) && p@ == packets[0])
                },
            },
    {
        match self.pending_code {
            None => {
                self.pending_code = Some(byte);
                Ok(None)
            },
            Some(code) => {
                if byte == 0 {
                    let mut message: Vec<u8> = Vec::new();
                    std::mem::swap(&mut message, &mut self.partial);
                    self.pending_code = None;
                    Ok(Some(Packet { code, message }))
                } else if self.partial.len() >= MAX_PACKET_SIZE {
                    Err(Error::Protocol(owned("packet larger than 1048576 bytes")))
                } else {
                    self.partial.push(byte);
                    Ok(None)
                }
            },
        }
    }

    /// Feeds received bytes and returns every packet completed by them.
    pub fn feed(&mut self, bytes: &[u8]) -> (r: Result<Vec<Packet>, Error>)
        requires
            old(self).wf(),
        ensures
            match feed_model(old(self)@, bytes@) {
                FeedModel::Failed => r is Err,
                FeedModel::Fed { state, packets } => {
                    &&& final(self).wf()
                    &&& final(self)@ == state
                    &&& r matches Ok(ps) && ps@.map_values(|p: Packet| p@) == packets
                },
            },
    {
        let ghost start = old(self)@;
        let mut completed: Vec<Packet> = Vec::new();
        let mut i: usize = 0;
        assert(bytes@.take(0) =~= Seq::<u8>::empty());
        assert(completed@.map_values(|p: Packet| p@) =~= Seq::<PacketModel>::empty());
        while i < bytes.len()
            invariant
                i <= bytes.len(),
                self.wf(),
                start == old(self)@,
                feed_model(start, bytes@.take(i as int)) == (FeedModel::Fed {
                    state: self@,
                    packets: completed@.map_values(|p: Packet| p@),
                }),
            decreases bytes.len() - i,
        {
            proof {
                assert(bytes@.take(i as int + 1).drop_last() =~= bytes@.take(i as int));
                assert(bytes@.take(i as int + 1).last() == bytes@[i as int]);
            }
            let ghost before_state = self@;
            match self.feed_byte(bytes[i]) {
                Err(e) => {
                    proof {
                        assert(step(before_state, bytes@[i as int]) is Failed);
                        assert(feed_model(start, bytes@.take(i as int + 1)) is Failed);
                        lemma_feed_failed_extends(start, bytes@, i as int + 1);
                    }
                    return Err(e);
                },
                Ok(Some(packet)) => {
                    let ghost before = completed@;
                    completed.push(packet);
                    proof {
                        assert(completed@.map_values(|p: Packet| p@) =~= before.map_values(
                            |p: Packet| p@,
                        ) + seq![packet@]);
                    }
                },
                Ok(None) => {
                    proof {
                        assert(completed@.map_values(|p: Packet| p@) =~= completed@.map_values(
                            |p: Packet| p@,
                        ) + Seq::<PacketModel>::empty());
                    }
                },
            }
            i += 1;
        }
        assert(bytes@.take(bytes.len() as int) =~= bytes@);
        Ok(completed)
    }

    /// No packet is partly received.
    pub fn is_idle(&self) -> (r: bool)
        ensures
            r == (self@.pending is None),
    {
        self.pending_code.is_none()
    }
}

impl Default for Framer {
    fn default() -> (r: Framer)
        ensures
            r@ == idle_model(),
            r.wf(),
    {
        Framer::new()
    }
}

/// Once decoding fails, more bytes do not undo the failure.
proof fn lemma_feed_failed_extends(st: FramerModel, bytes: Seq<u8>, k: int)
    requires
        0 <= k <= bytes.len(),
        feed_model(st, bytes.take(k)) is Failed,
    ensures
        feed_model(st, bytes) is Failed,
    decreases bytes.len() - k,
{
    if k < bytes.len() {
        assert(bytes.take(k + 1).drop_last() =~= bytes.take(k));
        lemma_feed_failed_extends(st, bytes, k + 1);
    } else {
        assert(bytes.take(k) =~= bytes);
    }
}

/// Splitting the received bytes into two reads gives the same packets and
/// state as receiving them in one: decoding `a + b` is decoding `a`, then
/// decoding `b` from the state `a` left, with the packets of both reads in
/// order.
pub proof fn lemma_feed_split(st: FramerModel, a: Seq<u8>, b: Seq<u8>)
    ensures
        feed_model(st, a + b) == (match feed_model(st, a) {
            FeedModel::Failed => FeedModel::Failed,
            FeedModel::Fed { state: s1, packets: p1 } => match feed_model(s1, b) {
                FeedModel::Failed => FeedModel::Failed,
                FeedModel::Fed { state: s2, packets: p2 } => FeedModel::Fed {
                    state: s2,
                    packets: p1 + p2,
                },
            },
        }),
    decreases b.len(),
{
    if b.len() == 0 {
        assert(a + b =~= a);
        match feed_model(st, a) {
            FeedModel::Failed => {},
            FeedModel::Fed { state: s1, packets: p1 } => {
                assert(p1 + Seq::<PacketModel>::empty() =~= p1);
            },
        }
    } else {
        assert((a + b).drop_last() =~= a + b.drop_last());
        assert((a + b).last() == b.last());
        lemma_feed_split(st, a, b.drop_last());
        match feed_model(st, a) {
            FeedModel::Failed => {},
            FeedModel::Fed { state: s1, packets: p1 } => {
                match feed_model(s1, b.drop_last()) {
                    FeedModel::Failed => {},
                    FeedModel::Fed { state: s2, packets: p2 } => {
                        match step(s2, b.last()) {
                            FeedModel::Failed => {},
                            FeedModel::Fed { state: s3, packets: p3 } => {
                                assert(p1 + p2 + p3 =~= p1 + (p2 + p3));
                            },
                        }
                    },
                }
            },
        }
    }
}

/// Feeding a framed packet's payload to a framer that has already seen the
/// type byte accumulates the payload.
proof fn lemma_feed_payload(code: u8, prefix: Seq<u8>, message: Seq<u8>)
    requires
        prefix.len() + message.len() <= MAX_PACKET_SIZE,
        !message.contains(0u8),
    ensures
        feed_model(FramerModel { pending: Some(code), partial: prefix }, message) == (
        FeedModel::Fed {
            state: FramerModel { pending: Some(code), partial: prefix + message },
            packets: Seq::empty(),
        }),
    decreases message.len(),
{
    if message.len() == 0 {
        assert(prefix + message =~= prefix);
    } else {
        let m = message.drop_last();
        assert forall|j: int| 0 <= j < m.len() implies m[j] != 0u8 by {
            assert(m[j] == message[j]);
        }
        assert(!m.contains(0u8));
        lemma_feed_payload(code, prefix, m);
        assert(message.last() != 0u8) by {
            assert(message[message.len() - 1] == message.last());
        }
        assert((prefix + m).push(message.last()) =~= prefix + message);
        assert(Seq::<PacketModel>::empty() + Seq::<PacketModel>::empty() =~= Seq::<
            PacketModel,
        >::empty());
    }
}

/// Decoding the frame of a valid packet from an idle framer yields exactly
/// that packet and leaves the framer idle.
pub proof fn lemma_frame_round_trip(code: u8, message: Seq<u8>)
    requires
        frameable(message),
    ensures
        feed_model(idle_model(), frame(code, message)) == (FeedModel::Fed {
            state: idle_model(),
            packets: seq![PacketModel { code, message }],
        }),
{
    let head = seq![code];
    let st1 = FramerModel { pending: Some(code), partial: Seq::empty() };
    assert(feed_model(idle_model(), head) == (FeedModel::Fed { state: st1, packets: Seq::empty() })) by {
        assert(head.drop_last() =~= Seq::<u8>::empty());
        assert(head.last() == code);
        assert(feed_model(idle_model(), Seq::<u8>::empty()) == (FeedModel::Fed { state: idle_model(), packets: Seq::empty() }));
        assert(Seq::<PacketModel>::empty() + Seq::<PacketModel>::empty() =~= Seq::<
            PacketModel,
        >::empty());
    }
    lemma_feed_payload(code, Seq::empty(), message);
    assert(Seq::<u8>::empty() + message =~= message);
    lemma_feed_split(idle_model(), head, message);
    assert(Seq::<PacketModel>::empty() + Seq::<PacketModel>::empty() =~= Seq::<PacketModel>::empty());
    let st2 = FramerModel { pending: Some(code), partial: message };
    let tail = seq![0u8];
    assert(feed_model(st2, tail) == (FeedModel::Fed {
        state: idle_model(),
        packets: seq![PacketModel { code, message }],
    })) by {
        assert(tail.drop_last() =~= Seq::<u8>::empty());
        assert(tail.last() == 0u8);
        assert(feed_model(st2, Seq::<u8>::empty()) == (FeedModel::Fed { state: st2, packets: Seq::empty() }));
        assert(Seq::<PacketModel>::empty() + seq![PacketModel { code, message }] =~= seq![
            PacketModel { code, message },
        ]);
        assert(Seq::<u8>::empty() =~= idle_model().partial);
    }
    lemma_feed_split(idle_model(), head + message, tail);
    assert(Seq::<PacketModel>::empty() + seq![PacketModel { code, message }] =~= seq![
        PacketModel { code, message },
    ]);
}

/// Any sequence of valid packets, framed one after the other, decodes to
/// the same packets in the same order, whatever reads the bytes arrive in.
pub proof fn lemma_frames_round_trip(packets: Seq<PacketModel>)
    requires
        forall|i: int| 0 <= i < packets.len() ==> frameable(#[trigger] packets[i].message),
    ensures
        feed_model(idle_model(), frames(packets)) == (FeedModel::Fed {
            state: idle_model(),
            packets,
        }),
    decreases packets.len(),
{
    if packets.len() == 0 {
        assert(packets =~= Seq::<PacketModel>::empty());
        assert(frames(packets) =~= Seq::<u8>::empty());
    } else {
        let rest = packets.drop_last();
        assert forall|i: int| 0 <= i < rest.len() implies frameable(#[trigger] rest[i].message) by {
            assert(rest[i] == packets[i]);
        }
        lemma_frames_round_trip(rest);
        let last = packets.last();
        assert(frameable(packets[packets.len() - 1].message));
        lemma_frame_round_trip(last.code, last.message);
        lemma_feed_split(idle_model(), frames(rest), frame(last.code, last.message));
        assert(rest + seq![last] =~= packets);
        assert(last == PacketModel { code: last.code, message: last.message });
        assert(frames(packets) == frames(rest) + frame(last.code, last.message));
    }
}

/// A blocking read of a framed packet, whatever follows it, returns that
/// packet: what `write_to` writes, `read_from` gives back.
pub proof fn lemma_read_after_write(code: u8, message: Seq<u8>, rest: Seq<u8>)
    requires
        frameable(message),
    ensures
        read_model(idle_model(), frame(code, message) + rest) == ReadModel::Packet(
            PacketModel { code, message },
        ),
{
    let bytes = frame(code, message) + rest;
    let st1 = FramerModel { pending: Some(code), partial: Seq::empty() };
    assert(bytes[0] == code);
    assert(bytes.drop_first() =~= message + (seq![0u8] + rest));
    lemma_read_payload(code, Seq::empty(), message, rest);
    assert(Seq::<u8>::empty() + message =~= message);
}

proof fn lemma_read_payload(code: u8, prefix: Seq<u8>, message: Seq<u8>, rest: Seq<u8>)
    requires
        prefix.len() + message.len() <= MAX_PACKET_SIZE,
        !message.contains(0u8),
    ensures
        read_model(FramerModel { pending: Some(code), partial: prefix }, message + (seq![0u8] + rest))
            == ReadModel::Packet(PacketModel { code, message: prefix + message }),
    decreases message.len(),
{
    let bytes = message + (seq![0u8] + rest);
    if message.len() == 0 {
        assert(bytes =~= seq![0u8] + rest);
        assert(bytes[0] == 0u8);
        assert(prefix + message =~= prefix);
    } else {
        assert(bytes[0] == message[0]);
        assert(message[0] != 0u8) by {
            if message[0] == 0u8 {
                assert(message.contains(0u8));
            }
        }
        let m = message.drop_first();
        assert forall|j: int| 0 <= j < m.len() implies m[j] != 0u8 by {
            assert(m[j] == message[j + 1]);
        }
        assert(!m.contains(0u8));
        assert(bytes.drop_first() =~= m + (seq![0u8] + rest));
        lemma_read_payload(code, prefix.push(message[0]), m, rest);
        assert(prefix.push(message[0]) + m =~= prefix + message);
    }
}


/// What the reader of an authenticated connection delivers.
#[derive(Debug, Clone, PartialEq, Eq)]
pub enum ReceiveEvent {
    Packet(Packet),
    Disconnected,
}

/// The first packet of a connection authenticates it when it is a key
/// packet whose payload is the expected key.
pub fn presents_key(first: &Packet, expected_key: &str) -> (r: bool)
    ensures
        r == (first.code == KEY && first.message@ == expected_key.spec_bytes()),
{
    if first.code != KEY {
        return false;
    }
    let key = expected_key.as_bytes();
    assert(key@ == expected_key.spec_bytes());
    if key.len() != first.message.len() {
        return false;
    }
    let mut i: usize = 0;
    while i < key.len()
        invariant
            i <= key.len(),
            key.len() == first.message.len(),
            key@ == expected_key.spec_bytes(),
            first.code == KEY,
            forall|j: int| 0 <= j < i ==> key@[j] == first.message@[j],
        decreases key.len() - i,
    {
        if key[i] != first.message[i] {
            assert(key@[i as int] != first.message@[i as int]);
            assert(key@ != first.message@);
            return false;
        }
        i += 1;
    }
    assert(key@ =~= first.message@);
    true
}

/// What one non-blocking read of a connection that has not authenticated
/// yet gave.
#[derive(Debug)]
pub enum HandshakeRead {
    /// These bytes arrived.
    Bytes(Vec<u8>),
    /// The peer closed the connection.
    Closed,
    /// Nothing is available yet, or the read was interrupted.
    Pending,
    /// The read failed.
    Failed,
}

/// What becomes of a connection that has not authenticated yet.
#[derive(Debug)]
pub enum HandshakeStep {
    /// Wait for more bytes.
    Keep,
    /// Close the connection without an answer.
    Drop,
    /// The first packet did not present the key: answer `BAD_KEY`, then
    /// close the connection.
    Reject,
    /// The key was presented; these packets followed it in the same read.
    Authenticated(Vec<Packet>),
}

/// The handshake step of a pending connection: a connection past its
/// deadline, closed by the peer, failing to read or sending bytes that
/// cannot be framed is dropped; one with nothing new, or with no complete
/// packet yet, is kept; otherwise its first packet decides, with the key
/// authenticating the connection and anything else rejecting it.
pub open spec fn handshake_outcome(
    framer: FramerModel,
    expired: bool,
    read: HandshakeRead,
    key: Seq<u8>,
    r: HandshakeStep,
    after: FramerModel,
) -> bool {
    if expired {
        r is Drop && after == framer
    } else {
        match read {
            HandshakeRead::Closed | HandshakeRead::Failed => r is Drop && after == framer,
            HandshakeRead::Pending => r is Keep && after == framer,
            HandshakeRead::Bytes(bytes) => match feed_model(framer, bytes@) {
                FeedModel::Failed => r is Drop,
                FeedModel::Fed { state, packets } => after == state && if packets.len() == 0 {
                    r is Keep
                } else if packets[0].code == KEY && packets[0].message == key {
                    r matches HandshakeStep::Authenticated(rest) && rest@.map_values(|p: Packet| p@)
                        == packets.drop_first()
                } else {
                    r is Reject
                },
            },
        }
    }
}

/// Advances the handshake of a pending connection by one read; `expired`
/// tells whether its deadline has passed.
pub fn advance_handshake(
    framer: &mut Framer,
    expired: bool,
    read: HandshakeRead,
    expected_key: &str,
) -> (r: HandshakeStep)
    requires
        old(framer).wf(),
    ensures
        handshake_outcome(old(framer)@, expired, read, expected_key.spec_bytes(), r, final(framer)@),
        !(r is Drop) ==> final(framer).wf(),
{
    if expired {
        return HandshakeStep::Drop;
    }
    match read {
        HandshakeRead::Closed | HandshakeRead::Failed => HandshakeStep::Drop,
        HandshakeRead::Pending => HandshakeStep::Keep,
        HandshakeRead::Bytes(bytes) => {
            let mut packets = match framer.feed(&bytes) {
                Ok(packets) => packets,
                Err(_) => return HandshakeStep::Drop,
            };
            if packets.len() == 0 {
                return HandshakeStep::Keep;
            }
            let ghost all = packets@.map_values(|p: Packet| p@);
            let first = packets.remove(0);
            assert(first@ == all[0]);
            assert(packets@.map_values(|p: Packet| p@) =~= all.drop_first());
            if presents_key(&first, expected_key) {
                HandshakeStep::Authenticated(packets)
            } else {
                HandshakeStep::Reject
            }
        },
    }
}

/// Which ports the control channel tries.
#[derive(Debug, Clone, Copy, PartialEq, Eq, Structural)]
pub enum PortPlan {
    /// The configured port.
    Fixed(u16),
    /// Each port of the range in turn, until one is free.
    Range(u16, u16),
}

/// A configured non-zero port is used as is; otherwise the range, which must
/// not be empty.
pub fn port_plan(configured: Option<u16>, minimum: u16, maximum: u16) -> (r: Result<PortPlan, Error>)
    ensures
        match configured {
            Some(p) if p != 0 => r == Ok::<PortPlan, Error>(PortPlan::Fixed(p)),
            _ => if maximum < minimum {
                r matches Err(Error::Config(m)) && m@ == "wrapper.port.max ("@ + crate::text::decimal(
                    maximum as nat,
                ) + ") is lower than wrapper.port.min ("@ + crate::text::decimal(minimum as nat) + ")"@
            } else {
                r == Ok::<PortPlan, Error>(PortPlan::Range(minimum, maximum))
            },
        },
{
    match configured {
        Some(p) => {
            if p != 0 {
                return Ok(PortPlan::Fixed(p));
            }
        },
        None => {},
    }
    if maximum < minimum {
        let mut m = crate::text::chars_of("wrapper.port.max (");
        let a = crate::text::decimal_chars(maximum as u64);
        crate::text::append(&mut m, &a);
        crate::text::append_str(&mut m, ") is lower than wrapper.port.min (");
        let b = crate::text::decimal_chars(minimum as u64);
        crate::text::append(&mut m, &b);
        crate::text::append_str(&mut m, ")");
        return Err(Error::Config(crate::text::string_of(&m)));
    }
    Ok(PortPlan::Range(minimum, maximum))
}

/// Length of a channel key in random bytes.
pub const KEY_BYTES: usize = 32;

pub open spec fn hex_digit(n: u8) -> char {
    if n < 10 {
        ((n + 48) as u32) as char
    } else {
        ((n + 87) as u32) as char
    }
}

/// Bytes as lowercase hexadecimal, two digits each.
pub open spec fn hex(bytes: Seq<u8>) -> Seq<char>
    decreases bytes.len(),
{
    if bytes.len() == 0 {
        Seq::empty()
    } else {
        hex(bytes.drop_last()) + seq![hex_digit(bytes.last() / 16), hex_digit(bytes.last() % 16)]
    }
}

fn hex_digit_of(n: u8) -> (r: char)
    requires
        n < 16,
    ensures
        r == hex_digit(n),
{
    if n < 10 {
        (n + 48) as char
    } else {
        (n + 87) as char
    }
}

/// The key text of random bytes.
pub fn hex_key(bytes: &[u8]) -> (r: String)
    ensures
        r@ == hex(bytes@),
{
    let mut out: Vec<char> = Vec::new();
    let mut i: usize = 0;
    assert(bytes@.take(0) =~= Seq::<u8>::empty());
    while i < bytes.len()
        invariant
            i <= bytes.len(),
            out@ == hex(bytes@.take(i as int)),
        decreases bytes.len() - i,
    {
        proof {
            assert(bytes@.take(i + 1).drop_last() =~= bytes@.take(i as int));
            assert(bytes@.take(i + 1).last() == bytes@[i as int]);
        }
        let b = bytes[i];
        out.push(hex_digit_of(b / 16));
        out.push(hex_digit_of(b % 16));
        assert(out@ =~= hex(bytes@.take(i + 1)));
        i += 1;
    }
    assert(bytes@.take(bytes.len() as int) =~= bytes@);
    crate::text::string_of(&out)
}

/// `getrandom::fill`: fills `count` bytes from the system's random source,
/// or gives the text of its error. The bytes are random; only their number
/// is stated.
#[verifier::external_body]
fn random_bytes(count: usize) -> (r: Result<Vec<u8>, String>)
    ensures
        r matches Ok(b) ==> b@.len() == count,
{
    let mut bytes = vec![0u8; count];
    match getrandom::fill(&mut bytes) {
        Ok(()) => Ok(bytes),
        Err(error) => Err(error.to_string()),
    }
}

/// A fresh channel key: 32 random bytes in lowercase hexadecimal.
pub fn generate_key() -> (r: Result<String, Error>)
    ensures
        r matches Ok(k) ==> exists|b: Seq<u8>| b.len() == KEY_BYTES && k@ == hex(b),
        r matches Err(e) ==> (e matches Error::Protocol(m) && crate::text::starts_with(
            m@,
            "could not generate the channel key: "@,
        )),
{
    match random_bytes(KEY_BYTES) {
        Ok(b) => {
            let k = hex_key(&b);
            assert(b@.len() == KEY_BYTES && k@ == hex(b@));
            Ok(k)
        },
        Err(message) => {
            let mut m = crate::text::chars_of("could not generate the channel key: ");
            crate::text::append_str(&mut m, message.as_str());
            let text = crate::text::string_of(&m);
            proof {
                assert(text@.subrange(0, "could not generate the channel key: "@.len() as int)
                    =~= "could not generate the channel key: "@);
            }
            Err(Error::Protocol(text))
        },
    }
}

} // verus!

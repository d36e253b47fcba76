//! The link layer: one frame is a protocol identifier, a payload and a CRC16
//! trailer, carried in one SLIP packet.
//!
//! ```text
//! | END | ProtoID | payload ... | CRC low | CRC high | END |
//! ```

pub use crate::error::Errno;
use crate::error::Error;
use crate::slip;
use std::collections::VecDeque;
use vstd::prelude::*;

verus! {

/// The channel that a frame belongs to.
#[derive(Clone, Copy, Debug, PartialEq, Eq, Structural)]
pub enum Protocol {
    /// Redirected standard input and output of the radio.
    STDIO,
    /// Computer-aided transceiver commands and responses.
    CAT,
    /// File management commands and responses.
    FMP,
    /// Data transfer blocks and acknowledgements.
    DAT,
}

/// The identifier byte of a protocol.
pub open spec fn protocol_code(p: Protocol) -> u8 {
    match p {
        Protocol::STDIO => 0u8,
        Protocol::CAT => 1u8,
        Protocol::FMP => 2u8,
        Protocol::DAT => 3u8,
    }
}

/// The protocol that an identifier byte names, if it names one.
pub open spec fn protocol_of(v: u8) -> Option<Protocol> {
    if v == 0 {
        Some(Protocol::STDIO)
    } else if v == 1 {
        Some(Protocol::CAT)
    } else if v == 2 {
        Some(Protocol::FMP)
    } else if v == 3 {
        Some(Protocol::DAT)
    } else {
        None
    }
}

impl Protocol {
    /// The identifier byte of this protocol.
    pub fn code(self) -> (v: u8)
        ensures
            v == protocol_code(self),
            protocol_of(v) == Some(self),
    {
        match self {
            Protocol::STDIO => 0,
            Protocol::CAT => 1,
            Protocol::FMP => 2,
            Protocol::DAT => 3,
        }
    }

    /// Reads an identifier byte; a byte outside the closed set is refused.
    pub fn try_from(v: u8) -> (r: Result<Protocol, ()>)
        ensures
            r.is_ok() <==> protocol_of(v).is_some(),
            r.is_ok() ==> Some(r.unwrap()) == protocol_of(v),
            r.is_ok() ==> protocol_code(r.unwrap()) == v,
    {
        if v == 0 {
            Ok(Protocol::STDIO)
        } else if v == 1 {
            Ok(Protocol::CAT)
        } else if v == 2 {
            Ok(Protocol::FMP)
        } else if v == 3 {
            Ok(Protocol::DAT)
        } else {
            Err(())
        }
    }
}

/// The CRC-16/AUG-CCITT digest of a message (polynomial 0x1021, initial value
/// 0x1D0F, not reflected, no final XOR), as the `crc16` crate computes it.
pub uninterp spec fn crc16_aug_ccitt(msg: Seq<u8>) -> u16;

/// Calls `crc16::State::<crc16::AUG_CCITT>::calculate`. The digest is a
/// function of the message bytes alone; this contract gives it its name and
/// claims nothing else of it.
#[verifier::external_body]
fn checksum(msg: &[u8]) -> (digest: u16)
    ensures
        digest == crc16_aug_ccitt(msg@),
{
    crc16::State::<crc16::AUG_CCITT>::calculate(msg)
}

/// One unit of the link layer.
#[derive(Debug, PartialEq, Eq)]
pub struct Frame {
    /// The channel that the payload belongs to.
    pub proto: Protocol,
    /// The payload.
    pub data: Vec<u8>,
}

/// A frame as a mathematical value.
pub struct FrameView {
    pub proto: Protocol,
    pub data: Seq<u8>,
}

impl View for Frame {
    type V = FrameView;

    open spec fn view(&self) -> FrameView {
        FrameView { proto: self.proto, data: self.data@ }
    }
}

/// The part of a frame that the CRC is computed over: identifier, then
/// payload.
pub open spec fn body(f: FrameView) -> Seq<u8> {
    seq![protocol_code(f.proto)] + f.data
}

/// A frame body followed by a digest, low byte first.
pub open spec fn sealed(f: FrameView, digest: u16) -> Seq<u8> {
    body(f) + seq![(digest % 256) as u8, (digest / 256) as u8]
}

/// A frame as it travels inside its SLIP packet.
pub open spec fn wire(f: FrameView) -> Seq<u8> {
    sealed(f, crc16_aug_ccitt(body(f)))
}

/// What a received packet `raw` with CRC residue `residue` is read as.
///
/// A residue other than zero is a CRC error. Otherwise the packet must hold
/// an identifier byte and the two CRC bytes, and the identifier must be
/// known; the payload is what lies between them.
pub open spec fn checked(raw: Seq<u8>, residue: u16) -> Result<FrameView, Error> {
    if residue != 0 {
        Err(Error::Crc)
    } else if raw.len() < 3 {
        Err(Error::Protocol)
    } else {
        match protocol_of(raw[0]) {
            Some(p) => Ok(FrameView { proto: p, data: raw.subrange(1, raw.len() - 2) }),
            None => Err(Error::Protocol),
        }
    }
}

/// What a received packet is read as, with the residue that its bytes give.
pub open spec fn parsed(raw: Seq<u8>) -> Result<FrameView, Error> {
    checked(raw, crc16_aug_ccitt(raw))
}

/// `r` is `expected`, frame by its view.
pub open spec fn frame_result_is(r: Result<Frame, Error>, expected: Result<FrameView, Error>) -> bool {
    match r {
        Ok(f) => expected == Ok::<FrameView, Error>(f@),
        Err(e) => expected == Err::<FrameView, Error>(e),
    }
}

impl Frame {
    /// The frame body followed by `digest`, low byte first.
    pub fn seal(self, digest: u16) -> (out: Vec<u8>)
        ensures
            out@ == sealed(self@, digest),
    {
        let mut out: Vec<u8> = Vec::new();
        out.push(self.proto.code());
        let mut data: Vec<u8> = self.data;
        let ghost payload = data@;
        out.append(&mut data);
        assert(out@ == body(self@));
        out.push((digest % 256) as u8);
        out.push((digest / 256) as u8);
        out
    }

    /// The binary form of the frame: identifier, payload, and the CRC16 of
    /// both, low byte first.
    pub fn bin(self) -> (out: Vec<u8>)
        ensures
            out@ == wire(self@),
    {
        let mut head: Vec<u8> = Vec::new();
        head.push(self.proto.code());
        let mut i: usize = 0;
        while i < self.data.len()
            invariant
                i <= self.data.len(),
                head@ == seq![protocol_code(self.proto)] + self.data@.take(i as int),
            decreases self.data.len() - i,
        {
            head.push(self.data[i]);
            i += 1;
            assert(self.data@.take(i as int) == self.data@.take(i - 1).push(self.data@[i - 1]));
        }
        assert(self.data@.take(i as int) == self.data@);
        let digest: u16 = checksum(head.as_slice());
        self.seal(digest)
    }

    /// A frame with the same protocol and the same payload.
    pub fn copy(&self) -> (frame: Frame)
        ensures
            frame@ == self@,
    {
        let mut data: Vec<u8> = Vec::new();
        let mut i: usize = 0;
        while i < self.data.len()
            invariant
                i <= self.data.len(),
                data@ == self.data@.take(i as int),
            decreases self.data.len() - i,
        {
            data.push(self.data[i]);
            i += 1;
            assert(self.data@.take(i as int) == self.data@.take(i - 1).push(self.data@[i - 1]));
        }
        assert(self.data@.take(i as int) == self.data@);
        Frame { proto: self.proto, data }
    }

    /// Reads a received packet whose CRC residue is already known.
    pub fn check(raw: &[u8], residue: u16) -> (r: Result<Frame, Error>)
        ensures
            frame_result_is(r, checked(raw@, residue)),
    {
        if residue != 0 {
            return Err(Error::Crc);
        }
        if raw.len() < 3 {
            return Err(Error::Protocol);
        }
        match Protocol::try_from(raw[0]) {
            Ok(proto) => {
                let end: usize = raw.len() - 2;
                let mut data: Vec<u8> = Vec::new();
                let mut i: usize = 1;
                while i < end
                    invariant
                        1 <= i <= end,
                        end == raw.len() - 2,
                        data@ == raw@.subrange(1, i as int),
                    decreases end - i,
                {
                    data.push(raw[i]);
                    i += 1;
                    assert(raw@.subrange(1, i as int) == raw@.subrange(1, i - 1).push(raw@[i - 1]));
                }
                Ok(Frame { proto, data })
            },
            Err(_) => Err(Error::Protocol),
        }
    }

    /// Reads a received packet: computes the CRC16 over all of it and checks
    /// the result as [`Frame::check`] does.
    pub fn parse(raw: &[u8]) -> (r: Result<Frame, Error>)
        ensures
            frame_result_is(r, parsed(raw@)),
    {
        let residue: u16 = checksum(raw);
        Frame::check(raw, residue)
    }
}

/// The packets waiting in a link after `input` went through the decoder:
/// those that waited before, then the ones that `input` completed. A framing
/// error adds none.
pub open spec fn fed(queue: Seq<Seq<u8>>, input: Seq<u8>) -> Seq<Seq<u8>> {
    let d = slip::run(input);
    if d.failed {
        queue
    } else {
        queue + d.frames
    }
}

/// What stays in the receive buffer of a link that held `input`: nothing
/// after a framing error, else the bytes that the decoder is not done with.
pub open spec fn remainder(input: Seq<u8>) -> Seq<u8> {
    let d = slip::run(input);
    if d.failed {
        Seq::empty()
    } else {
        input.skip(d.consumed as int)
    }
}

/// What the first waiting packet is read as; nothing where none waits.
pub open spec fn first_frame(queue: Seq<Seq<u8>>) -> Result<Option<FrameView>, Error> {
    if queue.len() == 0 {
        Ok(None)
    } else {
        match parsed(queue[0]) {
            Ok(f) => Ok(Some(f)),
            Err(e) => Err(e),
        }
    }
}

/// How many waiting packets a search for a frame of `proto` takes from the
/// queue: the frames of other protocols in front, and then the frame found
/// or the packet that is in error, if there is one.
pub open spec fn taken_for(queue: Seq<Seq<u8>>, proto: Protocol) -> nat
    decreases queue.len(),
{
    if queue.len() == 0 {
        0
    } else {
        match parsed(queue[0]) {
            Ok(f) => if f.proto == proto {
                1
            } else {
                1 + taken_for(queue.skip(1), proto)
            },
            Err(_) => 1,
        }
    }
}

/// What a search for a frame of `proto` finds among the waiting packets: the
/// first frame of that protocol, with the frames of other protocols in front
/// of it passed over; the error of a packet in error that comes before it;
/// nothing where neither waits.
pub open spec fn first_frame_for(queue: Seq<Seq<u8>>, proto: Protocol) -> Result<
    Option<FrameView>,
    Error,
>
    decreases queue.len(),
{
    if queue.len() == 0 {
        Ok(None)
    } else {
        match parsed(queue[0]) {
            Ok(f) => if f.proto == proto {
                Ok(Some(f))
            } else {
                first_frame_for(queue.skip(1), proto)
            },
            Err(e) => Err(e),
        }
    }
}

/// `r` is `expected`, frame by its view.
pub open spec fn received_is(
    r: Result<Option<Frame>, Error>,
    expected: Result<Option<FrameView>, Error>,
) -> bool {
    match r {
        Ok(Some(f)) => expected == Ok::<Option<FrameView>, Error>(Some(f@)),
        Ok(None) => expected == Ok::<Option<FrameView>, Error>(None),
        Err(e) => expected == Err::<Option<FrameView>, Error>(e),
    }
}

/// A search never takes more packets than wait.
pub proof fn lemma_taken_bound(queue: Seq<Seq<u8>>, proto: Protocol)
    ensures
        taken_for(queue, proto) <= queue.len(),
    decreases queue.len(),
{
    if queue.len() > 0 {
        lemma_taken_bound(queue.skip(1), proto);
    }
}

/// The state of the serial link that does not live in the port itself: the
/// bytes received and not yet decoded, the packets decoded and not yet
/// handed out, and whether a transaction holds the line.
///
/// The line is indivisible, so one transaction at a time acquires the link,
/// sends and receives, and releases it. The owner of the port writes what
/// [`Link::send`] returns and passes what it reads to [`Link::receive`].
#[derive(Debug)]
pub struct Link {
    buffer: VecDeque<u8>,
    queue: Vec<Vec<u8>>,
    held: bool,
}

impl Link {
    /// The bytes received and not yet decoded.
    pub closed spec fn pending(&self) -> Seq<u8> {
        self.buffer@
    }

    /// The packets decoded and not yet handed out, oldest first.
    pub closed spec fn queued(&self) -> Seq<Seq<u8>> {
        slip::views(self.queue@)
    }

    /// Whether a transaction holds the link.
    pub closed spec fn held(&self) -> bool {
        self.held
    }

    /// What a wait for a frame of `proto` finds once `chunk` has come in: a
    /// framing error in the bytes, or else what the search among the waiting
    /// packets gives.
    pub open spec fn found(&self, proto: Protocol, chunk: Seq<u8>) -> Result<
        Option<FrameView>,
        Error,
    > {
        let input = self.pending() + chunk;
        if slip::run(input).failed {
            Err(Error::Framing)
        } else {
            first_frame_for(fed(self.queued(), input), proto)
        }
    }

    /// The packets that still wait after that search: all of them after a
    /// framing error, else those behind the ones that the search took.
    pub open spec fn left(&self, proto: Protocol, chunk: Seq<u8>) -> Seq<Seq<u8>> {
        let input = self.pending() + chunk;
        if slip::run(input).failed {
            self.queued()
        } else {
            let queue = fed(self.queued(), input);
            queue.skip(taken_for(queue, proto) as int)
        }
    }

    /// A link that nobody holds, with nothing received.
    pub fn new() -> (link: Link)
        ensures
            !link.held(),
            link.pending() == Seq::<u8>::empty(),
            link.queued() == Seq::<Seq<u8>>::empty(),
    {
        let link = Link { buffer: VecDeque::new(), queue: Vec::new(), held: false };
        assert(slip::views(link.queue@) == Seq::<Seq<u8>>::empty());
        link
    }

    /// Whether a transaction holds the link.
    pub fn is_held(&self) -> (held: bool)
        ensures
            held == self.held(),
    {
        self.held
    }

    /// How many decoded packets wait to be handed out.
    pub fn waiting(&self) -> (n: usize)
        ensures
            n == self.queued().len(),
    {
        self.queue.len()
    }

    /// Takes the link for one transaction.
    pub fn acquire(&mut self)
        requires
            !old(self).held(),
        ensures
            final(self).held(),
            final(self).pending() == old(self).pending(),
            final(self).queued() == old(self).queued(),
    {
        self.held = true;
    }

    /// Gives the link back.
    pub fn release(&mut self)
        requires
            old(self).held(),
        ensures
            !final(self).held(),
            final(self).pending() == old(self).pending(),
            final(self).queued() == old(self).queued(),
    {
        self.held = false;
    }

    /// The bytes to write to the line for `frame`: its binary form in one
    /// SLIP packet.
    pub fn send(&self, frame: Frame) -> (out: Vec<u8>)
        requires
            self.held(),
        ensures
            out@ == slip::encoded(wire(frame@)),
    {
        let bin_frame: Vec<u8> = frame.bin();
        slip::encode(bin_frame.as_slice())
    }

    /// Takes in the bytes `chunk` that were read from the line.
    ///
    /// The chunk joins the receive buffer; the packets that are then
    /// complete leave it and wait, in order, behind those that waited
    /// already. The buffer keeps a packet that is still open. A framing error
    /// empties the buffer and adds no packet.
    pub fn feed(&mut self, chunk: &[u8]) -> (r: Result<(), Error>)
        ensures
            final(self).held() == old(self).held(),
            r.is_ok() <==> !slip::run(old(self).pending() + chunk@).failed,
            r matches Err(e) ==> e == Error::Framing,
            final(self).pending() == remainder(old(self).pending() + chunk@),
            final(self).queued() == fed(old(self).queued(), old(self).pending() + chunk@),
    {
        let ghost before = self.buffer@;
        let mut i: usize = 0;
        while i < chunk.len()
            invariant
                i <= chunk.len(),
                self.held == old(self).held,
                self.queue == old(self).queue,
                self.buffer@ == before + chunk@.take(i as int),
            decreases chunk.len() - i,
        {
            self.buffer.push_back(chunk[i]);
            i += 1;
            assert(chunk@.take(i as int) == chunk@.take(i - 1).push(chunk@[i - 1]));
        }
        assert(chunk@.take(i as int) == chunk@);
        match slip::decode_frames(&mut self.buffer) {
            Ok(frames) => {
                let ghost waiting = self.queue@;
                let ghost fresh = frames@;
                let mut frames: Vec<Vec<u8>> = frames;
                self.queue.append(&mut frames);
                assert(slip::views(waiting + fresh) == slip::views(waiting) + slip::views(fresh));
                Ok(())
            },
            Err(e) => {
                self.buffer.clear();
                Err(e)
            },
        }
    }

    /// Hands out the first waiting packet as a frame, if one waits.
    ///
    /// The packet leaves the queue whether it is a good frame or not: a CRC
    /// residue other than zero and an unknown protocol identifier are errors.
    pub fn next_frame(&mut self) -> (r: Result<Option<Frame>, Error>)
        ensures
            final(self).held() == old(self).held(),
            final(self).pending() == old(self).pending(),
            received_is(r, first_frame(old(self).queued())),
            final(self).queued() == if old(self).queued().len() == 0 {
                old(self).queued()
            } else {
                old(self).queued().skip(1)
            },
    {
        if self.queue.len() == 0 {
            return Ok(None);
        }
        let ghost waiting = self.queue@;
        let raw: Vec<u8> = self.queue.remove(0);
        assert(slip::views(waiting)[0] == raw@);
        assert(slip::views(self.queue@) == slip::views(waiting).skip(1));
        match Frame::parse(raw.as_slice()) {
            Ok(frame) => Ok(Some(frame)),
            Err(e) => Err(e),
        }
    }

    /// Takes in the bytes `chunk` that were read from the line and hands out
    /// the first frame that waits, if one does.
    ///
    /// A framing error in the bytes comes first and leaves the waiting
    /// packets alone. Otherwise the result is that of [`Link::next_frame`]
    /// after [`Link::feed`].
    pub fn receive(&mut self, chunk: &[u8]) -> (r: Result<Option<Frame>, Error>)
        requires
            old(self).held(),
        ensures
            final(self).held(),
            final(self).pending() == remainder(old(self).pending() + chunk@),
            slip::run(old(self).pending() + chunk@).failed ==> {
                &&& r == Err::<Option<Frame>, Error>(Error::Framing)
                &&& final(self).queued() == old(self).queued()
            },
            !slip::run(old(self).pending() + chunk@).failed ==> {
                let queue = fed(old(self).queued(), old(self).pending() + chunk@);
                &&& received_is(r, first_frame(queue))
                &&& final(self).queued() == if queue.len() == 0 {
                    queue
                } else {
                    queue.skip(1)
                }
            },
    {
        match self.feed(chunk) {
            Ok(_) => self.next_frame(),
            Err(e) => Err(e),
        }
    }

    /// Takes in the bytes `chunk` and hands out the first waiting frame of
    /// protocol `proto`, if one waits.
    ///
    /// Frames of other protocols in front of it are dropped: the radio may
    /// interleave its console output with any reply. A packet in error that
    /// comes before it ends the search with that error. A framing error in
    /// the bytes comes first and leaves the waiting packets alone.
    pub fn receive_for(&mut self, proto: Protocol, chunk: &[u8]) -> (r: Result<
        Option<Frame>,
        Error,
    >)
        requires
            old(self).held(),
        ensures
            final(self).held(),
            final(self).pending() == remainder(old(self).pending() + chunk@),
            slip::run(old(self).pending() + chunk@).failed ==> {
                &&& r == Err::<Option<Frame>, Error>(Error::Framing)
                &&& final(self).queued() == old(self).queued()
            },
            !slip::run(old(self).pending() + chunk@).failed ==> {
                let queue = fed(old(self).queued(), old(self).pending() + chunk@);
                &&& received_is(r, first_frame_for(queue, proto))
                &&& taken_for(queue, proto) <= queue.len()
                &&& final(self).queued() == queue.skip(taken_for(queue, proto) as int)
            },
            r matches Ok(Some(f)) ==> f.proto == proto,
    {
        match self.feed(chunk) {
            Ok(_) => {},
            Err(e) => {
                return Err(e);
            },
        }
        let ghost queue = self.queued();
        proof {
            lemma_taken_bound(queue, proto);
        }
        loop
            invariant
                self.held(),
                self.pending() == remainder(old(self).pending() + chunk@),
                !slip::run(old(self).pending() + chunk@).failed,
                queue == fed(old(self).queued(), old(self).pending() + chunk@),
                taken_for(queue, proto) <= queue.len(),
                self.queued().len() <= queue.len(),
                first_frame_for(self.queued(), proto) == first_frame_for(queue, proto),
                self.queued().skip(taken_for(self.queued(), proto) as int) == queue.skip(
                    taken_for(queue, proto) as int,
                ),
                taken_for(self.queued(), proto) <= self.queued().len(),
            decreases self.queued().len(),
        {
            let ghost now = self.queued();
            match self.next_frame() {
                Ok(Some(frame)) => {
                    if frame.proto.code() == proto.code() {
                        return Ok(Some(frame));
                    }
                    proof {
                        lemma_taken_bound(now.skip(1), proto);
                        assert(now.skip(1).skip(taken_for(now.skip(1), proto) as int) == now.skip(
                            taken_for(now, proto) as int,
                        ));
                    }
                },
                Ok(None) => {
                    assert(now.skip(0) == now);
                    return Ok(None);
                },
                Err(e) => {
                    return Err(e);
                },
            }
        }
    }

    /// Opens a transaction with a request: takes the link and returns the
    /// bytes to write for `frame`. The link stays held for the reply.
    pub fn begin(&mut self, frame: Frame) -> (out: Vec<u8>)
        requires
            !old(self).held(),
        ensures
            final(self).held(),
            final(self).pending() == old(self).pending(),
            final(self).queued() == old(self).queued(),
            out@ == slip::encoded(wire(frame@)),
    {
        self.acquire();
        self.send(frame)
    }

    /// A transaction of one frame with no reply: takes the link, returns the
    /// bytes to write for `frame`, and gives the link back.
    pub fn post(&mut self, frame: Frame) -> (out: Vec<u8>)
        requires
            !old(self).held(),
        ensures
            !final(self).held(),
            final(self).pending() == old(self).pending(),
            final(self).queued() == old(self).queued(),
            out@ == slip::encoded(wire(frame@)),
    {
        self.acquire();
        let out: Vec<u8> = self.send(frame);
        self.release();
        out
    }

    /// Waits for the reply of an open transaction: takes in `chunk` as
    /// [`Link::receive_for`] does, and gives the link back as soon as the
    /// transaction is over, with a frame of `proto` or with an error. While
    /// the reply is not there the link stays held.
    pub fn reply(&mut self, proto: Protocol, chunk: &[u8]) -> (r: Result<Option<Frame>, Error>)
        requires
            old(self).held(),
        ensures
            final(self).held() <==> r == Ok::<Option<Frame>, Error>(None),
            received_is(r, old(self).found(proto, chunk@)),
            final(self).pending() == remainder(old(self).pending() + chunk@),
            final(self).queued() == old(self).left(proto, chunk@),
            r matches Ok(Some(f)) ==> f.proto == proto,
    {
        let r = self.receive_for(proto, chunk);
        match &r {
            Ok(None) => {},
            _ => {
                self.release();
            },
        }
        r
    }
}

/// Frame round trip: when the CRC over the binary form of a frame leaves no
/// residue, a link with nothing buffered and nothing waiting that receives
/// what `send` gave for that frame hands out the same frame, and keeps
/// neither a byte nor a packet.
pub proof fn lemma_frame_round_trip(f: FrameView)
    requires
        crc16_aug_ccitt(wire(f)) == 0,
    ensures
        !slip::run(slip::encoded(wire(f))).failed,
        fed(Seq::empty(), slip::encoded(wire(f))) == seq![wire(f)],
        first_frame(seq![wire(f)]) == Ok::<Option<FrameView>, Error>(Some(f)),
        first_frame_for(seq![wire(f)], f.proto) == Ok::<Option<FrameView>, Error>(Some(f)),
        taken_for(seq![wire(f)], f.proto) == 1,
        remainder(slip::encoded(wire(f))) == Seq::<u8>::empty(),
{
    let w = wire(f);
    slip::lemma_round_trip(w);
    assert(w.subrange(1, w.len() - 2) == f.data);
    assert(w[0] == protocol_code(f.proto));
    assert(Seq::<Seq<u8>>::empty() + seq![w] == seq![w]);
}

/// A sealed frame is read back whenever its residue is zero: the identifier
/// and the payload come out as they went in.
pub proof fn lemma_check_sealed(f: FrameView, digest: u16)
    ensures
        checked(sealed(f, digest), 0) == Ok::<FrameView, Error>(f),
{
    let w = sealed(f, digest);
    assert(w.subrange(1, w.len() - 2) == f.data);
    assert(w[0] == protocol_code(f.proto));
}

} // verus!

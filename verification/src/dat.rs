//! The DAT channel: a memory image moves in numbered blocks, and each block
//! is acknowledged before the next one is sent.
//!
//! A block is its number, the complement of its number, and up to 1022 bytes
//! of the image. The blocks of a transfer are numbered 1, 2, 3 and so on;
//! after 255 the number wraps to 0. An acknowledgement is a frame with the
//! single byte `0x06`.

use crate::error::{status_of, Errno, Error};
use crate::link::{remainder, wire, Frame, FrameView, Link, Protocol};
use crate::slip;
use vstd::prelude::*;

verus! {

/// The most bytes that a block holds, header included.
pub const DAT_FRAME_SIZE: usize = 1024;

/// The most bytes of the image that a block holds.
pub const DAT_PAYLOAD_SIZE: usize = 1022;

/// The byte that acknowledges a block.
pub const ACK: u8 = 0x06;

/// The frame that acknowledges a block.
pub open spec fn ack_frame() -> FrameView {
    FrameView { proto: Protocol::DAT, data: seq![ACK] }
}

/// The bytes to write to acknowledge a block, or to tell the radio to start
/// sending.
pub fn send_ack(link: &Link) -> (out: Vec<u8>)
    requires
        link.held(),
    ensures
        out@ == slip::encoded(wire(ack_frame())),
{
    let mut data: Vec<u8> = Vec::new();
    data.push(ACK);
    let frame = Frame { proto: Protocol::DAT, data };
    assert(frame@ == ack_frame());
    link.send(frame)
}

/// What the payload of a frame says in answer to a block: the byte `0x06`
/// acknowledges it; any other byte is a status that the radio reports; no
/// byte at all is no answer.
pub open spec fn ack_answer(data: Seq<u8>) -> Result<(), Error> {
    if data.len() == 0 {
        Err(Error::Protocol)
    } else if data[0] == ACK {
        Ok(())
    } else {
        Err(Error::Peer(status_of(data[0])))
    }
}

/// What a wait for an acknowledgement gives, from what the link found:
/// `false` while there is no answer, `true` once the block is acknowledged,
/// or the error that ends the transfer.
pub open spec fn ack_outcome(found: Result<Option<FrameView>, Error>) -> Result<bool, Error> {
    match found {
        Ok(None) => Ok(false),
        Ok(Some(f)) => match ack_answer(f.data) {
            Ok(_) => Ok(true),
            Err(e) => Err(e),
        },
        Err(e) => Err(e),
    }
}

/// Reads the payload of the frame that answers a block.
pub fn read_ack(data: &[u8]) -> (r: Result<(), Error>)
    ensures
        r == ack_answer(data@),
{
    if data.len() == 0 {
        Err(Error::Protocol)
    } else if data[0] == ACK {
        Ok(())
    } else {
        Err(Error::Peer(Errno::from_status(data[0])))
    }
}

/// Takes in the bytes `chunk` read after a block was sent and tells whether
/// the radio has acknowledged the block.
///
/// Frames of other protocols are passed over. `Ok(false)` means that the
/// answer has not come yet and the link stays held; with `Ok(true)` or with
/// an error the link is free again.
pub fn wait_ack(link: &mut Link, chunk: &[u8]) -> (r: Result<bool, Error>)
    requires
        old(link).held(),
    ensures
        final(link).held() <==> r == Ok::<bool, Error>(false),
        r == ack_outcome(old(link).found(Protocol::DAT, chunk@)),
        final(link).pending() == remainder(old(link).pending() + chunk@),
        final(link).queued() == old(link).left(Protocol::DAT, chunk@),
{
    match link.reply(Protocol::DAT, chunk) {
        Ok(Some(frame)) => match read_ack(frame.data.as_slice()) {
            Ok(_) => Ok(true),
            Err(e) => Err(e),
        },
        Ok(None) => Ok(false),
        Err(e) => Err(e),
    }
}

/// Whether `data` is a block that may follow the block numbered `prev`: it
/// has its two header bytes, the second is the complement of the first, and
/// the first is the next number.
pub open spec fn block_ok(prev: u8, data: Seq<u8>) -> bool {
    &&& data.len() >= 2
    &&& data[0] + data[1] == 255
    &&& data[0] == (prev + 1) % 256
}

/// How far a receiving transfer has come.
pub struct Progress {
    /// The size of the image in bytes.
    pub size: nat,
    /// The bytes of the image received so far.
    pub received: nat,
    /// The number of the last block, 0 before the first.
    pub prev_block: u8,
}

/// What a transfer at `p` makes of the block `data`: a block out of sequence
/// is a protocol error, a block with more bytes than the image still lacks
/// is a size mismatch, and any other block moves the transfer on.
pub open spec fn taken(p: Progress, data: Seq<u8>) -> Result<Progress, Error> {
    if !block_ok(p.prev_block, data) {
        Err(Error::Protocol)
    } else if data.len() - 2 > p.size - p.received {
        Err(Error::SizeMismatch)
    } else {
        Ok(
            Progress {
                size: p.size,
                received: (p.received + data.len() - 2) as nat,
                prev_block: data[0],
            },
        )
    }
}

/// The receiving side of a transfer.
#[derive(Debug, PartialEq, Eq)]
pub struct Receiver {
    size: usize,
    received: usize,
    prev_block: u8,
}

impl View for Receiver {
    type V = Progress;

    closed spec fn view(&self) -> Progress {
        Progress {
            size: self.size as nat,
            received: self.received as nat,
            prev_block: self.prev_block,
        }
    }
}

impl Receiver {
    /// No more bytes are counted as received than the image has.
    pub closed spec fn wf(&self) -> bool {
        self.received <= self.size
    }

    /// A transfer of `size` bytes of which none has come yet.
    pub fn new(size: usize) -> (r: Receiver)
        ensures
            r.wf(),
            r@ == (Progress { size: size as nat, received: 0, prev_block: 0 }),
    {
        Receiver { size, received: 0, prev_block: 0 }
    }

    /// The size of the image in bytes.
    pub fn size(&self) -> (n: usize)
        ensures
            n == self@.size,
    {
        self.size
    }

    /// The bytes of the image received so far.
    pub fn received(&self) -> (n: usize)
        ensures
            n == self@.received,
    {
        self.received
    }

    /// Whether the whole image has been received.
    pub fn is_complete(&self) -> (done: bool)
        ensures
            done == (self@.received == self@.size),
    {
        self.received == self.size
    }

    /// Checks the block `data` and, if it is the next block of the transfer,
    /// counts it and returns its part of the image. A block that is refused
    /// leaves the transfer where it was.
    pub fn accept(&mut self, data: &[u8]) -> (r: Result<Vec<u8>, Error>)
        requires
            old(self).wf(),
        ensures
            final(self).wf(),
            match r {
                Ok(payload) => {
                    &&& taken(old(self)@, data@) == Ok::<Progress, Error>(final(self)@)
                    &&& payload@ == data@.skip(2)
                },
                Err(e) => {
                    &&& taken(old(self)@, data@) == Err::<Progress, Error>(e)
                    &&& final(self)@ == old(self)@
                },
            },
    {
        if data.len() < 2 {
            return Err(Error::Protocol);
        }
        let block_number: u8 = data[0];
        let inv_block_number: u8 = data[1];
        let expected: u8 = if self.prev_block == 255 {
            0
        } else {
            self.prev_block + 1
        };
        if 255 - block_number != inv_block_number || block_number != expected {
            return Err(Error::Protocol);
        }
        if data.len() - 2 > self.size - self.received {
            return Err(Error::SizeMismatch);
        }
        let mut payload: Vec<u8> = Vec::new();
        let mut i: usize = 2;
        while i < data.len()
            invariant
                2 <= i <= data.len(),
                payload@ == data@.subrange(2, i as int),
            decreases data.len() - i,
        {
            payload.push(data[i]);
            i += 1;
            assert(data@.subrange(2, i as int) == data@.subrange(2, i - 1).push(data@[i - 1]));
        }
        assert(data@.subrange(2, i as int) == data@.skip(2));
        self.prev_block = block_number;
        self.received = self.received + (data.len() - 2);
        Ok(payload)
    }
}

/// What the receiving side hands out for one block.
#[derive(Debug, PartialEq, Eq)]
pub struct Block {
    /// The part of the image that the block carries, to append to the
    /// output.
    pub payload: Vec<u8>,
    /// The bytes to write to the line, after the payload is stored, to
    /// acknowledge the block.
    pub ack: Vec<u8>,
}

/// What a wait for the next block gives, from what the link found: nothing
/// yet, the transfer moved on by one block, or the error that ends it.
pub open spec fn block_outcome(p: Progress, found: Result<Option<FrameView>, Error>) -> Result<
    Option<Progress>,
    Error,
> {
    match found {
        Ok(None) => Ok(None),
        Ok(Some(f)) => match taken(p, f.data) {
            Ok(next) => Ok(Some(next)),
            Err(e) => Err(e),
        },
        Err(e) => Err(e),
    }
}

/// Opens a receiving transfer of `size` bytes: takes the link and returns
/// the state of the transfer with the bytes to write, an acknowledgement
/// that tells the radio to start. The link stays held while the image is
/// not complete; for an image without bytes that is not at all.
pub fn receive(link: &mut Link, size: usize) -> (r: (Receiver, Vec<u8>))
    requires
        !old(link).held(),
    ensures
        r.0.wf(),
        r.0@ == (Progress { size: size as nat, received: 0, prev_block: 0 }),
        r.1@ == slip::encoded(wire(ack_frame())),
        final(link).held() <==> size != 0,
        final(link).pending() == old(link).pending(),
        final(link).queued() == old(link).queued(),
{
    link.acquire();
    let start: Vec<u8> = send_ack(link);
    let receiver: Receiver = Receiver::new(size);
    if receiver.is_complete() {
        link.release();
    }
    (receiver, start)
}

impl Receiver {
    /// Takes in the bytes `chunk` read from the line and hands out the next
    /// block of the image once it is there, with its acknowledgement.
    ///
    /// Frames of other protocols are passed over. `Ok(None)` means that no
    /// block has come yet. A block is accepted only if its second byte is
    /// the complement of its first, its number follows that of the block
    /// before, and it holds no more bytes than the image still lacks; else
    /// the transfer ends with an error and stays where it was. The link
    /// stays held until the image is complete or the transfer has failed.
    pub fn block(&mut self, link: &mut Link, chunk: &[u8]) -> (r: Result<Option<Block>, Error>)
        requires
            old(self).wf(),
            old(link).held(),
        ensures
            final(self).wf(),
            match r {
                Ok(Some(block)) => {
                    let found = old(link).found(Protocol::DAT, chunk@);
                    &&& block_outcome(old(self)@, found) == Ok::<Option<Progress>, Error>(
                        Some(final(self)@),
                    )
                    &&& block.payload@ == found->Ok_0->Some_0.data.skip(2)
                    &&& block.ack@ == slip::encoded(wire(ack_frame()))
                    &&& final(link).held() <==> final(self)@.received != final(self)@.size
                },
                Ok(None) => {
                    &&& block_outcome(old(self)@, old(link).found(Protocol::DAT, chunk@)) == Ok::<
                        Option<Progress>,
                        Error,
                    >(None)
                    &&& final(self)@ == old(self)@
                    &&& final(link).held()
                },
                Err(e) => {
                    &&& block_outcome(old(self)@, old(link).found(Protocol::DAT, chunk@))
                        == Err::<Option<Progress>, Error>(e)
                    &&& final(self)@ == old(self)@
                    &&& !final(link).held()
                },
            },
            final(link).pending() == remainder(old(link).pending() + chunk@),
            final(link).queued() == old(link).left(Protocol::DAT, chunk@),
    {
        match link.receive_for(Protocol::DAT, chunk) {
            Ok(Some(frame)) => match self.accept(frame.data.as_slice()) {
                Ok(payload) => {
                    let ack: Vec<u8> = send_ack(link);
                    if self.is_complete() {
                        link.release();
                    }
                    Ok(Some(Block { payload, ack }))
                },
                Err(e) => {
                    link.release();
                    Err(e)
                },
            },
            Ok(None) => Ok(None),
            Err(e) => {
                link.release();
                Err(e)
            },
        }
    }
}

/// How many blocks an image of `size` bytes takes.
pub open spec fn block_count(size: nat) -> nat {
    (size + 1021) / 1022
}

/// The part of the image that block `i` carries, counting blocks from 1.
pub open spec fn block_payload(content: Seq<u8>, i: int) -> Seq<u8> {
    content.subrange(
        (i - 1) * 1022,
        if i * 1022 <= content.len() {
            i * 1022
        } else {
            content.len() as int
        },
    )
}

/// Block `i` of an image, counting blocks from 1: the number, which wraps
/// after 255, its complement, and the part of the image.
pub open spec fn block_data(content: Seq<u8>, i: int) -> Seq<u8> {
    seq![(i % 256) as u8, (255 - i % 256) as u8] + block_payload(content, i)
}

/// The blocks of an image, in order.
pub open spec fn blocks(content: Seq<u8>) -> Seq<Seq<u8>> {
    Seq::new(block_count(content.len()), |k: int| block_data(content, k + 1))
}

/// The payloads of `frames`, in order.
pub open spec fn frame_data(frames: Seq<Frame>) -> Seq<Seq<u8>> {
    Seq::new(frames.len(), |k: int| frames[k].data@)
}

/// Cuts an image into the blocks of a sending transfer.
///
/// `size` is the size that the radio expects; an image of another length is
/// refused. Every block but the last holds 1022 bytes of the image, and the
/// last holds what is left.
pub fn send(content: &[u8], size: usize) -> (r: Result<Vec<Frame>, Error>)
    ensures
        r.is_ok() <==> content@.len() == size,
        r matches Err(e) ==> e == Error::SizeMismatch,
        r matches Ok(frames) ==> {
            &&& frame_data(frames@) == blocks(content@)
            &&& forall|k: int| 0 <= k < frames@.len() ==> (#[trigger] frames@[k]).proto == Protocol::DAT
        },
{
    if content.len() != size {
        return Err(Error::SizeMismatch);
    }
    let count: usize = if size % DAT_PAYLOAD_SIZE == 0 {
        size / DAT_PAYLOAD_SIZE
    } else {
        size / DAT_PAYLOAD_SIZE + 1
    };
    assert(count == block_count(size as nat));
    let mut frames: Vec<Frame> = Vec::new();
    let mut number: u8 = 0;
    let mut k: usize = 0;
    while k < count
        invariant
            k <= count,
            count == block_count(content@.len()),
            content@.len() == size,
            number == k % 256,
            frames@.len() == k,
            forall|j: int| 0 <= j < k ==> (#[trigger] frames@[j]).data@ == block_data(content@, j + 1),
            forall|j: int| 0 <= j < k ==> (#[trigger] frames@[j]).proto == Protocol::DAT,
        decreases count - k,
    {
        number = if number == 255 {
            0
        } else {
            number + 1
        };
        let start: usize = k * DAT_PAYLOAD_SIZE;
        let end: usize = if size - start < DAT_PAYLOAD_SIZE {
            size
        } else {
            start + DAT_PAYLOAD_SIZE
        };
        let mut chunk: Vec<u8> = Vec::new();
        chunk.push(number);
        chunk.push(255 - number);
        let ghost head = chunk@;
        let mut i: usize = start;
        while i < end
            invariant
                start <= i <= end <= content@.len(),
                chunk@ == head + content@.subrange(start as int, i as int),
            decreases end - i,
        {
            chunk.push(content[i]);
            i += 1;
            assert(content@.subrange(start as int, i as int) == content@.subrange(
                start as int,
                i - 1,
            ).push(content@[i - 1]));
        }
        assert(chunk@ == block_data(content@, k + 1));
        frames.push(Frame { proto: Protocol::DAT, data: chunk });
        k += 1;
    }
    assert(frame_data(frames@) =~= blocks(content@));
    Ok(frames)
}

/// Where a receiving transfer of `size` bytes stands after the blocks
/// `received`, or the error of the first block that it refuses.
pub open spec fn after(size: nat, received: Seq<Seq<u8>>) -> Result<Progress, Error>
    decreases received.len(),
{
    if received.len() == 0 {
        Ok(Progress { size, received: 0, prev_block: 0 })
    } else {
        match after(size, received.drop_last()) {
            Ok(p) => taken(p, received.last()),
            Err(e) => Err(e),
        }
    }
}

/// The parts of the image that some blocks carry, one after the other: what
/// a receiver writes to its output.
pub open spec fn payloads(received: Seq<Seq<u8>>) -> Seq<u8>
    decreases received.len(),
{
    if received.len() == 0 {
        Seq::empty()
    } else {
        payloads(received.drop_last()) + received.last().skip(2)
    }
}

/// Block numbering and size conservation: when a transfer has accepted
/// every one of some blocks, each block carries the complement of its number
/// in its second byte, the numbers run 1, 2, 3 and so on modulo 256, the
/// bytes written are exactly those counted, and they are no more than the
/// size of the image. The transfer is complete exactly when as many bytes
/// as the size are written.
pub proof fn lemma_transfer(size: nat, received: Seq<Seq<u8>>)
    requires
        after(size, received) is Ok,
    ensures
        after(size, received)->Ok_0.size == size,
        after(size, received)->Ok_0.received == payloads(received).len(),
        payloads(received).len() <= size,
        after(size, received)->Ok_0.prev_block == received.len() % 256,
        forall|i: int|
            0 <= i < received.len() ==> {
                &&& (#[trigger] received[i]).len() >= 2
                &&& received[i][0] + received[i][1] == 255
                &&& received[i][0] == (i + 1) % 256
            },
    decreases received.len(),
{
    if received.len() > 0 {
        let head = received.drop_last();
        lemma_transfer(size, head);
        assert forall|i: int| 0 <= i < received.len() implies {
            &&& (#[trigger] received[i]).len() >= 2
            &&& received[i][0] + received[i][1] == 255
            &&& received[i][0] == (i + 1) % 256
        } by {
            if i < head.len() {
                assert(received[i] == head[i]);
            }
        }
    }
}

/// A block out of sequence ends the transfer: a block whose second byte is
/// not the complement of its first, or whose number does not follow that of
/// the block before, is refused with a protocol error, and so is every run
/// of blocks that holds it.
pub proof fn lemma_deviation_aborts(size: nat, received: Seq<Seq<u8>>, i: int)
    requires
        0 <= i < received.len(),
        received[i].len() < 2 || received[i][0] + received[i][1] != 255 || received[i][0] != (i
            + 1) % 256,
    ensures
        after(size, received) is Err,
    decreases received.len(),
{
    let head = received.drop_last();
    if i < head.len() {
        assert(head[i] == received[i]);
        lemma_deviation_aborts(size, head, i);
    } else if after(size, head) is Ok {
        lemma_transfer(size, head);
    }
}

/// The first `k` blocks of an image carry its first `k * 1022` bytes, or
/// all of it if it has fewer, and a receiver for the size of the image
/// accepts them all.
proof fn lemma_blocks_prefix(content: Seq<u8>, k: int)
    requires
        0 <= k <= block_count(content.len()),
    ensures
        payloads(blocks(content).take(k)) == content.take(
            if k * 1022 <= content.len() {
                k * 1022
            } else {
                content.len() as int
            },
        ),
        after(content.len(), blocks(content).take(k)) == Ok::<Progress, Error>(
            Progress {
                size: content.len(),
                received: payloads(blocks(content).take(k)).len(),
                prev_block: (k % 256) as u8,
            },
        ),
    decreases k,
{
    let all = blocks(content);
    if k == 0 {
        assert(all.take(0) == Seq::<Seq<u8>>::empty());
        assert(content.take(0) == Seq::<u8>::empty());
    } else {
        lemma_blocks_prefix(content, k - 1);
        let head = all.take(k - 1);
        let last = block_data(content, k);
        assert(all.take(k).drop_last() == head);
        assert(all.take(k).last() == last);
        assert((k - 1) * 1022 < content.len());
        assert(last.skip(2) == block_payload(content, k));
        let end = if k * 1022 <= content.len() {
            k * 1022
        } else {
            content.len() as int
        };
        assert(content.take((k - 1) * 1022) + block_payload(content, k) == content.take(end));
        assert(last[0] == (k % 256) as u8);
        assert(last[1] == (255 - k % 256) as u8);
    }
}

/// Sending and receiving agree: a receiver for the length of an image
/// accepts all the blocks that `send` cuts the image into, is complete after
/// the last, and has then written the image, byte for byte.
pub proof fn lemma_send_receive(content: Seq<u8>)
    ensures
        after(content.len(), blocks(content)) is Ok,
        after(content.len(), blocks(content))->Ok_0.received == content.len(),
        payloads(blocks(content)) == content,
{
    let n = block_count(content.len()) as int;
    lemma_blocks_prefix(content, n);
    assert(blocks(content).take(n) == blocks(content));
    assert(n * 1022 >= content.len());
    assert(content.take(content.len() as int) == content);
}

} // verus!

//! SLIP framing: a packet travels between two `END` bytes, and the two
//! reserved bytes inside it are replaced by two-byte escape sequences.

use crate::error::Error;
use std::collections::VecDeque;
use vstd::prelude::*;

verus! {

/// Marks both ends of a packet.
pub const END: u8 = 0xC0;

/// Introduces an escape sequence.
pub const ESC: u8 = 0xDB;

/// After `ESC`: stands for an `END` byte inside the packet.
pub const ESC_END: u8 = 0xDC;

/// After `ESC`: stands for an `ESC` byte inside the packet.
pub const ESC_ESC: u8 = 0xDD;

/// What one byte of a packet becomes on the line.
pub open spec fn escape_byte(b: u8) -> Seq<u8> {
    if b == END {
        seq![ESC, ESC_END]
    } else if b == ESC {
        seq![ESC, ESC_ESC]
    } else {
        seq![b]
    }
}

/// The bytes of a packet with every reserved byte escaped, in order.
pub open spec fn escaped(data: Seq<u8>) -> Seq<u8>
    decreases data.len(),
{
    if data.len() == 0 {
        Seq::empty()
    } else {
        escaped(data.drop_last()) + escape_byte(data.last())
    }
}

/// A packet as it travels: `END`, the escaped bytes, `END`.
pub open spec fn encoded(data: Seq<u8>) -> Seq<u8> {
    seq![END] + escaped(data) + seq![END]
}

/// Wraps `data` in SLIP framing. The leading `END` lets a decoder find the
/// start of the packet after noise on the line.
pub fn encode(data: &[u8]) -> (out: Vec<u8>)
    ensures
        out@ == encoded(data@),
{
    let mut out: Vec<u8> = Vec::new();
    out.push(END);
    let mut i: usize = 0;
    while i < data.len()
        invariant
            i <= data.len(),
            out@ == seq![END] + escaped(data@.take(i as int)),
        decreases data.len() - i,
    {
        let b: u8 = data[i];
        proof {
            assert(data@.take(i + 1).drop_last() == data@.take(i as int));
            assert(data@.take(i + 1).last() == b);
        }
        if b == END {
            out.push(ESC);
            out.push(ESC_END);
        } else if b == ESC {
            out.push(ESC);
            out.push(ESC_ESC);
        } else {
            out.push(b);
        }
        i += 1;
        assert(out@ == seq![END] + escaped(data@.take(i as int)));
    }
    proof {
        assert(data@.take(i as int) == data@);
    }
    out.push(END);
    out
}

/// Where a decoder stands after it has read some bytes of a buffer.
pub struct Decoder {
    /// An opening `END` was read and its packet is not closed yet.
    pub in_packet: bool,
    /// The last byte of the open packet was an `ESC`.
    pub escaped: bool,
    /// The bytes of the open packet, unescaped.
    pub packet: Seq<u8>,
    /// The packets that are complete, oldest first.
    pub frames: Seq<Seq<u8>>,
    /// How many bytes at the front of the buffer are done with: everything
    /// before the `END` that opened the open packet, or up to and with the
    /// `END` that closed the last one.
    pub consumed: nat,
    /// An escape sequence was illegal.
    pub failed: bool,
}

/// A decoder that has read nothing.
pub open spec fn start() -> Decoder {
    Decoder {
        in_packet: false,
        escaped: false,
        packet: Seq::empty(),
        frames: Seq::empty(),
        consumed: 0,
        failed: false,
    }
}

/// The decoder after it has read byte `b`, which stands at index `at` of the
/// buffer.
pub open spec fn step(s: Decoder, b: u8, at: nat) -> Decoder {
    if s.failed {
        s
    } else if !s.in_packet {
        if b == END {
            Decoder { in_packet: true, consumed: at, ..s }
        } else {
            s
        }
    } else if s.escaped {
        if b == ESC_END {
            Decoder { escaped: false, packet: s.packet.push(END), ..s }
        } else if b == ESC_ESC {
            Decoder { escaped: false, packet: s.packet.push(ESC), ..s }
        } else {
            Decoder { failed: true, ..s }
        }
    } else if b == END {
        if s.packet.len() > 0 {
            Decoder {
                in_packet: false,
                packet: Seq::empty(),
                frames: s.frames.push(s.packet),
                consumed: at + 1,
                ..s
            }
        } else {
            s
        }
    } else if b == ESC {
        Decoder { escaped: true, ..s }
    } else {
        Decoder { packet: s.packet.push(b), ..s }
    }
}

/// The decoder after it has read all of `input`, starting from `s` with the
/// first byte of `input` at index `at` of the buffer.
pub open spec fn run_from(s: Decoder, input: Seq<u8>, at: nat) -> Decoder
    decreases input.len(),
{
    if input.len() == 0 {
        s
    } else {
        step(run_from(s, input.drop_last(), at), input.last(), (at + input.len() - 1) as nat)
    }
}

/// The decoder after it has read a whole buffer.
pub open spec fn run(input: Seq<u8>) -> Decoder {
    run_from(start(), input, 0)
}

/// The views of the packets in `frames`, in order.
pub open spec fn views(frames: Seq<Vec<u8>>) -> Seq<Seq<u8>> {
    Seq::new(frames.len(), |i: int| frames[i]@)
}

/// Once an escape sequence was illegal, no further byte mends it.
pub proof fn lemma_failure_stays(s: Decoder, input: Seq<u8>, at: nat)
    requires
        s.failed,
    ensures
        run_from(s, input, at) == s,
    decreases input.len(),
{
    if input.len() > 0 {
        lemma_failure_stays(s, input.drop_last(), at);
    }
}

/// Reading `a + b` is reading `a` and then `b`.
pub proof fn lemma_run_split(s: Decoder, a: Seq<u8>, b: Seq<u8>, at: nat)
    ensures
        run_from(s, a + b, at) == run_from(run_from(s, a, at), b, at + a.len()),
    decreases b.len(),
{
    if b.len() == 0 {
        assert(a + b == a);
    } else {
        lemma_run_split(s, a, b.drop_last(), at);
        assert((a + b).drop_last() == a + b.drop_last());
        assert((a + b).last() == b.last());
    }
}

/// The decoder never counts more bytes as done than it has read.
pub proof fn lemma_consumed_bound(s: Decoder, input: Seq<u8>, at: nat)
    requires
        s.consumed <= at,
    ensures
        run_from(s, input, at).consumed <= at + input.len(),
    decreases input.len(),
{
    if input.len() > 0 {
        lemma_consumed_bound(s, input.drop_last(), at);
    }
}

/// Reading one byte is one step.
pub proof fn lemma_run_one(s: Decoder, b: u8, at: nat)
    ensures
        run_from(s, seq![b], at) == step(s, b, at),
{
    assert(seq![b].drop_last() == Seq::<u8>::empty());
    assert(run_from(s, Seq::<u8>::empty(), at) == s);
    assert(seq![b].last() == b);
}

/// Reading two bytes is two steps.
pub proof fn lemma_run_two(s: Decoder, b: u8, c: u8, at: nat)
    ensures
        run_from(s, seq![b, c], at) == step(step(s, b, at), c, at + 1),
{
    assert(seq![b, c] == seq![b] + seq![c]);
    lemma_run_split(s, seq![b], seq![c], at);
    lemma_run_one(s, b, at);
    lemma_run_one(step(s, b, at), c, at + 1);
}

/// Inside a packet, the escaped form of `data` adds exactly `data` to the
/// open packet and changes nothing else.
pub proof fn lemma_run_escaped(s: Decoder, data: Seq<u8>, at: nat)
    requires
        s.in_packet,
        !s.escaped,
        !s.failed,
    ensures
        run_from(s, escaped(data), at) == (Decoder { packet: s.packet + data, ..s }),
    decreases data.len(),
{
    if data.len() == 0 {
        assert(s.packet + data == s.packet);
    } else {
        let head = data.drop_last();
        let b = data.last();
        lemma_run_escaped(s, head, at);
        let mid = Decoder { packet: s.packet + head, ..s };
        let at2 = at + escaped(head).len();
        lemma_run_split(s, escaped(head), escape_byte(b), at);
        if b == END {
            lemma_run_two(mid, ESC, ESC_END, at2);
        } else if b == ESC {
            lemma_run_two(mid, ESC, ESC_ESC, at2);
        } else {
            lemma_run_one(mid, b, at2);
        }
        assert((s.packet + head).push(b) == s.packet + data);
    }
}

/// Outside a packet, one encoded packet with at least one byte adds exactly
/// that packet to the complete ones, and every byte of it is done with.
pub proof fn lemma_run_encoded(s: Decoder, data: Seq<u8>, at: nat)
    requires
        !s.in_packet,
        !s.escaped,
        !s.failed,
        s.packet.len() == 0,
        data.len() > 0,
    ensures
        run_from(s, encoded(data), at) == (Decoder {
            frames: s.frames.push(data),
            consumed: at + encoded(data).len(),
            ..s
        }),
{
    let open = Decoder { in_packet: true, consumed: at, ..s };
    let full = Decoder { packet: data, ..open };
    lemma_run_split(s, seq![END] + escaped(data), seq![END], at);
    lemma_run_split(s, seq![END], escaped(data), at);
    lemma_run_one(s, END, at);
    lemma_run_escaped(open, data, at + 1);
    assert(open.packet + data == data);
    lemma_run_one(full, END, at + 1 + escaped(data).len());
    assert(s.packet == Seq::<u8>::empty());
}

/// Round trip: the decoder reads an encoded packet of at least one byte as
/// exactly that packet, without error, and leaves nothing of it in the
/// buffer. (A packet without bytes encodes to two `END`s, which the decoder
/// takes for a keep-alive and drops.)
pub proof fn lemma_round_trip(data: Seq<u8>)
    requires
        data.len() > 0,
    ensures
        !run(encoded(data)).failed,
        run(encoded(data)).frames == seq![data],
        run(encoded(data)).consumed == encoded(data).len(),
        !run(encoded(data)).in_packet,
{
    lemma_run_encoded(start(), data, 0);
    assert(Seq::<Seq<u8>>::empty().push(data) == seq![data]);
}

/// Round trip of a stream: two encoded packets one after the other are read
/// as both packets, in order, with no byte left over.
pub proof fn lemma_round_trip_pair(a: Seq<u8>, b: Seq<u8>)
    requires
        a.len() > 0,
        b.len() > 0,
    ensures
        !run(encoded(a) + encoded(b)).failed,
        run(encoded(a) + encoded(b)).frames == seq![a, b],
        run(encoded(a) + encoded(b)).consumed == (encoded(a) + encoded(b)).len(),
        !run(encoded(a) + encoded(b)).in_packet,
{
    lemma_run_split(start(), encoded(a), encoded(b), 0);
    lemma_run_encoded(start(), a, 0);
    lemma_run_encoded(run(encoded(a)), b, encoded(a).len());
    assert(Seq::<Seq<u8>>::empty().push(a).push(b) == seq![a, b]);
}

/// Outside a packet, bytes other than `END` leave the decoder as it is.
pub proof fn lemma_noise_skipped(s: Decoder, noise: Seq<u8>, at: nat)
    requires
        !s.in_packet,
        forall|i: int| 0 <= i < noise.len() ==> noise[i] != END,
    ensures
        run_from(s, noise, at) == s,
    decreases noise.len(),
{
    if noise.len() > 0 {
        lemma_noise_skipped(s, noise.drop_last(), at);
    }
}

/// Two decoders that differ only in where their buffer began stay so.
pub proof fn lemma_run_shift(s: Decoder, input: Seq<u8>, at: nat, shift: nat)
    ensures
        run_from(Decoder { consumed: s.consumed + shift, ..s }, input, at + shift) == (Decoder {
            consumed: run_from(s, input, at).consumed + shift,
            ..run_from(s, input, at)
        }),
    decreases input.len(),
{
    if input.len() > 0 {
        lemma_run_shift(s, input.drop_last(), at, shift);
    }
}

/// Resynchronisation: bytes before the first `END` of a buffer are
/// discarded. With such noise in front the decoder finds the same packets,
/// fails on the same input, stands in the same place, and leaves the same
/// bytes in the buffer as without it.
pub proof fn lemma_resync(noise: Seq<u8>, rest: Seq<u8>)
    requires
        forall|i: int| 0 <= i < noise.len() ==> noise[i] != END,
        rest.len() > 0,
        rest[0] == END,
    ensures
        run(noise) == start(),
        run(noise + rest).failed == run(rest).failed,
        run(noise + rest).frames == run(rest).frames,
        run(noise + rest).in_packet == run(rest).in_packet,
        run(noise + rest).escaped == run(rest).escaped,
        run(noise + rest).packet == run(rest).packet,
        run(noise + rest).consumed == noise.len() + run(rest).consumed,
        run(rest).consumed <= rest.len(),
        (noise + rest).skip(run(noise + rest).consumed as int) == rest.skip(
            run(rest).consumed as int,
        ),
{
    let tail = rest.skip(1);
    let opened = Decoder { in_packet: true, ..start() };
    assert(rest == seq![END] + tail);
    lemma_noise_skipped(start(), noise, 0);
    lemma_run_split(start(), noise, rest, 0);
    lemma_run_split(start(), seq![END], tail, noise.len());
    lemma_run_split(start(), seq![END], tail, 0);
    lemma_run_one(start(), END, noise.len());
    lemma_run_one(start(), END, 0);
    lemma_run_shift(opened, tail, 1, noise.len());
    lemma_consumed_bound(start(), rest, 0);
    let c = run(rest).consumed as int;
    assert((noise + rest).skip(noise.len() + c) == rest.skip(c));
}

/// Escape legality: when the decoder has just read an `ESC` inside a packet,
/// any next byte but `ESC_END` and `ESC_ESC` is a framing error, whatever
/// follows it.
pub proof fn lemma_illegal_escape(input: Seq<u8>, i: int)
    requires
        0 <= i < input.len(),
        run(input.take(i)).in_packet,
        run(input.take(i)).escaped,
        input[i] != ESC_END,
        input[i] != ESC_ESC,
    ensures
        run(input).failed,
{
    let before = run(input.take(i));
    let after = run(input.take(i + 1));
    assert(input.take(i + 1).drop_last() == input.take(i));
    assert(after.failed);
    assert(input == input.take(i + 1) + input.skip(i + 1));
    lemma_run_split(start(), input.take(i + 1), input.skip(i + 1), 0);
    lemma_failure_stays(after, input.skip(i + 1), (i + 1) as nat);
}

/// Escape legality on a packet: after the opening `END` and any escaped
/// bytes, an `ESC` followed by a byte `x` that is no escape code is a framing
/// error, whatever follows.
pub proof fn lemma_illegal_escape_in_packet(head: Seq<u8>, x: u8, tail: Seq<u8>)
    requires
        x != ESC_END,
        x != ESC_ESC,
    ensures
        run(seq![END] + escaped(head) + seq![ESC, x] + tail).failed,
{
    let opened = Decoder { in_packet: true, ..start() };
    let filled = Decoder { packet: head, ..opened };
    let prefix = seq![END] + escaped(head);
    lemma_run_split(start(), seq![END], escaped(head), 0);
    lemma_run_one(start(), END, 0);
    lemma_run_escaped(opened, head, 1);
    assert(opened.packet + head == head);
    lemma_run_split(start(), prefix, seq![ESC, x], 0);
    lemma_run_two(filled, ESC, x, prefix.len());
    lemma_run_split(start(), prefix + seq![ESC, x], tail, 0);
    lemma_failure_stays(run(prefix + seq![ESC, x]), tail, (prefix.len() + 2) as nat);
}

/// Takes the complete packets out of a receive buffer.
///
/// Bytes outside a packet are skipped. A packet opens at an `END` and closes
/// at the next one; a packet without bytes is dropped. The buffer loses the
/// bytes that are done with and keeps a packet that is still open, from its
/// opening `END` on, for the next call. An `ESC` inside a packet followed by
/// anything but `ESC_END` or `ESC_ESC` is a framing error, and the buffer is
/// then left as it was.
pub fn decode_frames(data: &mut VecDeque<u8>) -> (r: Result<Vec<Vec<u8>>, Error>)
    ensures
        r.is_ok() <==> !run(old(data)@).failed,
        r matches Ok(frames) ==> {
            &&& views(frames@) == run(old(data)@).frames
            &&& run(old(data)@).consumed <= old(data)@.len()
            &&& final(data)@ == old(data)@.skip(run(old(data)@).consumed as int)
        },
        r matches Err(e) ==> e == Error::Framing && final(data)@ == old(data)@,
{
    let mut frames: Vec<Vec<u8>> = Vec::new();
    let mut packet: Vec<u8> = Vec::new();
    let mut escaped: bool = false;
    let mut in_packet: bool = false;
    let mut remainder_index: usize = 0;
    let n: usize = data.len();
    let ghost input: Seq<u8> = data@;

    let mut i: usize = 0;
    while i < n
        invariant
            i <= n,
            n == input.len(),
            data@ == input,
            !run(input.take(i as int)).failed,
            run(input.take(i as int)).in_packet == in_packet,
            run(input.take(i as int)).escaped == escaped,
            run(input.take(i as int)).packet == packet@,
            run(input.take(i as int)).frames == views(frames@),
            run(input.take(i as int)).consumed == remainder_index,
            remainder_index <= i,
        decreases n - i,
    {
        let b: u8 = data[i];
        proof {
            assert(input.take(i + 1).drop_last() == input.take(i as int));
            assert(input.take(i + 1).last() == b);
        }
        if !in_packet {
            if b == END {
                in_packet = true;
                remainder_index = i;
            }
        } else if escaped {
            if b == ESC_END {
                packet.push(END);
                escaped = false;
            } else if b == ESC_ESC {
                packet.push(ESC);
                escaped = false;
            } else {
                proof {
                    let bad = run(input.take(i + 1));
                    assert(bad.failed);
                    assert(input == input.take(i + 1) + input.skip(i + 1));
                    lemma_run_split(start(), input.take(i + 1), input.skip(i + 1), 0);
                    lemma_failure_stays(bad, input.skip(i + 1), (i + 1) as nat);
                }
                return Err(Error::Framing);
            }
        } else if b == END {
            if packet.len() > 0 {
                let ghost before = frames@;
                let ghost done = packet@;
                frames.push(packet);
                packet = Vec::new();
                in_packet = false;
                remainder_index = i + 1;
                assert(views(frames@) == views(before).push(done));
            }
        } else if b == ESC {
            escaped = true;
        } else {
            packet.push(b);
        }
        i += 1;
    }
    proof {
        assert(input.take(i as int) == input);
    }
    let mut k: usize = 0;
    while k < remainder_index
        invariant
            k <= remainder_index,
            remainder_index <= input.len(),
            data@ == input.skip(k as int),
        decreases remainder_index - k,
    {
        let _ = data.pop_front();
        k += 1;
        assert(input.skip(k - 1).skip(1) == input.skip(k as int));
    }
    Ok(frames)
}

} // verus!

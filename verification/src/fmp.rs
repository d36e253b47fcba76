//! The FMP channel: commands on the memories and files of the radio.
//!
//! A command is an opcode, a parameter count, and each parameter behind its
//! length:
//!
//! ```text
//! | opcode | n | len 0 | param 0 ... | len 1 | param 1 ... |
//! ```
//!
//! A response carries a status behind the opcode, and all lengths before all
//! parameters:
//!
//! ```text
//! | opcode | status | n | len 0 | .. | len n-1 | param 0 ... param n-1 ... |
//! ```

use crate::dat::{self, Progress, Receiver};
use crate::endian;
use crate::error::{status_of, Errno, Error};
use crate::link::{remainder, wire, Frame, FrameView, Link, Protocol};
use crate::slip;
use vstd::prelude::*;

verus! {

/// FMP opcodes.
#[derive(Clone, Copy, Debug, PartialEq, Eq, Structural)]
pub enum Opcode {
    ACK,
    MEMINFO,
    DUMP,
    FLASH,
    READ,
    WRITE,
    LIST,
    MOVE,
    COPY,
    MKDIR,
    RM,
    RESET,
}

/// The byte of an opcode.
pub open spec fn opcode_code(op: Opcode) -> u8 {
    match op {
        Opcode::ACK => 0x00u8,
        Opcode::MEMINFO => 0x01u8,
        Opcode::DUMP => 0x02u8,
        Opcode::FLASH => 0x03u8,
        Opcode::READ => 0x04u8,
        Opcode::WRITE => 0x05u8,
        Opcode::LIST => 0x06u8,
        Opcode::MOVE => 0x07u8,
        Opcode::COPY => 0x08u8,
        Opcode::MKDIR => 0x09u8,
        Opcode::RM => 0x0au8,
        Opcode::RESET => 0xffu8,
    }
}

/// The opcode that a byte names, if it names one.
pub open spec fn opcode_of(v: u8) -> Option<Opcode> {
    if v == 0x00 {
        Some(Opcode::ACK)
    } else if v == 0x01 {
        Some(Opcode::MEMINFO)
    } else if v == 0x02 {
        Some(Opcode::DUMP)
    } else if v == 0x03 {
        Some(Opcode::FLASH)
    } else if v == 0x04 {
        Some(Opcode::READ)
    } else if v == 0x05 {
        Some(Opcode::WRITE)
    } else if v == 0x06 {
        Some(Opcode::LIST)
    } else if v == 0x07 {
        Some(Opcode::MOVE)
    } else if v == 0x08 {
        Some(Opcode::COPY)
    } else if v == 0x09 {
        Some(Opcode::MKDIR)
    } else if v == 0x0a {
        Some(Opcode::RM)
    } else if v == 0xff {
        Some(Opcode::RESET)
    } else {
        None
    }
}

impl Opcode {
    /// The byte of this opcode.
    pub fn code(self) -> (v: u8)
        ensures
            v == opcode_code(self),
            opcode_of(v) == Some(self),
    {
        match self {
            Opcode::ACK => 0x00,
            Opcode::MEMINFO => 0x01,
            Opcode::DUMP => 0x02,
            Opcode::FLASH => 0x03,
            Opcode::READ => 0x04,
            Opcode::WRITE => 0x05,
            Opcode::LIST => 0x06,
            Opcode::MOVE => 0x07,
            Opcode::COPY => 0x08,
            Opcode::MKDIR => 0x09,
            Opcode::RM => 0x0a,
            Opcode::RESET => 0xff,
        }
    }

    /// Reads an opcode byte; a byte outside the closed set is refused.
    pub fn try_from(v: u8) -> (r: Result<Opcode, ()>)
        ensures
            r.is_ok() <==> opcode_of(v).is_some(),
            r.is_ok() ==> Some(r.unwrap()) == opcode_of(v),
            r.is_ok() ==> opcode_code(r.unwrap()) == v,
    {
        if v == 0x00 {
            Ok(Opcode::ACK)
        } else if v == 0x01 {
            Ok(Opcode::MEMINFO)
        } else if v == 0x02 {
            Ok(Opcode::DUMP)
        } else if v == 0x03 {
            Ok(Opcode::FLASH)
        } else if v == 0x04 {
            Ok(Opcode::READ)
        } else if v == 0x05 {
            Ok(Opcode::WRITE)
        } else if v == 0x06 {
            Ok(Opcode::LIST)
        } else if v == 0x07 {
            Ok(Opcode::MOVE)
        } else if v == 0x08 {
            Ok(Opcode::COPY)
        } else if v == 0x09 {
            Ok(Opcode::MKDIR)
        } else if v == 0x0a {
            Ok(Opcode::RM)
        } else if v == 0xff {
            Ok(Opcode::RESET)
        } else {
            Err(())
        }
    }
}

/// The length in bytes of a memory record on the wire.
pub const MEMINFO_SIZE: usize = 32;

/// The length in bytes of the name in a memory record.
pub const MEMINFO_NAME_SIZE: usize = 27;

/// One memory of the radio, as `MEMINFO` describes it: a record of 32 bytes
/// that holds the size as a little-endian 32-bit number, one byte of flags,
/// and the name in 27 bytes, padded with NUL bytes.
#[derive(Clone, Copy, Debug, PartialEq, Eq)]
pub struct MemInfo {
    /// Size of the memory in bytes.
    pub size: u32,
    /// Flags.
    pub flags: u8,
    /// Name of the memory, padded with NUL bytes.
    pub name: [u8; 27],
}

/// A byte of padding at the end of a name: NUL or a space.
pub open spec fn is_padding(b: u8) -> bool {
    b == 0 || b == 0x20
}

/// A name without the padding at its end.
pub open spec fn stripped(name: Seq<u8>) -> Seq<u8>
    decreases name.len(),
{
    if name.len() > 0 && is_padding(name.last()) {
        stripped(name.drop_last())
    } else {
        name
    }
}

/// Whether `v` is long enough to hold a memory record.
pub open spec fn holds_meminfo(v: Seq<u8>) -> bool {
    v.len() >= 32
}

impl MemInfo {
    /// Reads a memory record from the first 32 bytes of `v`. Fewer bytes
    /// than a record are a protocol error.
    pub fn from_bytes(v: &[u8]) -> (r: Result<MemInfo, Error>)
        ensures
            r.is_ok() <==> holds_meminfo(v@),
            r matches Ok(m) ==> {
                &&& m.size == endian::le_u32(v@)
                &&& m.flags == v@[4]
                &&& m.name@ == v@.subrange(5, 32)
            },
            r matches Err(e) ==> e == Error::Protocol,
    {
        if v.len() < MEMINFO_SIZE {
            return Err(Error::Protocol);
        }
        let size: u32 = endian::read_u32(v);
        let flags: u8 = v[4];
        let mut name: [u8; 27] = [0u8; 27];
        let mut i: usize = 0;
        while i < MEMINFO_NAME_SIZE
            invariant
                i <= 27,
                v@.len() >= 32,
                forall|k: int| 0 <= k < i ==> name@[k] == v@[5 + k],
            decreases 27 - i,
        {
            name[i] = v[5 + i];
            i += 1;
        }
        assert(name@ =~= v@.subrange(5, 32));
        Ok(MemInfo { size, flags, name })
    }

    /// The record of 32 bytes that describes this memory.
    pub fn to_bytes(&self) -> (out: Vec<u8>)
        ensures
            out@ == endian::le_bytes(self.size) + seq![self.flags] + self.name@,
            out@.len() == 32,
    {
        let mut out: Vec<u8> = endian::write_u32(self.size);
        out.push(self.flags);
        let ghost head = out@;
        let mut i: usize = 0;
        while i < MEMINFO_NAME_SIZE
            invariant
                i <= 27,
                out@ == head + self.name@.take(i as int),
            decreases 27 - i,
        {
            out.push(self.name[i]);
            i += 1;
            assert(self.name@.take(i as int) == self.name@.take(i - 1).push(self.name@[i - 1]));
        }
        assert(self.name@.take(27) == self.name@);
        out
    }

    /// The name of the memory for display: the name field without the NUL
    /// bytes and spaces at its end.
    pub fn label(&self) -> (out: Vec<u8>)
        ensures
            out@ == stripped(self.name@),
    {
        let mut end: usize = MEMINFO_NAME_SIZE;
        assert(self.name@.take(27) == self.name@);
        while end > 0 && (self.name[end - 1] == 0 || self.name[end - 1] == 0x20)
            invariant
                end <= 27,
                stripped(self.name@) == stripped(self.name@.take(end as int)),
            decreases end,
        {
            assert(self.name@.take(end as int).drop_last() == self.name@.take(end - 1));
            end -= 1;
        }
        assert(stripped(self.name@.take(end as int)) == self.name@.take(end as int));
        let mut out: Vec<u8> = Vec::new();
        let mut i: usize = 0;
        while i < end
            invariant
                i <= end <= 27,
                out@ == self.name@.take(i as int),
            decreases end - i,
        {
            out.push(self.name[i]);
            i += 1;
            assert(self.name@.take(i as int) == self.name@.take(i - 1).push(self.name@[i - 1]));
        }
        out
    }
}

/// Reading the record that describes a memory gives that memory back.
pub proof fn lemma_meminfo_round_trip(size: u32, flags: u8, name: Seq<u8>)
    requires
        name.len() == 27,
    ensures
        holds_meminfo(endian::le_bytes(size) + seq![flags] + name),
        endian::le_u32(endian::le_bytes(size) + seq![flags] + name) == size,
        (endian::le_bytes(size) + seq![flags] + name)[4] == flags,
        (endian::le_bytes(size) + seq![flags] + name).subrange(5, 32) == name,
{
    let v = endian::le_bytes(size) + seq![flags] + name;
    endian::lemma_le_round_trip(size, seq![flags] + name);
    assert(v == endian::le_bytes(size) + (seq![flags] + name));
    assert(v.subrange(5, 32) =~= name);
}

/// The parameters of a command, each behind its length byte.
pub open spec fn packed(params: Seq<Seq<u8>>) -> Seq<u8>
    decreases params.len(),
{
    if params.len() == 0 {
        Seq::empty()
    } else {
        packed(params.drop_last()) + seq![(params.last().len() % 256) as u8] + params.last()
    }
}

/// The frame of a command: opcode, parameter count, parameters.
///
/// Count and lengths travel in one byte each: of a number above 255 only the
/// low byte is sent.
pub open spec fn command(op: Opcode, params: Seq<Seq<u8>>) -> FrameView {
    FrameView {
        proto: Protocol::FMP,
        data: seq![opcode_code(op), (params.len() % 256) as u8] + packed(params),
    }
}

/// Builds the frame of a command.
pub fn build_command(opcode: Opcode, params: &Vec<Vec<u8>>) -> (frame: Frame)
    ensures
        frame@ == command(opcode, slip::views(params@)),
{
    let ghost all = slip::views(params@);
    let mut cmd: Vec<u8> = Vec::new();
    cmd.push(opcode.code());
    cmd.push((params.len() % 256) as u8);
    let ghost head = cmd@;
    let mut i: usize = 0;
    while i < params.len()
        invariant
            i <= params.len(),
            all == slip::views(params@),
            cmd@ == head + packed(all.take(i as int)),
        decreases params.len() - i,
    {
        let p: &Vec<u8> = &params[i];
        let ghost before = cmd@;
        cmd.push((p.len() % 256) as u8);
        let mut j: usize = 0;
        while j < p.len()
            invariant
                j <= p.len(),
                cmd@ == before + seq![(p@.len() % 256) as u8] + p@.take(j as int),
            decreases p.len() - j,
        {
            cmd.push(p[j]);
            j += 1;
            assert(p@.take(j as int) == p@.take(j - 1).push(p@[j - 1]));
        }
        i += 1;
        proof {
            assert(p@.take(j as int) == p@);
            assert(all.take(i as int).drop_last() == all.take(i - 1));
            assert(all.take(i as int).last() == p@);
        }
    }
    assert(all.take(i as int) == all);
    let frame = Frame { proto: Protocol::FMP, data: cmd };
    assert(frame@.data == command(opcode, all).data);
    frame
}

/// Sends a command: takes the link, returns the bytes to write for the
/// command, and gives the link back.
pub fn send_cmd(link: &mut Link, opcode: Opcode, params: Vec<Vec<u8>>) -> (out: Vec<u8>)
    requires
        !old(link).held(),
    ensures
        !final(link).held(),
        final(link).pending() == old(link).pending(),
        final(link).queued() == old(link).queued(),
        out@ == slip::encoded(wire(command(opcode, slip::views(params@)))),
{
    let frame: Frame = build_command(opcode, &params);
    link.post(frame)
}

/// The response to a command.
#[derive(Debug, PartialEq, Eq)]
pub struct Reply {
    /// The status that the radio reports.
    pub status: Errno,
    /// The parameters of the response, in order.
    pub params: Vec<Vec<u8>>,
}

/// A response as a mathematical value.
pub struct ReplyView {
    pub status: Errno,
    pub params: Seq<Seq<u8>>,
}

impl View for Reply {
    type V = ReplyView;

    open spec fn view(&self) -> ReplyView {
        ReplyView { status: self.status, params: slip::views(self.params@) }
    }
}

/// The sum of some lengths.
pub open spec fn total(lens: Seq<u8>) -> nat
    decreases lens.len(),
{
    if lens.len() == 0 {
        0
    } else {
        total(lens.drop_last()) + lens.last() as nat
    }
}

/// The length bytes of a response.
pub open spec fn lengths(data: Seq<u8>) -> Seq<u8> {
    data.subrange(3, 3 + data[2])
}

/// Where parameter `i` of a response begins.
pub open spec fn param_start(data: Seq<u8>, i: int) -> int {
    3 + data[2] + total(lengths(data).take(i))
}

/// Parameter `i` of a response.
pub open spec fn param(data: Seq<u8>, i: int) -> Seq<u8> {
    data.subrange(param_start(data, i), param_start(data, i) + lengths(data)[i])
}

/// Whether `data` is a response to the command `op`: it starts with that
/// opcode, a status and a count, and it is long enough for as many lengths
/// as the count says and for as many parameter bytes as the lengths say.
pub open spec fn answers(data: Seq<u8>, op: Opcode) -> bool {
    &&& data.len() >= 3
    &&& data[0] == opcode_code(op)
    &&& data.len() >= 3 + data[2]
    &&& data.len() >= 3 + data[2] + total(lengths(data))
}

/// What the payload of a frame is read as in answer to the command `op`.
/// The status does not stop the reading: the parameters come out whatever
/// it is.
pub open spec fn reply_of(data: Seq<u8>, op: Opcode) -> Result<ReplyView, Error> {
    if answers(data, op) {
        Ok(
            ReplyView {
                status: status_of(data[1]),
                params: Seq::new(data[2] as nat, |i: int| param(data, i)),
            },
        )
    } else {
        Err(Error::Protocol)
    }
}

/// Some parameters one after the other.
pub open spec fn concat(params: Seq<Seq<u8>>) -> Seq<u8>
    decreases params.len(),
{
    if params.len() == 0 {
        Seq::empty()
    } else {
        concat(params.drop_last()) + params.last()
    }
}

/// The lengths in front of a position sum to no more than all of them.
pub proof fn lemma_total_take(lens: Seq<u8>, i: int)
    requires
        0 <= i <= lens.len(),
    ensures
        total(lens.take(i)) <= total(lens),
    decreases lens.len(),
{
    if i < lens.len() {
        lemma_total_take(lens.drop_last(), i);
        assert(lens.drop_last().take(i) == lens.take(i));
    } else {
        assert(lens.take(i) == lens);
    }
}

/// One more length adds itself to the sum.
pub proof fn lemma_total_next(lens: Seq<u8>, i: int)
    requires
        0 <= i < lens.len(),
    ensures
        total(lens.take(i + 1)) == total(lens.take(i)) + lens[i],
{
    assert(lens.take(i + 1).drop_last() == lens.take(i));
}

/// Reads the payload of the frame that answers the command `opcode`.
pub fn read_reply(data: &[u8], opcode: Opcode) -> (r: Result<Reply, Error>)
    ensures
        match r {
            Ok(reply) => reply_of(data@, opcode) == Ok::<ReplyView, Error>(reply@),
            Err(e) => reply_of(data@, opcode) == Err::<ReplyView, Error>(e),
        },
{
    if data.len() < 3 {
        return Err(Error::Protocol);
    }
    if data[0] != opcode.code() {
        return Err(Error::Protocol);
    }
    let status: Errno = Errno::from_status(data[1]);
    let nparams: usize = data[2] as usize;
    if data.len() - 3 < nparams {
        return Err(Error::Protocol);
    }
    let ghost lens = lengths(data@);
    let mut params: Vec<Vec<u8>> = Vec::new();
    let mut offset: usize = 3 + nparams;
    let mut i: usize = 0;
    while i < nparams
        invariant
            i <= nparams,
            nparams == data@[2],
            data@.len() >= 3 + nparams,
            lens == lengths(data@),
            offset == param_start(data@, i as int),
            offset <= data@.len(),
            slip::views(params@) == Seq::new(i as nat, |k: int| param(data@, k)),
        decreases nparams - i,
    {
        let size: usize = data[3 + i] as usize;
        proof {
            assert(lens[i as int] == data@[3 + i]);
            lemma_total_next(lens, i as int);
            lemma_total_take(lens, i + 1);
        }
        if data.len() - offset < size {
            return Err(Error::Protocol);
        }
        let mut p: Vec<u8> = Vec::new();
        let mut j: usize = 0;
        while j < size
            invariant
                j <= size,
                offset + size <= data@.len() <= usize::MAX,
                p@ == data@.subrange(offset as int, offset + j),
            decreases size - j,
        {
            p.push(data[offset + j]);
            j += 1;
            assert(data@.subrange(offset as int, offset + j) == data@.subrange(
                offset as int,
                offset + j - 1,
            ).push(data@[offset + j - 1]));
        }
        let ghost before = params@;
        assert(p@ == param(data@, i as int));
        params.push(p);
        assert(slip::views(params@) =~= slip::views(before).push(param(data@, i as int)));
        offset += size;
        i += 1;
        assert(slip::views(params@) =~= Seq::new(i as nat, |k: int| param(data@, k)));
    }
    proof {
        assert(lens.take(i as int) == lens);
    }
    Ok(Reply { status, params })
}

/// Parameter table: in a response, parameter `i` has the length that length
/// byte `i` says, and the parameters one after the other are the bytes
/// behind the length bytes, as many as the lengths sum to.
pub proof fn lemma_param_table(data: Seq<u8>, op: Opcode)
    requires
        answers(data, op),
    ensures
        reply_of(data, op) is Ok,
        reply_of(data, op)->Ok_0.params.len() == data[2],
        forall|i: int|
            0 <= i < data[2] ==> (#[trigger] reply_of(data, op)->Ok_0.params[i]).len()
                == data[3 + i],
        concat(reply_of(data, op)->Ok_0.params) == data.subrange(
            3 + data[2],
            3 + data[2] + total(lengths(data)),
        ),
        data.len() == 3 + data[2] + total(lengths(data)) ==> concat(
            reply_of(data, op)->Ok_0.params,
        ) == data.skip(3 + data[2]),
{
    let params = reply_of(data, op)->Ok_0.params;
    let n = data[2] as int;
    let lens = lengths(data);
    assert forall|i: int| 0 <= i < n implies (#[trigger] params[i]).len() == data[3 + i] by {
        lemma_total_next(lens, i);
        lemma_total_take(lens, i + 1);
    }
    lemma_concat_prefix(data, n);
    assert(params.take(n) == params);
    assert(lens.take(n) == lens);
}

/// The first `k` parameters of a response, one after the other, are the
/// bytes from the end of the length bytes to the start of parameter `k`.
proof fn lemma_concat_prefix(data: Seq<u8>, k: int)
    requires
        data.len() >= 3,
        data.len() >= 3 + data[2] + total(lengths(data)),
        0 <= k <= data[2],
    ensures
        concat(Seq::new(data[2] as nat, |i: int| param(data, i)).take(k)) == data.subrange(
            3 + data[2],
            param_start(data, k),
        ),
    decreases k,
{
    let params = Seq::new(data[2] as nat, |i: int| param(data, i));
    let lens = lengths(data);
    if k == 0 {
        assert(lens.take(0) == Seq::<u8>::empty());
        assert(data.subrange(3 + data[2], param_start(data, 0)) == Seq::<u8>::empty());
    } else {
        lemma_concat_prefix(data, k - 1);
        lemma_total_next(lens, k - 1);
        lemma_total_take(lens, k);
        assert(params.take(k).drop_last() == params.take(k - 1));
        assert(params.take(k).last() == param(data, k - 1));
        assert(data.subrange(3 + data[2], param_start(data, k - 1)) + param(data, k - 1)
            == data.subrange(3 + data[2], param_start(data, k)));
    }
}

/// What a wait for the response to `op` gives, from what the link found:
/// nothing yet, the response, or the error that ends the wait.
pub open spec fn reply_outcome(found: Result<Option<FrameView>, Error>, op: Opcode) -> Result<
    Option<ReplyView>,
    Error,
> {
    match found {
        Ok(None) => Ok(None),
        Ok(Some(f)) => match reply_of(f.data, op) {
            Ok(reply) => Ok(Some(reply)),
            Err(e) => Err(e),
        },
        Err(e) => Err(e),
    }
}

/// `r` is `expected`, response by its view.
pub open spec fn reply_is(
    r: Result<Option<Reply>, Error>,
    expected: Result<Option<ReplyView>, Error>,
) -> bool {
    match r {
        Ok(Some(reply)) => expected == Ok::<Option<ReplyView>, Error>(Some(reply@)),
        Ok(None) => expected == Ok::<Option<ReplyView>, Error>(None),
        Err(e) => expected == Err::<Option<ReplyView>, Error>(e),
    }
}

/// Takes in the bytes `chunk` read from the line and returns the response to
/// the command `opcode` once it is there.
///
/// The first call after the command takes the link. Frames of other
/// protocols are passed over. `Ok(None)` means that the response has not
/// come yet and the link stays held; with the response or with an error the
/// link is free again. A frame that starts with another opcode, or that is
/// too short for its own parameter table, is a protocol error. The status
/// comes out with the parameters and does not stop the reading.
pub fn wait_reply(link: &mut Link, opcode: Opcode, chunk: &[u8]) -> (r: Result<
    Option<Reply>,
    Error,
>)
    ensures
        final(link).held() <==> r == Ok::<Option<Reply>, Error>(None),
        reply_is(r, reply_outcome(old(link).found(Protocol::FMP, chunk@), opcode)),
        final(link).pending() == remainder(old(link).pending() + chunk@),
        final(link).queued() == old(link).left(Protocol::FMP, chunk@),
{
    if !link.is_held() {
        link.acquire();
    }
    match link.reply(Protocol::FMP, chunk) {
        Ok(Some(frame)) => match read_reply(frame.data.as_slice(), opcode) {
            Ok(reply) => Ok(Some(reply)),
            Err(e) => Err(e),
        },
        Ok(None) => Ok(None),
        Err(e) => Err(e),
    }
}

/// Whether `m` is the memory that the record `v` describes.
pub open spec fn describes(v: Seq<u8>, m: MemInfo) -> bool {
    &&& holds_meminfo(v)
    &&& m.size == endian::le_u32(v)
    &&& m.flags == v[4]
    &&& m.name@ == v.subrange(5, 32)
}

/// Why a response to `MEMINFO` gives no list of memories, if it gives none:
/// the radio reports a status other than `OK`, or a parameter is too short
/// for a memory record.
pub open spec fn listing_error(reply: ReplyView) -> Option<Error> {
    if reply.status != Errno::OK {
        Some(Error::Peer(reply.status))
    } else if exists|i: int| 0 <= i < reply.params.len() && !holds_meminfo(#[trigger] reply.params[i]) {
        Some(Error::Protocol)
    } else {
        None
    }
}

/// Whether `list` holds the memories that the records `params` describe, in
/// order.
pub open spec fn lists(params: Seq<Seq<u8>>, list: Seq<MemInfo>) -> bool {
    &&& list.len() == params.len()
    &&& forall|i: int| 0 <= i < list.len() ==> describes(params[i], #[trigger] list[i])
}

/// Reads the response to `MEMINFO`: one memory for each parameter, in the
/// order of the response, which is the order of their indices.
pub fn read_meminfo(reply: &Reply) -> (r: Result<Vec<MemInfo>, Error>)
    ensures
        match r {
            Ok(list) => listing_error(reply@) is None && lists(reply@.params, list@),
            Err(e) => listing_error(reply@) == Some(e),
        },
{
    if reply.status.code() != 0 {
        return Err(Error::Peer(reply.status));
    }
    let mut list: Vec<MemInfo> = Vec::new();
    let mut i: usize = 0;
    while i < reply.params.len()
        invariant
            i <= reply.params.len(),
            reply.status == Errno::OK,
            list@.len() == i,
            forall|k: int| 0 <= k < i ==> describes(reply@.params[k], #[trigger] list@[k]),
            forall|k: int| 0 <= k < i ==> holds_meminfo(#[trigger] reply@.params[k]),
        decreases reply.params.len() - i,
    {
        assert(reply@.params[i as int] == reply.params@[i as int]@);
        match MemInfo::from_bytes(reply.params[i].as_slice()) {
            Ok(m) => {
                list.push(m);
            },
            Err(e) => {
                return Err(e);
            },
        }
        i += 1;
    }
    Ok(list)
}

/// Asks the radio for its memories: the bytes to write for a `MEMINFO`
/// command without parameters. [`meminfo_reply`] reads the response.
pub fn meminfo(link: &mut Link) -> (out: Vec<u8>)
    requires
        !old(link).held(),
    ensures
        !final(link).held(),
        final(link).pending() == old(link).pending(),
        final(link).queued() == old(link).queued(),
        out@ == slip::encoded(wire(command(Opcode::MEMINFO, Seq::empty()))),
{
    let params: Vec<Vec<u8>> = Vec::new();
    assert(slip::views(params@) == Seq::<Seq<u8>>::empty());
    send_cmd(link, Opcode::MEMINFO, params)
}

/// Takes in the bytes `chunk` read after `MEMINFO` and returns the memories
/// of the radio once the response is there.
///
/// `Ok(None)` means that the response has not come yet and the link stays
/// held; with the list or with an error the link is free again. A status
/// other than `OK` is the error of the radio.
pub fn meminfo_reply(link: &mut Link, chunk: &[u8]) -> (r: Result<Option<Vec<MemInfo>>, Error>)
    ensures
        final(link).held() <==> r == Ok::<Option<Vec<MemInfo>>, Error>(None),
        final(link).pending() == remainder(old(link).pending() + chunk@),
        final(link).queued() == old(link).left(Protocol::FMP, chunk@),
        match reply_outcome(old(link).found(Protocol::FMP, chunk@), Opcode::MEMINFO) {
            Ok(None) => r == Ok::<Option<Vec<MemInfo>>, Error>(None),
            Ok(Some(reply)) => match r {
                Ok(Some(list)) => listing_error(reply) is None && lists(reply.params, list@),
                Ok(None) => false,
                Err(e) => listing_error(reply) == Some(e),
            },
            Err(e) => r == Err::<Option<Vec<MemInfo>>, Error>(e),
        },
{
    match wait_reply(link, Opcode::MEMINFO, chunk) {
        Ok(Some(reply)) => match read_meminfo(&reply) {
            Ok(list) => Ok(Some(list)),
            Err(e) => Err(e),
        },
        Ok(None) => Ok(None),
        Err(e) => Err(e),
    }
}

/// The parameters of a command on the memory with index `mem_id`: the low
/// byte of the index.
pub open spec fn index_param(mem_id: usize) -> Seq<Seq<u8>> {
    seq![seq![(mem_id % 256) as u8]]
}

/// Builds the parameters of a command on the memory with index `mem_id`.
fn index_params(mem_id: usize) -> (params: Vec<Vec<u8>>)
    ensures
        slip::views(params@) == index_param(mem_id),
{
    let mut index: Vec<u8> = Vec::new();
    index.push((mem_id % 256) as u8);
    let mut params: Vec<Vec<u8>> = Vec::new();
    params.push(index);
    assert(slip::views(params@) =~= index_param(mem_id));
    params
}

/// Asks the radio to send the content of the memory with index `mem_id`: the
/// bytes to write for the `DUMP` command. [`dump_reply`] reads the response.
pub fn dump(link: &mut Link, mem_id: usize) -> (out: Vec<u8>)
    requires
        !old(link).held(),
    ensures
        !final(link).held(),
        final(link).pending() == old(link).pending(),
        final(link).queued() == old(link).queued(),
        out@ == slip::encoded(wire(command(Opcode::DUMP, index_param(mem_id)))),
{
    send_cmd(link, Opcode::DUMP, index_params(mem_id))
}

/// Why the response to `DUMP` or `FLASH` does not start the transfer, if it
/// does not: the radio reports a status other than `OK`.
pub open spec fn refusal(reply: ReplyView) -> Option<Error> {
    if reply.status != Errno::OK {
        Some(Error::Peer(reply.status))
    } else {
        None
    }
}

/// Takes in the bytes `chunk` read after `DUMP` and, once the radio has
/// agreed, opens the transfer that receives the memory `mem`.
///
/// `Ok(None)` means that the response has not come yet and the link stays
/// held. When the radio agrees, the result is the state of a transfer of as
/// many bytes as `mem` has, with the bytes to write to start it; the link
/// is held by that transfer, unless the memory has no bytes. With an error
/// the link is free.
pub fn dump_reply(link: &mut Link, mem: &MemInfo, chunk: &[u8]) -> (r: Result<
    Option<(Receiver, Vec<u8>)>,
    Error,
>)
    ensures
        final(link).pending() == remainder(old(link).pending() + chunk@),
        final(link).queued() == old(link).left(Protocol::FMP, chunk@),
        match reply_outcome(old(link).found(Protocol::FMP, chunk@), Opcode::DUMP) {
            Ok(None) => r matches Ok(None) && final(link).held(),
            Ok(Some(reply)) => match r {
                Ok(Some(start)) => {
                    &&& refusal(reply) is None
                    &&& start.0.wf()
                    &&& start.0@ == (Progress {
                        size: mem.size as nat,
                        received: 0,
                        prev_block: 0,
                    })
                    &&& start.1@ == slip::encoded(wire(dat::ack_frame()))
                    &&& final(link).held() <==> mem.size != 0
                },
                Ok(None) => false,
                Err(e) => refusal(reply) == Some(e) && !final(link).held(),
            },
            Err(e) => r matches Err(err) && err == e && !final(link).held(),
        },
{
    match wait_reply(link, Opcode::DUMP, chunk) {
        Ok(Some(reply)) => {
            if reply.status.code() != 0 {
                Err(Error::Peer(reply.status))
            } else {
                Ok(Some(dat::receive(link, mem.size as usize)))
            }
        },
        Ok(None) => Ok(None),
        Err(e) => Err(e),
    }
}

/// Asks the radio to take new content for the memory with index `mem_id`:
/// the bytes to write for the `FLASH` command. [`flash_reply`] reads the
/// response.
pub fn flash(link: &mut Link, mem_id: usize) -> (out: Vec<u8>)
    requires
        !old(link).held(),
    ensures
        !final(link).held(),
        final(link).pending() == old(link).pending(),
        final(link).queued() == old(link).queued(),
        out@ == slip::encoded(wire(command(Opcode::FLASH, index_param(mem_id)))),
{
    send_cmd(link, Opcode::FLASH, index_params(mem_id))
}

/// Takes in the bytes `chunk` read after `FLASH` and, once the radio has
/// agreed, cuts `content` into the blocks to send to the memory `mem`.
///
/// `Ok(None)` means that the response has not come yet and the link stays
/// held; else the link is free. Content of another length than the memory
/// is refused with a size mismatch.
pub fn flash_reply(link: &mut Link, mem: &MemInfo, content: &[u8], chunk: &[u8]) -> (r: Result<
    Option<Vec<Frame>>,
    Error,
>)
    ensures
        final(link).held() <==> r matches Ok(None),
        final(link).pending() == remainder(old(link).pending() + chunk@),
        final(link).queued() == old(link).left(Protocol::FMP, chunk@),
        match reply_outcome(old(link).found(Protocol::FMP, chunk@), Opcode::FLASH) {
            Ok(None) => r matches Ok(None),
            Ok(Some(reply)) => match r {
                Ok(Some(frames)) => {
                    &&& refusal(reply) is None
                    &&& content@.len() == mem.size
                    &&& dat::frame_data(frames@) == dat::blocks(content@)
                    &&& forall|k: int|
                        0 <= k < frames@.len() ==> (#[trigger] frames@[k]).proto == Protocol::DAT
                },
                Ok(None) => false,
                Err(e) => if refusal(reply) is Some {
                    refusal(reply) == Some(e)
                } else {
                    content@.len() != mem.size && e == Error::SizeMismatch
                },
            },
            Err(e) => r matches Err(err) && err == e,
        },
{
    match wait_reply(link, Opcode::FLASH, chunk) {
        Ok(Some(reply)) => {
            if reply.status.code() != 0 {
                Err(Error::Peer(reply.status))
            } else {
                match dat::send(content, mem.size as usize) {
                    Ok(frames) => Ok(Some(frames)),
                    Err(e) => Err(e),
                }
            }
        },
        Ok(None) => Ok(None),
        Err(e) => Err(e),
    }
}

} // verus!

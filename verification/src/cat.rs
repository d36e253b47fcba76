//! The CAT channel: short requests to read or set one parameter of the
//! radio, each answered by one frame.
//!
//! A request is an opcode, a 16-bit parameter identifier with its high byte
//! first, and for `SET` the new value. The answer to `GET` is `DATA` with
//! the value, or `ACK` with a status; the answer to `SET` is `ACK` with a
//! status.

use crate::endian;
use crate::error::{Errno, Error};
use crate::link::{remainder, wire, Frame, FrameView, Link, Protocol};
use crate::slip;
use vstd::prelude::*;
use vstd::utf8::{decode_utf8, valid_utf8};

verus! {

/// CAT opcodes.
#[derive(Clone, Copy, Debug, PartialEq, Eq, Structural)]
pub enum Opcode {
    /// Asks for the value of a parameter (`G`).
    GET,
    /// Sets the value of a parameter (`S`).
    SET,
    /// Carries the value asked for (`D`).
    DATA,
    /// Carries a status (`A`).
    ACK,
}

/// The byte of an opcode.
pub open spec fn opcode_code(op: Opcode) -> u8 {
    match op {
        Opcode::GET => 0x47u8,
        Opcode::SET => 0x53u8,
        Opcode::DATA => 0x44u8,
        Opcode::ACK => 0x41u8,
    }
}

/// The opcode that a byte names, if it names one.
pub open spec fn opcode_of(v: u8) -> Option<Opcode> {
    if v == 0x47 {
        Some(Opcode::GET)
    } else if v == 0x53 {
        Some(Opcode::SET)
    } else if v == 0x44 {
        Some(Opcode::DATA)
    } else if v == 0x41 {
        Some(Opcode::ACK)
    } else {
        None
    }
}

impl Opcode {
    /// The byte of this opcode.
    pub fn code(self) -> (v: u8)
        ensures
            v == opcode_code(self),
            opcode_of(v) == Some(self),
    {
        match self {
            Opcode::GET => 0x47,
            Opcode::SET => 0x53,
            Opcode::DATA => 0x44,
            Opcode::ACK => 0x41,
        }
    }

    /// Reads an opcode byte; a byte outside the closed set is refused.
    pub fn try_from(v: u8) -> (r: Result<Opcode, ()>)
        ensures
            r.is_ok() <==> opcode_of(v).is_some(),
            r.is_ok() ==> Some(r.unwrap()) == opcode_of(v),
            r.is_ok() ==> opcode_code(r.unwrap()) == v,
    {
        if v == 0x47 {
            Ok(Opcode::GET)
        } else if v == 0x53 {
            Ok(Opcode::SET)
        } else if v == 0x44 {
            Ok(Opcode::DATA)
        } else if v == 0x41 {
            Ok(Opcode::ACK)
        } else {
            Err(())
        }
    }
}

/// The parameters that this library reads and sets.
#[derive(Clone, Copy, Debug, PartialEq, Eq, Structural)]
pub enum ID {
    /// The name of the radio (`IN`).
    INFO,
    /// The receive frequency in hertz (`RF`).
    FREQRX,
    /// The transmit frequency in hertz (`TF`).
    FREQTX,
    /// The switch into file transfer mode (`FT`).
    FILETRANSFER,
}

/// The 16-bit identifier of a parameter.
pub open spec fn id_code(id: ID) -> u16 {
    match id {
        ID::INFO => 0x494Eu16,
        ID::FREQRX => 0x5246u16,
        ID::FREQTX => 0x5446u16,
        ID::FILETRANSFER => 0x4654u16,
    }
}

impl ID {
    /// The 16-bit identifier of this parameter.
    pub fn code(self) -> (v: u16)
        ensures
            v == id_code(self),
    {
        match self {
            ID::INFO => 0x494E,
            ID::FREQRX => 0x5246,
            ID::FREQTX => 0x5446,
            ID::FILETRANSFER => 0x4654,
        }
    }
}

/// The frame of a request: opcode, identifier with its high byte first, and
/// the value.
pub open spec fn request(op: Opcode, id: ID, value: Seq<u8>) -> FrameView {
    FrameView {
        proto: Protocol::CAT,
        data: seq![opcode_code(op), (id_code(id) / 256) as u8, (id_code(id) % 256) as u8] + value,
    }
}

/// What the payload of a frame says in answer to `GET`: `DATA` carries the
/// value behind the opcode byte; `ACK` with status 0 stands for a value
/// without bytes; `ACK` with another status is the error of the radio;
/// anything else is no answer to `GET`.
pub open spec fn get_answer(data: Seq<u8>) -> Result<Seq<u8>, Error> {
    if data.len() == 0 {
        Err(Error::Protocol)
    } else if data[0] == opcode_code(Opcode::DATA) {
        Ok(data.skip(1))
    } else if data[0] == opcode_code(Opcode::ACK) && data.len() >= 2 {
        if data[1] == 0 {
            Ok(Seq::empty())
        } else {
            Err(Error::Peer(crate::error::status_of(data[1])))
        }
    } else {
        Err(Error::Protocol)
    }
}

/// What the payload of a frame says in answer to `SET`: `ACK` with status 0
/// is success; `ACK` with another status is the error of the radio;
/// anything else is no answer to `SET`.
pub open spec fn set_answer(data: Seq<u8>) -> Result<(), Error> {
    if data.len() >= 2 && data[0] == opcode_code(Opcode::ACK) {
        if data[1] == 0 {
            Ok(())
        } else {
            Err(Error::Peer(crate::error::status_of(data[1])))
        }
    } else {
        Err(Error::Protocol)
    }
}

/// `r` is `expected`, bytes by their view.
pub open spec fn bytes_are(r: Result<Vec<u8>, Error>, expected: Result<Seq<u8>, Error>) -> bool {
    match r {
        Ok(v) => expected == Ok::<Seq<u8>, Error>(v@),
        Err(e) => expected == Err::<Seq<u8>, Error>(e),
    }
}

/// Builds the frame of a request.
pub fn build_request(op: Opcode, id: ID, value: &[u8]) -> (frame: Frame)
    ensures
        frame@ == request(op, id, value@),
{
    let code: u16 = id.code();
    let mut cmd: Vec<u8> = Vec::new();
    cmd.push(op.code());
    cmd.push((code / 256) as u8);
    cmd.push((code % 256) as u8);
    let ghost head = cmd@;
    let mut i: usize = 0;
    while i < value.len()
        invariant
            i <= value.len(),
            cmd@ == head + value@.take(i as int),
        decreases value.len() - i,
    {
        cmd.push(value[i]);
        i += 1;
        assert(value@.take(i as int) == value@.take(i - 1).push(value@[i - 1]));
    }
    assert(value@.take(i as int) == value@);
    let frame = Frame { proto: Protocol::CAT, data: cmd };
    assert(frame@.data == request(op, id, value@).data);
    frame
}

/// Reads the payload of the frame that answers a `GET`.
pub fn read_get_answer(data: &[u8]) -> (r: Result<Vec<u8>, Error>)
    ensures
        bytes_are(r, get_answer(data@)),
{
    if data.len() == 0 {
        return Err(Error::Protocol);
    }
    match Opcode::try_from(data[0]) {
        Ok(Opcode::DATA) => {
            let mut value: Vec<u8> = Vec::new();
            let mut i: usize = 1;
            while i < data.len()
                invariant
                    1 <= i <= data.len(),
                    value@ == data@.subrange(1, i as int),
                decreases data.len() - i,
            {
                value.push(data[i]);
                i += 1;
                assert(data@.subrange(1, i as int) == data@.subrange(1, i - 1).push(data@[i - 1]));
            }
            assert(data@.subrange(1, i as int) == data@.skip(1));
            Ok(value)
        },
        Ok(Opcode::ACK) => {
            if data.len() < 2 {
                Err(Error::Protocol)
            } else if data[1] == 0 {
                Ok(Vec::new())
            } else {
                Err(Error::Peer(Errno::from_status(data[1])))
            }
        },
        _ => Err(Error::Protocol),
    }
}

/// Reads the payload of the frame that answers a `SET`.
pub fn read_set_answer(data: &[u8]) -> (r: Result<(), Error>)
    ensures
        r == set_answer(data@),
{
    if data.len() < 2 {
        return Err(Error::Protocol);
    }
    match Opcode::try_from(data[0]) {
        Ok(Opcode::ACK) => {
            if data[1] == 0 {
                Ok(())
            } else {
                Err(Error::Peer(Errno::from_status(data[1])))
            }
        },
        _ => Err(Error::Protocol),
    }
}

/// What a wait for the answer to `GET` gives, from what the link found:
/// nothing yet, the value, or the error that ends the transaction.
pub open spec fn get_outcome(found: Result<Option<FrameView>, Error>) -> Result<
    Option<Seq<u8>>,
    Error,
> {
    match found {
        Ok(None) => Ok(None),
        Ok(Some(f)) => match get_answer(f.data) {
            Ok(value) => Ok(Some(value)),
            Err(e) => Err(e),
        },
        Err(e) => Err(e),
    }
}

/// What a wait for the answer to `SET` gives, from what the link found:
/// `false` while there is no answer, `true` on success, or the error that
/// ends the transaction.
pub open spec fn set_outcome(found: Result<Option<FrameView>, Error>) -> Result<bool, Error> {
    match found {
        Ok(None) => Ok(false),
        Ok(Some(f)) => match set_answer(f.data) {
            Ok(_) => Ok(true),
            Err(e) => Err(e),
        },
        Err(e) => Err(e),
    }
}

/// `r` is `expected`, bytes by their view.
pub open spec fn value_is(
    r: Result<Option<Vec<u8>>, Error>,
    expected: Result<Option<Seq<u8>>, Error>,
) -> bool {
    match r {
        Ok(Some(v)) => expected == Ok::<Option<Seq<u8>>, Error>(Some(v@)),
        Ok(None) => expected == Ok::<Option<Seq<u8>>, Error>(None),
        Err(e) => expected == Err::<Option<Seq<u8>>, Error>(e),
    }
}

/// Opens a `GET` transaction for `id`: takes the link and returns the bytes
/// to write. The link stays held until [`get_reply`] ends the transaction.
pub fn get(link: &mut Link, id: ID) -> (out: Vec<u8>)
    requires
        !old(link).held(),
    ensures
        final(link).held(),
        final(link).pending() == old(link).pending(),
        final(link).queued() == old(link).queued(),
        out@ == slip::encoded(wire(request(Opcode::GET, id, Seq::empty()))),
{
    let value: Vec<u8> = Vec::new();
    let frame: Frame = build_request(Opcode::GET, id, value.as_slice());
    link.begin(frame)
}

/// Takes in the bytes `chunk` read after a `GET` and returns the value once
/// the answer is there.
///
/// Frames of other protocols are passed over. `Ok(None)` means that the
/// answer has not come yet and the link stays held; with the value or with
/// an error the link is free again.
pub fn get_reply(link: &mut Link, chunk: &[u8]) -> (r: Result<Option<Vec<u8>>, Error>)
    requires
        old(link).held(),
    ensures
        final(link).held() <==> r == Ok::<Option<Vec<u8>>, Error>(None),
        value_is(r, get_outcome(old(link).found(Protocol::CAT, chunk@))),
        final(link).pending() == remainder(old(link).pending() + chunk@),
        final(link).queued() == old(link).left(Protocol::CAT, chunk@),
{
    match link.reply(Protocol::CAT, chunk) {
        Ok(Some(frame)) => match read_get_answer(frame.data.as_slice()) {
            Ok(value) => Ok(Some(value)),
            Err(e) => Err(e),
        },
        Ok(None) => Ok(None),
        Err(e) => Err(e),
    }
}

/// Opens a `SET` transaction that gives `id` the value `value`: takes the
/// link and returns the bytes to write. The link stays held until
/// [`set_reply`] ends the transaction.
pub fn set(link: &mut Link, id: ID, value: &[u8]) -> (out: Vec<u8>)
    requires
        !old(link).held(),
    ensures
        final(link).held(),
        final(link).pending() == old(link).pending(),
        final(link).queued() == old(link).queued(),
        out@ == slip::encoded(wire(request(Opcode::SET, id, value@))),
{
    let frame: Frame = build_request(Opcode::SET, id, value);
    link.begin(frame)
}

/// Takes in the bytes `chunk` read after a `SET` and tells whether the radio
/// has acknowledged it.
///
/// Frames of other protocols are passed over. `Ok(false)` means that the
/// answer has not come yet and the link stays held; with `Ok(true)` or with
/// an error the link is free again.
pub fn set_reply(link: &mut Link, chunk: &[u8]) -> (r: Result<bool, Error>)
    requires
        old(link).held(),
    ensures
        final(link).held() <==> r == Ok::<bool, Error>(false),
        r == set_outcome(old(link).found(Protocol::CAT, chunk@)),
        final(link).pending() == remainder(old(link).pending() + chunk@),
        final(link).queued() == old(link).left(Protocol::CAT, chunk@),
{
    match link.reply(Protocol::CAT, chunk) {
        Ok(Some(frame)) => match read_set_answer(frame.data.as_slice()) {
            Ok(_) => Ok(true),
            Err(e) => Err(e),
        },
        Ok(None) => Ok(false),
        Err(e) => Err(e),
    }
}

/// Opens the transaction that puts the radio into file transfer mode: a
/// `SET` of `FILETRANSFER` with no value. [`set_reply`] ends it.
pub fn ftm(link: &mut Link) -> (out: Vec<u8>)
    requires
        !old(link).held(),
    ensures
        final(link).held(),
        final(link).pending() == old(link).pending(),
        final(link).queued() == old(link).queued(),
        out@ == slip::encoded(wire(request(Opcode::SET, ID::FILETRANSFER, Seq::empty()))),
{
    let value: Vec<u8> = Vec::new();
    set(link, ID::FILETRANSFER, value.as_slice())
}

/// Calls `std::str::from_utf8`, which accepts exactly the byte strings that
/// are valid UTF-8 and returns the text that they encode.
#[verifier::external_body]
fn utf8_text(bytes: &[u8]) -> (r: Option<&str>)
    ensures
        r.is_some() <==> valid_utf8(bytes@),
        r matches Some(text) ==> text@ == decode_utf8(bytes@),
{
    std::str::from_utf8(bytes).ok()
}

/// The name of the radio that a value of `INFO` holds: the value read as
/// UTF-8. A value that is no UTF-8 breaks the protocol.
pub open spec fn info_of(value: Seq<u8>) -> Result<Seq<char>, Error> {
    if valid_utf8(value) {
        Ok(decode_utf8(value))
    } else {
        Err(Error::Protocol)
    }
}

/// What a wait for the name of the radio gives, from what the link found.
pub open spec fn info_outcome(found: Result<Option<FrameView>, Error>) -> Result<
    Option<Seq<char>>,
    Error,
> {
    match get_outcome(found) {
        Ok(None) => Ok(None),
        Ok(Some(value)) => match info_of(value) {
            Ok(name) => Ok(Some(name)),
            Err(e) => Err(e),
        },
        Err(e) => Err(e),
    }
}

/// `r` is `expected`, text by its view.
pub open spec fn text_is(
    r: Result<Option<String>, Error>,
    expected: Result<Option<Seq<char>>, Error>,
) -> bool {
    match r {
        Ok(Some(s)) => expected == Ok::<Option<Seq<char>>, Error>(Some(s@)),
        Ok(None) => expected == Ok::<Option<Seq<char>>, Error>(None),
        Err(e) => expected == Err::<Option<Seq<char>>, Error>(e),
    }
}

/// Reads a value of `INFO` as the name of the radio.
pub fn read_info(value: &[u8]) -> (r: Result<String, Error>)
    ensures
        match r {
            Ok(name) => info_of(value@) == Ok::<Seq<char>, Error>(name@),
            Err(e) => info_of(value@) == Err::<Seq<char>, Error>(e),
        },
{
    match utf8_text(value) {
        Some(text) => Ok(text.to_owned()),
        None => Err(Error::Protocol),
    }
}

/// Takes in the bytes `chunk` read after a `GET` of `INFO` and returns the
/// name of the radio once the answer is there.
///
/// `Ok(None)` means that the answer has not come yet and the link stays
/// held; with the name or with an error the link is free again.
pub fn info(link: &mut Link, chunk: &[u8]) -> (r: Result<Option<String>, Error>)
    requires
        old(link).held(),
    ensures
        final(link).held() <==> r == Ok::<Option<String>, Error>(None),
        text_is(r, info_outcome(old(link).found(Protocol::CAT, chunk@))),
        final(link).pending() == remainder(old(link).pending() + chunk@),
        final(link).queued() == old(link).left(Protocol::CAT, chunk@),
{
    match get_reply(link, chunk) {
        Ok(Some(value)) => match read_info(value.as_slice()) {
            Ok(name) => Ok(Some(name)),
            Err(e) => Err(e),
        },
        Ok(None) => Ok(None),
        Err(e) => Err(e),
    }
}

/// The parameter that holds the transmit or the receive frequency.
pub open spec fn freq_id(is_tx: bool) -> ID {
    if is_tx {
        ID::FREQTX
    } else {
        ID::FREQRX
    }
}

/// The frame that asks for a frequency, or that sets it to `hz` hertz.
pub open spec fn freq_request(hz: Option<u32>, is_tx: bool) -> FrameView {
    match hz {
        None => request(Opcode::GET, freq_id(is_tx), Seq::empty()),
        Some(n) => request(Opcode::SET, freq_id(is_tx), endian::le_bytes(n)),
    }
}

/// The frequency in hertz that a value holds: its first four bytes, lowest
/// first. A shorter value breaks the protocol.
pub open spec fn freq_of(value: Seq<u8>) -> Result<u32, Error> {
    if value.len() >= 4 {
        Ok(endian::le_u32(value))
    } else {
        Err(Error::Protocol)
    }
}

/// What a wait for a frequency gives, from what the link found.
pub open spec fn freq_outcome(found: Result<Option<FrameView>, Error>) -> Result<
    Option<u32>,
    Error,
> {
    match get_outcome(found) {
        Ok(None) => Ok(None),
        Ok(Some(value)) => match freq_of(value) {
            Ok(hz) => Ok(Some(hz)),
            Err(e) => Err(e),
        },
        Err(e) => Err(e),
    }
}

/// Opens the transaction that reads or sets a frequency of the radio, the
/// transmit frequency if `is_tx` and the receive frequency if not.
///
/// Without `hz` it is a `GET`, which [`freq_reply`] ends; with `hz` it is a
/// `SET` to that many hertz, which [`set_reply`] ends.
pub fn freq(link: &mut Link, hz: Option<u32>, is_tx: bool) -> (out: Vec<u8>)
    requires
        !old(link).held(),
    ensures
        final(link).held(),
        final(link).pending() == old(link).pending(),
        final(link).queued() == old(link).queued(),
        out@ == slip::encoded(wire(freq_request(hz, is_tx))),
{
    let id: ID = if is_tx {
        ID::FREQTX
    } else {
        ID::FREQRX
    };
    match hz {
        None => get(link, id),
        Some(n) => {
            let value: Vec<u8> = endian::write_u32(n);
            set(link, id, value.as_slice())
        },
    }
}

/// Reads a value of `FREQRX` or `FREQTX` as a frequency in hertz.
pub fn read_freq(value: &[u8]) -> (r: Result<u32, Error>)
    ensures
        r == freq_of(value@),
{
    if value.len() >= 4 {
        Ok(endian::read_u32(value))
    } else {
        Err(Error::Protocol)
    }
}

/// Takes in the bytes `chunk` read after a `GET` of a frequency and returns
/// the frequency in hertz once the answer is there.
///
/// `Ok(None)` means that the answer has not come yet and the link stays
/// held; with the frequency or with an error the link is free again.
pub fn freq_reply(link: &mut Link, chunk: &[u8]) -> (r: Result<Option<u32>, Error>)
    requires
        old(link).held(),
    ensures
        final(link).held() <==> r == Ok::<Option<u32>, Error>(None),
        r == freq_outcome(old(link).found(Protocol::CAT, chunk@)),
        final(link).pending() == remainder(old(link).pending() + chunk@),
        final(link).queued() == old(link).left(Protocol::CAT, chunk@),
{
    match get_reply(link, chunk) {
        Ok(Some(value)) => match read_freq(value.as_slice()) {
            Ok(hz) => Ok(Some(hz)),
            Err(e) => Err(e),
        },
        Ok(None) => Ok(None),
        Err(e) => Err(e),
    }
}

} // verus!

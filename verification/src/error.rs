//! Status codes that the radio reports and the errors of this library.

use vstd::prelude::*;

verus! {

/// Status byte carried by acknowledgements and FMP responses.
#[derive(Clone, Copy, Debug, PartialEq, Eq, Structural)]
pub enum Errno {
    /// Success.
    OK,
    /// Argument list too long.
    E2BIG,
    /// Invalid request descriptor.
    EBADR,
    /// Invalid request code.
    EBADRQC,
    /// Generic error.
    EGENERIC,
}

/// The number that stands for `e` on the wire.
pub open spec fn errno_code(e: Errno) -> u8 {
    match e {
        Errno::OK => 0u8,
        Errno::E2BIG => 7u8,
        Errno::EBADR => 53u8,
        Errno::EBADRQC => 56u8,
        Errno::EGENERIC => 255u8,
    }
}

/// The status that a byte names, if it names one.
pub open spec fn errno_of(v: u8) -> Option<Errno> {
    if v == 0 {
        Some(Errno::OK)
    } else if v == 7 {
        Some(Errno::E2BIG)
    } else if v == 53 {
        Some(Errno::EBADR)
    } else if v == 56 {
        Some(Errno::EBADRQC)
    } else if v == 255 {
        Some(Errno::EGENERIC)
    } else {
        None
    }
}

/// The status that a byte is read as: a byte that names none is a generic
/// error.
pub open spec fn status_of(v: u8) -> Errno {
    match errno_of(v) {
        Some(e) => e,
        None => Errno::EGENERIC,
    }
}

impl Errno {
    /// The byte that carries this status.
    pub fn code(self) -> (v: u8)
        ensures
            v == errno_code(self),
            errno_of(v) == Some(self),
    {
        match self {
            Errno::OK => 0,
            Errno::E2BIG => 7,
            Errno::EBADR => 53,
            Errno::EBADRQC => 56,
            Errno::EGENERIC => 255,
        }
    }

    /// Reads a status byte strictly: a byte outside the closed set is refused.
    pub fn try_from(v: u8) -> (r: Result<Errno, ()>)
        ensures
            r.is_ok() <==> errno_of(v).is_some(),
            r.is_ok() ==> Some(r.unwrap()) == errno_of(v),
            r.is_ok() ==> errno_code(r.unwrap()) == v,
    {
        if v == 0 {
            Ok(Errno::OK)
        } else if v == 7 {
            Ok(Errno::E2BIG)
        } else if v == 53 {
            Ok(Errno::EBADR)
        } else if v == 56 {
            Ok(Errno::EBADRQC)
        } else if v == 255 {
            Ok(Errno::EGENERIC)
        } else {
            Err(())
        }
    }

    /// Reads a status byte as the channels do: an unknown number counts as
    /// `EGENERIC`.
    pub fn from_status(v: u8) -> (e: Errno)
        ensures
            e == status_of(v),
            v == 0 <==> e == Errno::OK,
    {
        match Errno::try_from(v) {
            Ok(e) => e,
            Err(_) => Errno::EGENERIC,
        }
    }

    /// The symbolic name of the status.
    pub fn name(self) -> (s: &'static str)
        ensures
            s@ == errno_name(self),
    {
        match self {
            Errno::OK => "OK",
            Errno::E2BIG => "E2BIG",
            Errno::EBADR => "EBADR",
            Errno::EBADRQC => "EBADRQC",
            Errno::EGENERIC => "EGENERIC",
        }
    }
}

/// The symbolic name of a status, as text.
pub open spec fn errno_name(e: Errno) -> Seq<char> {
    match e {
        Errno::OK => "OK"@,
        Errno::E2BIG => "E2BIG"@,
        Errno::EBADR => "EBADR"@,
        Errno::EBADRQC => "EBADRQC"@,
        Errno::EGENERIC => "EGENERIC"@,
    }
}

/// What can go wrong between the bytes of the serial line and a decoded
/// message.
#[derive(Clone, Copy, Debug, PartialEq, Eq, Structural)]
pub enum Error {
    /// An escape byte inside a SLIP packet was followed by a byte that is no
    /// escape code.
    Framing,
    /// The CRC16 over a received frame left a residue other than zero.
    Crc,
    /// A message broke the rules of its protocol: an unknown identifier or
    /// opcode, an opcode that does not answer the request, a parameter table
    /// that does not fit its frame, or a DAT block out of sequence.
    Protocol,
    /// The radio answered with a status other than `OK`.
    Peer(Errno),
    /// The length of the data differs from the size declared for the memory.
    SizeMismatch,
    /// An argument of an operation is missing or names nothing.
    Argument,
}

} // verus!

use rtxlink::error::{Errno, Error};

#[test]
fn errno_codes_are_the_documented_numbers() {
    assert_eq!(Errno::OK.code(), 0);
    assert_eq!(Errno::E2BIG.code(), 7);
    assert_eq!(Errno::EBADR.code(), 53);
    assert_eq!(Errno::EBADRQC.code(), 56);
    assert_eq!(Errno::EGENERIC.code(), 255);
}

#[test]
fn errno_try_from_reads_the_closed_set() {
    assert_eq!(Errno::try_from(0), Ok(Errno::OK));
    assert_eq!(Errno::try_from(7), Ok(Errno::E2BIG));
    assert_eq!(Errno::try_from(53), Ok(Errno::EBADR));
    assert_eq!(Errno::try_from(56), Ok(Errno::EBADRQC));
    assert_eq!(Errno::try_from(255), Ok(Errno::EGENERIC));
}

#[test]
fn errno_try_from_refuses_every_other_byte() {
    for v in 0..=255u8 {
        let known = matches!(v, 0 | 7 | 53 | 56 | 255);
        assert_eq!(Errno::try_from(v).is_ok(), known);
    }
}

#[test]
fn errno_try_from_inverts_code() {
    for e in [Errno::OK, Errno::E2BIG, Errno::EBADR, Errno::EBADRQC, Errno::EGENERIC] {
        assert_eq!(Errno::try_from(e.code()), Ok(e));
    }
}

#[test]
fn unknown_status_counts_as_generic() {
    assert_eq!(Errno::from_status(1), Errno::EGENERIC);
    assert_eq!(Errno::from_status(6), Errno::EGENERIC);
    assert_eq!(Errno::from_status(254), Errno::EGENERIC);
    assert_eq!(Errno::from_status(0), Errno::OK);
    assert_eq!(Errno::from_status(56), Errno::EBADRQC);
}

#[test]
fn errno_names_are_symbolic() {
    assert_eq!(Errno::OK.name(), "OK");
    assert_eq!(Errno::E2BIG.name(), "E2BIG");
    assert_eq!(Errno::EBADR.name(), "EBADR");
    assert_eq!(Errno::EBADRQC.name(), "EBADRQC");
    assert_eq!(Errno::EGENERIC.name(), "EGENERIC");
}

#[test]
fn errors_compare_by_kind_and_status() {
    assert_eq!(Error::Peer(Errno::EBADR), Error::Peer(Errno::EBADR));
    assert_ne!(Error::Peer(Errno::EBADR), Error::Peer(Errno::E2BIG));
    assert_ne!(Error::Crc, Error::Framing);
}

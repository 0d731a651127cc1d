use darwinia_bridge::{Proposal, RefTcHeader, TcHeaderStatus};

#[test]
fn status_defaults_to_unknown() {
    assert_eq!(TcHeaderStatus::default(), TcHeaderStatus::Unknown);
}

#[test]
fn status_encodes_as_variant_index() {
    assert_eq!(TcHeaderStatus::Confirmed.encode(), vec![0]);
    assert_eq!(TcHeaderStatus::Outdated.encode(), vec![1]);
    assert_eq!(TcHeaderStatus::Unknown.encode(), vec![2]);
    assert_eq!(TcHeaderStatus::Invalid.encode(), vec![3]);
}

#[test]
fn status_decodes_first_byte() {
    assert_eq!(TcHeaderStatus::decode(&[3, 7]), Some(TcHeaderStatus::Invalid));
    assert_eq!(TcHeaderStatus::decode(&[0]), Some(TcHeaderStatus::Confirmed));
    assert_eq!(TcHeaderStatus::decode(&[4]), None);
    assert_eq!(TcHeaderStatus::decode(&[]), None);
}

#[test]
fn ref_tc_header_default_is_empty_unused_unknown() {
    let h = RefTcHeader::default();
    assert!(h.header_thing().is_empty());
    assert_eq!(h.ref_count(), 0);
    assert_eq!(*h.status(), TcHeaderStatus::Unknown);
    assert_eq!(h.encode(), vec![0, 0, 0, 0, 0, 2]);
}

#[test]
fn ref_tc_header_encoding_is_fields_in_order() {
    let h = RefTcHeader::new(vec![1, 2, 3], 0x0102_0304, TcHeaderStatus::Invalid);
    assert_eq!(h.encode(), vec![12, 1, 2, 3, 4, 3, 2, 1, 3]);
}

#[test]
fn ref_tc_header_compact_length_modes() {
    let h = RefTcHeader::new(vec![7u8; 64], 1, TcHeaderStatus::Confirmed);
    let bytes = h.encode();
    assert_eq!(&bytes[0..2], &[0x01, 0x01]);
    assert_eq!(bytes.len(), 2 + 64 + 4 + 1);

    let h = RefTcHeader::new(vec![7u8; 16384], 1, TcHeaderStatus::Confirmed);
    let bytes = h.encode();
    assert_eq!(&bytes[0..4], &[0x02, 0x00, 0x01, 0x00]);
    assert_eq!(RefTcHeader::decode(&bytes), Some(h));
}

#[test]
fn ref_tc_header_round_trip() {
    let h = RefTcHeader::new(vec![9, 8, 7, 6], 42, TcHeaderStatus::Outdated);
    let mut bytes = h.encode();
    bytes.push(0xff);
    assert_eq!(RefTcHeader::decode(&bytes), Some(h.clone()));
    assert_eq!(h.clone(), h);
}

#[test]
fn ref_tc_header_decode_rejects_bad_input() {
    // Empty input: no length.
    assert_eq!(RefTcHeader::decode(&[]), None);
    // Length 2 but one byte.
    assert_eq!(RefTcHeader::decode(&[8, 1]), None);
    // Header and a count of three bytes only.
    assert_eq!(RefTcHeader::decode(&[4, 1, 0, 0, 0]), None);
    // Header, count, no status.
    assert_eq!(RefTcHeader::decode(&[4, 1, 0, 0, 0, 0]), None);
    // Header, count, a status byte out of range.
    assert_eq!(RefTcHeader::decode(&[4, 1, 0, 0, 0, 0, 4]), None);
    // Length zero in the two-byte mode.
    assert_eq!(RefTcHeader::decode(&[1, 0, 0, 0, 0, 0, 2]), None);
    // Well formed.
    assert_eq!(
        RefTcHeader::decode(&[4, 1, 5, 0, 0, 0, 2]),
        Some(RefTcHeader::new(vec![1], 5, TcHeaderStatus::Unknown))
    );
}

type TestProposal = Proposal<u64, u32, u128, u64, [u8; 32]>;

#[test]
fn proposal_default_is_empty() {
    let p = TestProposal::default();
    assert_eq!(*p.id(), (0, [0u8; 32]));
    assert_eq!(*p.confirm_at(), 0);
    assert!(p.nominators().is_empty());
    assert_eq!(*p.challenge_at(), None);
    assert_eq!(*p.take_over_from(), None);
}

#[test]
fn proposal_keeps_its_parts_and_clones() {
    let p = TestProposal::new(
        (3, [3u8; 32]),
        100,
        vec![(1, 10), (2, 20)],
        Some((3, [4u8; 32])),
        Some((2, [2u8; 32])),
    );
    assert_eq!(*p.id(), (3, [3u8; 32]));
    assert_eq!(*p.confirm_at(), 100);
    assert_eq!(p.nominators(), &[(1, 10), (2, 20)]);
    assert_eq!(*p.challenge_at(), Some((3, [4u8; 32])));
    assert_eq!(*p.take_over_from(), Some((2, [2u8; 32])));
    assert_eq!(p.clone(), p);
}

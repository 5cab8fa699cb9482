use midnight_ledger::hash::HashOutput;
use midnight_ledger::compact_int::{int_size, read_int, write_int, IntCodecError};
use midnight_ledger::contract_state::{
    maybe_str, ContractMaintenanceAuthority, ContractOperation, ContractOperationVersion, EntryPointBuf, MaybeStr,
    VersionDecodeError,
};
use midnight_ledger::transaction::{as_indexed, no_duplicates, transaction_hash};

fn test_compact_int(x: u64) {
    let mut bytes = Vec::new();
    write_int(&mut bytes, x).unwrap();
    let (y, n) = read_int(&bytes).unwrap();
    assert_eq!(x, y);
    assert_eq!(n, bytes.len());
}

#[test]
fn test_ints() {
    test_compact_int(0x0);
    test_compact_int(0x1);
    test_compact_int(0x42);
    test_compact_int(0x80);
    test_compact_int(0xff);
    test_compact_int(0x100);
    test_compact_int(0x1000);
    test_compact_int(0x10000);
}

#[test]
fn compact_int_encodings_and_errors() {
    let mut bytes = Vec::new();
    write_int(&mut bytes, 0x80).unwrap();
    assert_eq!(bytes, vec![0x80, 0x01]);
    assert_eq!(int_size(0x7F), 1);
    assert_eq!(int_size(0x3FFF), 2);
    assert_eq!(int_size(0x1FFFFF), 3);
    assert_eq!(int_size(0x200000), 4);
    assert_eq!(write_int(&mut bytes, 0x200000), Err(IntCodecError::TooLarge));
    assert_eq!(bytes.len(), 2);
    assert_eq!(read_int(&[]), Err(IntCodecError::UnexpectedEof));
    assert_eq!(read_int(&[0x80]), Err(IntCodecError::UnexpectedEof));
    assert_eq!(read_int(&[0x80, 0x80, 0x80]), Err(IntCodecError::ReservedRange));
    assert_eq!(read_int(&[0x05, 0xff]), Ok((5, 1)));
}

#[test]
fn entry_points_show_as_strings_or_hex() {
    match maybe_str(b"increment") {
        MaybeStr::Str(s) => assert_eq!(s, "increment"),
        MaybeStr::Bytes(_) => panic!("expected a string"),
    }
    match maybe_str(&[0x00, 0xab]) {
        MaybeStr::Bytes(b) => assert_eq!(b, &[0x00, 0xab]),
        MaybeStr::Str(_) => panic!("expected bytes"),
    }
    assert_eq!(EntryPointBuf(b"get_value".to_vec()).debug_string(), "get_value");
    assert_eq!(EntryPointBuf(vec![0x00, 0xab, 0x10]).debug_string(), "00ab10");
    // '%' is among the permitted characters; '!' is not.
    assert_eq!(EntryPointBuf(b"50%".to_vec()).debug_string(), "50%");
    assert_eq!(EntryPointBuf(b"a!".to_vec()).debug_string(), "6121");
}

#[test]
fn contract_operation_versions() {
    let mut bytes = Vec::new();
    ContractOperationVersion::V3.serialize(&mut bytes);
    assert_eq!(bytes, vec![2]);
    assert_eq!(ContractOperationVersion::deserialize(&bytes), Ok(ContractOperationVersion::V3));
    assert_eq!(ContractOperationVersion::deserialize(&[1]), Err(VersionDecodeError::InvalidOldDiscriminant(1)));
    assert_eq!(ContractOperationVersion::deserialize(&[7]), Err(VersionDecodeError::UnknownDiscriminant(7)));
    let mut op = ContractOperation::new(None);
    assert!(!ContractOperationVersion::V3.has(&op));
    midnight_ledger::contract_state::ContractOperationVersionedVerifierKey::V3(
        midnight_ledger::contract_state::VerifierKey(vec![1, 2, 3]),
    )
    .insert_into(&mut op);
    assert!(ContractOperationVersion::V3.has(&op));
    ContractOperationVersion::V3.rm_from(&mut op);
    assert!(op.latest().is_none());
    let auth = ContractMaintenanceAuthority::new();
    assert_eq!((auth.committee.len(), auth.threshold, auth.counter), (0, 1, 0));
}

#[test]
fn sha256_transaction_hash() {
    let h = transaction_hash(b"abc");
    assert_eq!(
        h.0 .0,
        [
            0xba, 0x78, 0x16, 0xbf, 0x8f, 0x01, 0xcf, 0xea, 0x41, 0x41, 0x40, 0xde, 0x5d, 0xae, 0x22, 0x23, 0xb0, 0x03,
            0x61, 0xa3, 0x96, 0x17, 0x7a, 0x9c, 0xb4, 0x10, 0xff, 0x61, 0xf2, 0x00, 0x15, 0xad
        ]
    );
}

#[test]
fn duplicates_and_indexing() {
    assert!(no_duplicates(&vec![HashOutput([1; 32]), HashOutput([2; 32])]));
    assert!(!no_duplicates(&vec![HashOutput([1; 32]), HashOutput([2; 32]), HashOutput([1; 32])]));
    assert_eq!(as_indexed(&vec![10u8, 20, 30]), vec![(0, 10), (1, 20), (2, 30)]);
}

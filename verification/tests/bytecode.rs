use evm_diff::bytecode::{same_bytes, Bytecode, Eip7702Bytecode, LegacyAnalyzedBytecode};
use evm_diff::primitives::Address;

fn analyzed(code: &[u8]) -> LegacyAnalyzedBytecode {
    let mut padded = code.to_vec();
    padded.push(0x00);
    LegacyAnalyzedBytecode::new(padded, code.len(), vec![0u8; (code.len() + 7) / 8]).unwrap()
}

#[test]
fn raw_and_analyzed_have_the_same_canonical_bytes() {
    let raw = Bytecode::LegacyRaw(vec![0x60, 0x00]);
    let wrapped = Bytecode::LegacyAnalyzed(analyzed(&[0x60, 0x00]));
    assert_eq!(raw.original_bytes(), vec![0x60, 0x00]);
    assert_eq!(wrapped.original_bytes(), vec![0x60, 0x00]);
    assert_eq!(raw.original_bytes(), wrapped.original_bytes());
}

#[test]
fn canonical_bytes_are_idempotent() {
    let designator = {
        let mut raw = vec![0xef, 0x01, 0x00];
        raw.extend_from_slice(&[0x11; 20]);
        Bytecode::Eip7702(Eip7702Bytecode {
            delegated_address: Address::repeat_byte(0x11),
            version: 0,
            raw,
        })
    };
    for code in [
        Bytecode::LegacyRaw(vec![1, 2, 3]),
        Bytecode::LegacyAnalyzed(analyzed(&[0x5b, 0x60, 0x01])),
        designator,
    ] {
        let once = code.original_bytes();
        let twice = Bytecode::LegacyRaw(once.clone()).original_bytes();
        assert_eq!(once, twice);
        assert_eq!(code.original_bytes(), once);
    }
}

#[test]
fn designator_keeps_its_raw_bytes() {
    let mut raw = vec![0xef, 0x01, 0x00];
    raw.extend_from_slice(&[0x22; 20]);
    let code = Eip7702Bytecode { delegated_address: Address::repeat_byte(0x22), version: 0, raw: raw.clone() };
    assert_eq!(code.raw(), &raw);
    assert_eq!(Bytecode::Eip7702(code).original_bytes(), raw);
}

#[test]
fn analyzed_strips_its_padding() {
    let code = LegacyAnalyzedBytecode::new(vec![0x60, 0x01, 0x00, 0x00, 0x00], 2, vec![0x00]).unwrap();
    assert_eq!(code.original_bytes(), vec![0x60, 0x01]);
    assert_eq!(code.original_len(), 2);
    assert_eq!(code.bytecode(), &vec![0x60, 0x01, 0x00, 0x00, 0x00]);
    assert_eq!(code.jump_table(), &vec![0x00]);
}

#[test]
fn analyzed_rejects_a_length_beyond_the_code() {
    assert!(LegacyAnalyzedBytecode::new(vec![0x00], 2, vec![]).is_none());
    assert!(LegacyAnalyzedBytecode::new(vec![0x00], 1, vec![]).is_some());
    assert!(LegacyAnalyzedBytecode::new(vec![], 0, vec![]).is_some());
}

#[test]
fn emptiness_goes_by_canonical_bytes() {
    assert!(Bytecode::LegacyRaw(vec![]).is_empty());
    assert!(!Bytecode::LegacyRaw(vec![0]).is_empty());
    let stop_only = LegacyAnalyzedBytecode::new(vec![0x00], 0, vec![]).unwrap();
    assert!(Bytecode::LegacyAnalyzed(stop_only).is_empty());
    assert!(!Bytecode::LegacyAnalyzed(analyzed(&[0x60, 0x00])).is_empty());
}

#[test]
fn clones_keep_the_canonical_bytes() {
    let code = Bytecode::LegacyAnalyzed(analyzed(&[0x60, 0x00]));
    assert_eq!(code.clone(), code);
    assert_eq!(code.clone().original_bytes(), vec![0x60, 0x00]);
}

#[test]
fn byte_string_helpers() {
    assert!(same_bytes(&vec![1, 2], &vec![1, 2]));
    assert!(!same_bytes(&vec![1, 2], &vec![1, 3]));
    assert!(!same_bytes(&vec![1, 2], &vec![1]));
    assert!(same_bytes(&vec![], &vec![]));
}

use evm_diff::diff::{Divergence, Note};
use evm_diff::extract::QueryFault;
use evm_diff::primitives::{keccak_empty, Address, B256, U256};
use evm_diff::render::{hex_digit_str, push_decimal, push_hex, push_number, push_slots};
use evm_diff::report::Report;
use evm_diff::storage::StorageMap;
use evm_diff::types::DbAccountInfo;

fn zeros(n: usize) -> String {
    "0".repeat(n)
}

#[test]
fn hex_digits() {
    let all: String = (0u8..16).map(hex_digit_str).collect();
    assert_eq!(all, "0123456789abcdef");
    assert_eq!(hex_digit_str(16), "");
    assert_eq!(hex_digit_str(255), "");
}

#[test]
fn hex_of_bytes() {
    let mut out = String::from(">");
    push_hex(&mut out, &[0x00, 0x0f, 0xa0, 0xff]);
    assert_eq!(out, ">000fa0ff");
    push_hex(&mut out, &[]);
    assert_eq!(out, ">000fa0ff");
}

#[test]
fn decimal_numbers() {
    for (n, text) in [
        (0u64, "0"),
        (7, "7"),
        (10, "10"),
        (99, "99"),
        (100, "100"),
        (1234567890, "1234567890"),
        (u64::MAX, "18446744073709551615"),
    ] {
        let mut out = String::new();
        push_decimal(&mut out, n);
        assert_eq!(out, text);
    }
}

#[test]
fn numbers_have_all_their_digits() {
    let mut out = String::new();
    push_number(&mut out, &U256::from_u64(100));
    assert_eq!(out, format!("{}64", zeros(62)));
}

#[test]
fn slots_are_listed_in_key_order() {
    let mut map = StorageMap::new();
    map.insert(B256::from_u256(U256::from_u64(2)), U256::from_u64(5));
    map.insert(B256::from_u256(U256::from_u64(1)), U256::from_u64(7));
    let mut out = String::new();
    push_slots(&mut out, &map);
    let z = zeros(63);
    assert_eq!(out, format!(" 0x{z}1=0x{z}7 0x{z}2=0x{z}5"));
    let mut out = String::new();
    push_slots(&mut out, &StorageMap::new());
    assert_eq!(out, "");
}

#[test]
fn balance_line() {
    let line = Divergence::Balance {
        address: Address::repeat_byte(0xaa),
        expected: U256::from_u64(100),
        actual: U256::from_u64(99),
        block_number: 77,
    }
    .describe();
    assert_eq!(
        line,
        format!(
            "balance mismatch at 0x{} (block 77): expected 0x{}64, actual 0x{}63",
            "aa".repeat(20),
            zeros(62),
            zeros(62)
        )
    );
}

#[test]
fn nonce_and_code_hash_lines() {
    let address = Address::repeat_byte(0x01);
    let line = Divergence::Nonce { address, expected: 1, actual: 20, block_number: 5 }.describe();
    assert_eq!(line, format!("nonce mismatch at 0x{} (block 5): expected 1, actual 20", "01".repeat(20)));
    let line = Divergence::CodeHash {
        address,
        expected: B256::repeat_byte(0x0b),
        actual: B256::zero(),
        block_number: 5,
    }
    .describe();
    assert_eq!(
        line,
        format!(
            "code hash mismatch at 0x{} (block 5): expected 0x{}, actual 0x{}",
            "01".repeat(20),
            "0b".repeat(32),
            zeros(64)
        )
    );
}

#[test]
fn storage_line() {
    let mut expected = StorageMap::new();
    expected.insert(B256::from_u256(U256::from_u64(1)), U256::from_u64(7));
    let line = Divergence::Storage {
        address: Address::repeat_byte(0xaa),
        expected,
        actual: StorageMap::new(),
        block_number: 1,
    }
    .describe();
    let z = zeros(63);
    assert_eq!(
        line,
        format!(
            "storage mismatch at 0x{} (block 1): expected {{ 0x{z}1=0x{z}7 }}, actual {{ }}",
            "aa".repeat(20)
        )
    );
}

#[test]
fn absent_account_line() {
    let info = DbAccountInfo { balance: U256::from_u64(1), nonce: 2, code_hash: B256::repeat_byte(3) };
    let line = Divergence::AbsentAccount {
        address: Address::repeat_byte(0xaa),
        info,
        storage_len: 4,
        block_number: 9,
    }
    .describe();
    assert_eq!(
        line,
        format!(
            "account absent from the store at 0x{} (block 9): snapshot holds balance 0x{}1, nonce 2, code hash 0x{}, storage pairs 4",
            "aa".repeat(20),
            zeros(63),
            "03".repeat(32)
        )
    );
}

#[test]
fn code_lines() {
    let code_hash = B256::repeat_byte(0x05);
    let h = "05".repeat(32);
    assert_eq!(
        Divergence::Bytecode { code_hash, expected: vec![0x60, 0x00], actual: vec![0x60, 0x01], block_number: 3 }
            .describe(),
        format!("bytecode mismatch for 0x{h} (block 3): expected 0x6000, actual 0x6001")
    );
    assert_eq!(
        Divergence::EmptyCode { actual: vec![0xfe], block_number: 3 }.describe(),
        "code under the hash of no code (block 3): actual 0xfe"
    );
    assert_eq!(
        Divergence::MissingBytecode { code_hash, block_number: 3 }.describe(),
        format!("code not found: 0x{h} (block 3): the store holds none")
    );
}

#[test]
fn note_lines() {
    let note = Note::AccountFault {
        address: Address::repeat_byte(0xaa),
        fault: QueryFault { message: "disk".to_string() },
    };
    assert_eq!(note.describe(), format!("account lookup failed at 0x{}: disk", "aa".repeat(20)));
    let note = Note::ZeroHashAbsent { code: vec![0x01, 0x02] };
    assert_eq!(
        note.describe(),
        "no code in the store under the all-zero hash; snapshot holds 0x0102"
    );
}

#[test]
fn report_lists_notes_then_divergences() {
    let mut report = Report::new();
    assert!(report.render().is_empty());
    report.record(
        vec![
            Divergence::MissingBytecode { code_hash: keccak_empty(), block_number: 1 },
            Divergence::EmptyCode { actual: vec![1], block_number: 1 },
        ],
        vec![Note::ZeroHashAbsent { code: vec![] }],
    );
    let lines = report.render();
    assert_eq!(lines.len(), 3);
    assert_eq!(lines[0], report.notes[0].describe());
    assert_eq!(lines[1], report.divergences[0].describe());
    assert_eq!(lines[2], "code under the hash of no code (block 1): actual 0x01");
}

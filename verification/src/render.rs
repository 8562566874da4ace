//! The text of a report: one line per divergence and per note.

use crate::diff::{Divergence, Note};
use crate::primitives::{Address, B256, U256};
use crate::report::Report;
use crate::storage::StorageMap;
use vstd::prelude::*;
use vstd::string::StringExecFns;

verus! {

/// The character of a hexadecimal digit; nothing for a number above 15.
pub open spec fn hex_digit(n: int) -> Seq<char> {
    if n == 0 {
        "0"@
    } else if n == 1 {
        "1"@
    } else if n == 2 {
        "2"@
    } else if n == 3 {
        "3"@
    } else if n == 4 {
        "4"@
    } else if n == 5 {
        "5"@
    } else if n == 6 {
        "6"@
    } else if n == 7 {
        "7"@
    } else if n == 8 {
        "8"@
    } else if n == 9 {
        "9"@
    } else if n == 10 {
        "a"@
    } else if n == 11 {
        "b"@
    } else if n == 12 {
        "c"@
    } else if n == 13 {
        "d"@
    } else if n == 14 {
        "e"@
    } else if n == 15 {
        "f"@
    } else {
        Seq::empty()
    }
}

/// A byte string in hexadecimal: two lower-case digits per byte, in the
/// order of the bytes.
pub open spec fn hex_of(bytes: Seq<u8>) -> Seq<char>
    decreases bytes.len(),
{
    if bytes.len() == 0 {
        Seq::empty()
    } else {
        hex_of(bytes.drop_last()) + hex_digit(bytes.last() as int / 16) + hex_digit(
            bytes.last() as int % 16,
        )
    }
}

/// A number in decimal, without leading zeros.
pub open spec fn decimal_of(n: nat) -> Seq<char>
    decreases n,
{
    if n < 10 {
        hex_digit(n as int)
    } else {
        decimal_of(n / 10) + hex_digit((n % 10) as int)
    }
}

/// The character of a hexadecimal digit, as a string; the empty string for
/// a number above 15.
pub fn hex_digit_str(n: u8) -> (r: &'static str)
    ensures
        r@ == hex_digit(n as int),
{
    if n == 0 {
        "0"
    } else if n == 1 {
        "1"
    } else if n == 2 {
        "2"
    } else if n == 3 {
        "3"
    } else if n == 4 {
        "4"
    } else if n == 5 {
        "5"
    } else if n == 6 {
        "6"
    } else if n == 7 {
        "7"
    } else if n == 8 {
        "8"
    } else if n == 9 {
        "9"
    } else if n == 10 {
        "a"
    } else if n == 11 {
        "b"
    } else if n == 12 {
        "c"
    } else if n == 13 {
        "d"
    } else if n == 14 {
        "e"
    } else if n == 15 {
        "f"
    } else {
        proof {
            reveal_strlit("");
            assert(""@ =~= Seq::<char>::empty());
        }
        ""
    }
}

/// Appends a byte string in hexadecimal to `out`.
pub fn push_hex(out: &mut String, bytes: &[u8])
    ensures
        final(out)@ == old(out)@ + hex_of(bytes@),
{
    let mut i: usize = 0;
    assert(bytes@.take(0) =~= Seq::<u8>::empty());
    assert(out@ =~= old(out)@ + hex_of(bytes@.take(0)));
    while i < bytes.len()
        invariant
            i <= bytes@.len(),
            out@ == old(out)@ + hex_of(bytes@.take(i as int)),
        decreases bytes@.len() - i,
    {
        let byte = bytes[i];
        out.append(hex_digit_str(byte / 16));
        out.append(hex_digit_str(byte % 16));
        proof {
            let longer = bytes@.take(i + 1);
            assert(longer.drop_last() =~= bytes@.take(i as int));
            assert(longer.last() == byte);
            assert(out@ =~= old(out)@ + hex_of(longer));
        }
        i += 1;
    }
    proof {
        assert(bytes@.take(bytes@.len() as int) =~= bytes@);
    }
}

/// Appends a number in decimal to `out`.
pub fn push_decimal(out: &mut String, n: u64)
    ensures
        final(out)@ == old(out)@ + decimal_of(n as nat),
    decreases n,
{
    if n < 10 {
        let digit: u8 = n as u8;
        out.append(hex_digit_str(digit));
    } else {
        push_decimal(out, n / 10);
        let digit: u8 = (n % 10) as u8;
        out.append(hex_digit_str(digit));
        proof {
            assert(out@ =~= old(out)@ + decimal_of(n as nat));
        }
    }
}

/// The slots of a storage map as text: for each entry a blank, the key and
/// the value in hexadecimal with `=` between them, in the order of the
/// entries.
pub open spec fn slots_text(entries: Seq<(B256, U256)>) -> Seq<char>
    decreases entries.len(),
{
    if entries.len() == 0 {
        Seq::empty()
    } else {
        slots_text(entries.drop_last()) + " 0x"@ + hex_of(entries.last().0@) + "=0x"@ + hex_of(
            entries.last().1.be_bytes(),
        )
    }
}

/// Appends a 256-bit number in hexadecimal, with all its 64 digits.
pub fn push_number(out: &mut String, value: &U256)
    ensures
        final(out)@ == old(out)@ + hex_of(value.be_bytes()),
{
    let word = B256::from_u256(*value);
    push_hex(out, word.bytes.as_slice());
}

/// Appends the slots of a storage map as text.
pub fn push_slots(out: &mut String, map: &StorageMap)
    ensures
        final(out)@ == old(out)@ + slots_text(map.entries_spec()),
{
    let len = map.len();
    let mut i: usize = 0;
    assert(map.entries_spec().take(0) =~= Seq::<(B256, U256)>::empty());
    assert(out@ =~= old(out)@ + slots_text(map.entries_spec().take(0)));
    while i < len
        invariant
            i <= len == map.entries_spec().len(),
            out@ == old(out)@ + slots_text(map.entries_spec().take(i as int)),
        decreases len - i,
    {
        match map.entry(i) {
            Some((key, value)) => {
                out.append(" 0x");
                push_hex(out, key.bytes.as_slice());
                out.append("=0x");
                push_number(out, &value);
                proof {
                    let longer = map.entries_spec().take(i + 1);
                    assert(longer.drop_last() =~= map.entries_spec().take(i as int));
                    assert(longer.last() == (key, value));
                    assert(out@ =~= old(out)@ + slots_text(longer));
                }
            },
            None => {},
        }
        i += 1;
    }
    proof {
        assert(map.entries_spec().take(len as int) =~= map.entries_spec());
    }
}

/// The words that follow the kind of a divergence about an account: the
/// address and the block.
pub open spec fn place_text(address: Address, block_number: u64) -> Seq<char> {
    " at 0x"@ + hex_of(address@) + " (block "@ + decimal_of(block_number as nat) + "): "@
}

/// Appends the address and the block of a divergence about an account.
fn push_place(out: &mut String, address: &Address, block_number: u64)
    ensures
        final(out)@ == old(out)@ + place_text(*address, block_number),
{
    out.append(" at 0x");
    push_hex(out, address.bytes.as_slice());
    out.append(" (block ");
    push_decimal(out, block_number);
    out.append("): ");
    proof {
        assert(out@ =~= old(out)@ + place_text(*address, block_number));
    }
}

/// The words that follow the kind of a divergence about a contract code:
/// the block.
pub open spec fn block_text(block_number: u64) -> Seq<char> {
    " (block "@ + decimal_of(block_number as nat) + "): "@
}

/// Appends the block of a divergence about a contract code.
fn push_block(out: &mut String, block_number: u64)
    ensures
        final(out)@ == old(out)@ + block_text(block_number),
{
    out.append(" (block ");
    push_decimal(out, block_number);
    out.append("): ");
    proof {
        assert(out@ =~= old(out)@ + block_text(block_number));
    }
}

impl Divergence {
    /// The line of text that tells of the divergence: its kind, the address
    /// or hash and the block, then what the snapshot holds and what the
    /// store holds.
    pub open spec fn description(&self) -> Seq<char> {
        match self {
            Divergence::Balance { address, expected, actual, block_number } => {
                "balance mismatch"@ + place_text(*address, *block_number) + "expected 0x"@ + hex_of(
                    expected.be_bytes(),
                ) + ", actual 0x"@ + hex_of(actual.be_bytes())
            },
            Divergence::Nonce { address, expected, actual, block_number } => {
                "nonce mismatch"@ + place_text(*address, *block_number) + "expected "@ + decimal_of(
                    *expected as nat,
                ) + ", actual "@ + decimal_of(*actual as nat)
            },
            Divergence::CodeHash { address, expected, actual, block_number } => {
                "code hash mismatch"@ + place_text(*address, *block_number) + "expected 0x"@
                    + hex_of(expected@) + ", actual 0x"@ + hex_of(actual@)
            },
            Divergence::Storage { address, expected, actual, block_number } => {
                "storage mismatch"@ + place_text(*address, *block_number) + "expected {"@
                    + slots_text(expected.entries_spec()) + " }, actual {"@ + slots_text(
                    actual.entries_spec(),
                ) + " }"@
            },
            Divergence::AbsentAccount { address, info, storage_len, block_number } => {
                "account absent from the store"@ + place_text(*address, *block_number)
                    + "snapshot holds balance 0x"@ + hex_of(info.balance.be_bytes()) + ", nonce "@
                    + decimal_of(info.nonce as nat) + ", code hash 0x"@ + hex_of(info.code_hash@)
                    + ", storage pairs "@ + decimal_of(*storage_len as nat)
            },
            Divergence::Bytecode { code_hash, expected, actual, block_number } => {
                "bytecode mismatch for 0x"@ + hex_of(code_hash@) + block_text(*block_number)
                    + "expected 0x"@ + hex_of(expected@) + ", actual 0x"@ + hex_of(actual@)
            },
            Divergence::EmptyCode { actual, block_number } => {
                "code under the hash of no code"@ + block_text(*block_number) + "actual 0x"@
                    + hex_of(actual@)
            },
            Divergence::MissingBytecode { code_hash, block_number } => {
                "code not found: 0x"@ + hex_of(code_hash@) + block_text(*block_number)
                    + "the store holds none"@
            },
        }
    }

    /// The line of text that tells of the divergence.
    pub fn describe(&self) -> (r: String)
        ensures
            r@ == self.description(),
    {
        let mut out = String::new();
        match self {
            Divergence::Balance { address, expected, actual, block_number } => {
                out.append("balance mismatch");
                push_place(&mut out, address, *block_number);
                out.append("expected 0x");
                push_number(&mut out, expected);
                out.append(", actual 0x");
                push_number(&mut out, actual);
            },
            Divergence::Nonce { address, expected, actual, block_number } => {
                out.append("nonce mismatch");
                push_place(&mut out, address, *block_number);
                out.append("expected ");
                push_decimal(&mut out, *expected);
                out.append(", actual ");
                push_decimal(&mut out, *actual);
            },
            Divergence::CodeHash { address, expected, actual, block_number } => {
                out.append("code hash mismatch");
                push_place(&mut out, address, *block_number);
                out.append("expected 0x");
                push_hex(&mut out, expected.bytes.as_slice());
                out.append(", actual 0x");
                push_hex(&mut out, actual.bytes.as_slice());
            },
            Divergence::Storage { address, expected, actual, block_number } => {
                out.append("storage mismatch");
                push_place(&mut out, address, *block_number);
                out.append("expected {");
                push_slots(&mut out, expected);
                out.append(" }, actual {");
                push_slots(&mut out, actual);
                out.append(" }");
            },
            Divergence::AbsentAccount { address, info, storage_len, block_number } => {
                out.append("account absent from the store");
                push_place(&mut out, address, *block_number);
                out.append("snapshot holds balance 0x");
                push_number(&mut out, &info.balance);
                out.append(", nonce ");
                push_decimal(&mut out, info.nonce);
                out.append(", code hash 0x");
                push_hex(&mut out, info.code_hash.bytes.as_slice());
                out.append(", storage pairs ");
                push_decimal(&mut out, *storage_len as u64);
            },
            Divergence::Bytecode { code_hash, expected, actual, block_number } => {
                out.append("bytecode mismatch for 0x");
                push_hex(&mut out, code_hash.bytes.as_slice());
                push_block(&mut out, *block_number);
                out.append("expected 0x");
                push_hex(&mut out, expected.as_slice());
                out.append(", actual 0x");
                push_hex(&mut out, actual.as_slice());
            },
            Divergence::EmptyCode { actual, block_number } => {
                out.append("code under the hash of no code");
                push_block(&mut out, *block_number);
                out.append("actual 0x");
                push_hex(&mut out, actual.as_slice());
            },
            Divergence::MissingBytecode { code_hash, block_number } => {
                out.append("code not found: 0x");
                push_hex(&mut out, code_hash.bytes.as_slice());
                push_block(&mut out, *block_number);
                out.append("the store holds none");
            },
        }
        proof {
            assert(out@ =~= self.description());
        }
        out
    }
}

impl Note {
    /// The line of text that tells of the note.
    pub open spec fn description(&self) -> Seq<char> {
        match self {
            Note::AccountFault { address, fault } => {
                "account lookup failed at 0x"@ + hex_of(address@) + ": "@ + fault.message@
            },
            Note::ZeroHashAbsent { code } => {
                "no code in the store under the all-zero hash; snapshot holds 0x"@ + hex_of(code@)
            },
        }
    }

    /// The line of text that tells of the note.
    pub fn describe(&self) -> (r: String)
        ensures
            r@ == self.description(),
    {
        let mut out = String::new();
        match self {
            Note::AccountFault { address, fault } => {
                out.append("account lookup failed at 0x");
                push_hex(&mut out, address.bytes.as_slice());
                out.append(": ");
                out.append(fault.message.as_str());
            },
            Note::ZeroHashAbsent { code } => {
                out.append("no code in the store under the all-zero hash; snapshot holds 0x");
                push_hex(&mut out, code.as_slice());
            },
        }
        proof {
            assert(out@ =~= self.description());
        }
        out
    }
}

impl Report {
    /// The text of the report: a line for each note, then a line for each
    /// divergence, each in the order of the report.
    pub fn render(&self) -> (r: Vec<String>)
        ensures
            r@.len() == self.notes@.len() + self.divergences@.len(),
            forall|i: int|
                0 <= i < self.notes@.len() ==> (#[trigger] r@[i])@ == self.notes@[i].description(),
            forall|i: int|
                0 <= i < self.divergences@.len() ==> (#[trigger] r@[self.notes@.len() + i])@
                    == self.divergences@[i].description(),
    {
        let mut lines: Vec<String> = Vec::new();
        let mut i: usize = 0;
        while i < self.notes.len()
            invariant
                i <= self.notes@.len(),
                lines@.len() == i,
                forall|k: int| 0 <= k < i ==> (#[trigger] lines@[k])@ == self.notes@[k].description(),
            decreases self.notes@.len() - i,
        {
            lines.push(self.notes[i].describe());
            i += 1;
        }
        let mut j: usize = 0;
        while j < self.divergences.len()
            invariant
                j <= self.divergences@.len(),
                lines@.len() == self.notes@.len() + j,
                forall|k: int|
                    0 <= k < self.notes@.len() ==> (#[trigger] lines@[k])@
                        == self.notes@[k].description(),
                forall|k: int|
                    0 <= k < j ==> (#[trigger] lines@[self.notes@.len() + k])@
                        == self.divergences@[k].description(),
            decreases self.divergences@.len() - j,
        {
            lines.push(self.divergences[j].describe());
            j += 1;
        }
        lines
    }
}

} // verus!

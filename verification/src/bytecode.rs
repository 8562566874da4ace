//! Contract bytecode in the forms a snapshot or a state store may hold it
//! in, and the canonical byte string that they all reduce to.

use crate::primitives::Address;
use vstd::prelude::*;

verus! {

/// Whether two byte strings hold the same bytes.
pub fn same_bytes(a: &Vec<u8>, b: &Vec<u8>) -> (r: bool)
    ensures
        r == (a@ == b@),
{
    if a.len() != b.len() {
        return false;
    }
    let mut i: usize = 0;
    while i < a.len()
        invariant
            i <= a@.len(),
            a@.len() == b@.len(),
            forall|j: int| 0 <= j < i ==> a@[j] == b@[j],
        decreases a@.len() - i,
    {
        if a[i] != b[i] {
            return false;
        }
        i += 1;
    }
    assert(a@ =~= b@);
    true
}

/// A copy of the first `len` bytes of `bytes`.
fn copy_prefix(bytes: &Vec<u8>, len: usize) -> (r: Vec<u8>)
    requires
        len <= bytes@.len(),
    ensures
        r@ == bytes@.take(len as int),
{
    let mut out: Vec<u8> = Vec::new();
    let mut i: usize = 0;
    while i < len
        invariant
            i <= len <= bytes@.len(),
            out@ == bytes@.take(i as int),
        decreases len - i,
    {
        out.push(bytes[i]);
        proof {
            assert(out@ =~= bytes@.take(i + 1));
        }
        i += 1;
    }
    out
}

/// A delegation designator: the code of an account that delegates to the
/// code of another address.
#[derive(Debug, PartialEq, Eq)]
pub struct Eip7702Bytecode {
    /// The address delegated to.
    pub delegated_address: Address,
    /// The version of the designator.
    pub version: u8,
    /// The designator as it is stored.
    pub raw: Vec<u8>,
}

impl Eip7702Bytecode {
    /// The designator as it is stored.
    pub fn raw(&self) -> (r: &Vec<u8>)
        ensures
            r@ == self.raw@,
    {
        &self.raw
    }
}

impl Clone for Eip7702Bytecode {
    fn clone(&self) -> (r: Eip7702Bytecode)
        ensures
            r.delegated_address == self.delegated_address,
            r.version == self.version,
            r.raw@ == self.raw@,
    {
        Eip7702Bytecode {
            delegated_address: self.delegated_address,
            version: self.version,
            raw: copy_prefix(&self.raw, self.raw.len()),
        }
    }
}

/// Legacy bytecode after jump-destination analysis: the code, padded at the
/// end, the length it had before padding, and the table of valid jump
/// destinations. The original length never exceeds the padded length.
#[derive(Debug, PartialEq, Eq)]
pub struct LegacyAnalyzedBytecode {
    bytecode: Vec<u8>,
    original_len: usize,
    jump_table: Vec<u8>,
}

impl LegacyAnalyzedBytecode {
    #[verifier::type_invariant]
    spec fn within_padding(&self) -> bool {
        self.original_len <= self.bytecode@.len()
    }

    /// The padded code.
    pub closed spec fn padded(&self) -> Seq<u8> {
        self.bytecode@
    }

    /// The length of the code before padding.
    pub closed spec fn original_len_spec(&self) -> nat {
        self.original_len as nat
    }

    /// The table of valid jump destinations, as packed bits.
    pub closed spec fn jump_table_spec(&self) -> Seq<u8> {
        self.jump_table@
    }

    /// The code as it was before analysis: the padded code without its
    /// padding.
    pub open spec fn original(&self) -> Seq<u8> {
        self.padded().take(self.original_len_spec() as int)
    }

    /// Analyzed bytecode from its parts, or `None` where the original length
    /// exceeds the length of the padded code.
    pub fn new(bytecode: Vec<u8>, original_len: usize, jump_table: Vec<u8>) -> (r: Option<
        LegacyAnalyzedBytecode,
    >)
        ensures
            r.is_some() == (original_len <= bytecode@.len()),
            r matches Some(b) ==> b.padded() == bytecode@ && b.original_len_spec() == original_len
                && b.jump_table_spec() == jump_table@,
    {
        if original_len <= bytecode.len() {
            Some(LegacyAnalyzedBytecode { bytecode, original_len, jump_table })
        } else {
            None
        }
    }

    /// The padded code.
    pub fn bytecode(&self) -> (r: &Vec<u8>)
        ensures
            r@ == self.padded(),
    {
        &self.bytecode
    }

    /// The length of the code before padding.
    pub fn original_len(&self) -> (r: usize)
        ensures
            r == self.original_len_spec(),
            r <= self.padded().len(),
    {
        proof {
            use_type_invariant(self);
        }
        self.original_len
    }

    /// The table of valid jump destinations, as packed bits.
    pub fn jump_table(&self) -> (r: &Vec<u8>)
        ensures
            r@ == self.jump_table_spec(),
    {
        &self.jump_table
    }

    /// The code as it was before analysis.
    pub fn original_bytes(&self) -> (r: Vec<u8>)
        ensures
            r@ == self.original(),
    {
        proof {
            use_type_invariant(self);
        }
        copy_prefix(&self.bytecode, self.original_len)
    }
}

impl Clone for LegacyAnalyzedBytecode {
    fn clone(&self) -> (r: LegacyAnalyzedBytecode)
        ensures
            r.padded() == self.padded(),
            r.original_len_spec() == self.original_len_spec(),
            r.jump_table_spec() == self.jump_table_spec(),
    {
        proof {
            use_type_invariant(self);
        }
        LegacyAnalyzedBytecode {
            bytecode: copy_prefix(&self.bytecode, self.bytecode.len()),
            original_len: self.original_len,
            jump_table: copy_prefix(&self.jump_table, self.jump_table.len()),
        }
    }
}

/// Contract bytecode, in one of the forms it is stored in.
#[derive(Debug, PartialEq, Eq)]
pub enum Bytecode {
    /// A delegation designator.
    Eip7702(Eip7702Bytecode),
    /// Legacy bytecode that has been analyzed for valid jump destinations.
    LegacyAnalyzed(LegacyAnalyzedBytecode),
    /// Legacy bytecode as plain bytes.
    LegacyRaw(Vec<u8>),
}

impl Bytecode {
    /// The canonical bytes of the code: the bytes it had when it was
    /// deployed, whatever form it is held in.
    pub open spec fn canonical(&self) -> Seq<u8> {
        match self {
            Bytecode::Eip7702(code) => code.raw@,
            Bytecode::LegacyAnalyzed(code) => code.original(),
            Bytecode::LegacyRaw(bytes) => bytes@,
        }
    }

    /// The canonical bytes of the code.
    pub fn original_bytes(&self) -> (r: Vec<u8>)
        ensures
            r@ == self.canonical(),
    {
        match self {
            Bytecode::Eip7702(code) => copy_prefix(code.raw(), code.raw().len()),
            Bytecode::LegacyAnalyzed(code) => code.original_bytes(),
            Bytecode::LegacyRaw(bytes) => copy_prefix(bytes, bytes.len()),
        }
    }

    /// Whether the code has no canonical bytes.
    pub fn is_empty(&self) -> (r: bool)
        ensures
            r == (self.canonical().len() == 0),
    {
        match self {
            Bytecode::Eip7702(code) => code.raw().len() == 0,
            Bytecode::LegacyAnalyzed(code) => code.original_len() == 0,
            Bytecode::LegacyRaw(bytes) => bytes.len() == 0,
        }
    }
}

impl Clone for Bytecode {
    fn clone(&self) -> (r: Bytecode)
        ensures
            r.canonical() == self.canonical(),
    {
        match self {
            Bytecode::Eip7702(code) => Bytecode::Eip7702(code.clone()),
            Bytecode::LegacyAnalyzed(code) => Bytecode::LegacyAnalyzed(code.clone()),
            Bytecode::LegacyRaw(bytes) => Bytecode::LegacyRaw(copy_prefix(bytes, bytes.len())),
        }
    }
}

/// Taking the canonical bytes is idempotent: code held as the plain bytes
/// that `canonical` gave has those same canonical bytes.
pub proof fn lemma_canonical_idempotent(code: Bytecode, bytes: Vec<u8>)
    requires
        bytes@ == code.canonical(),
    ensures
        Bytecode::LegacyRaw(bytes).canonical() == code.canonical(),
{
}

/// The canonical bytes do not depend on the form: analyzed code whose
/// padded code begins with `raw`, and whose original length is the length
/// of `raw`, has the canonical bytes of `raw` held as plain bytes.
pub proof fn lemma_canonical_ignores_form(analyzed: LegacyAnalyzedBytecode, raw: Vec<u8>)
    requires
        raw@.len() == analyzed.original_len_spec(),
        raw@.len() <= analyzed.padded().len(),
        analyzed.padded().take(raw@.len() as int) == raw@,
    ensures
        Bytecode::LegacyAnalyzed(analyzed).canonical() == Bytecode::LegacyRaw(raw).canonical(),
{
}

/// A delegation designator and plain bytes that hold the same bytes have
/// the same canonical bytes.
pub proof fn lemma_canonical_of_designator(code: Eip7702Bytecode, raw: Vec<u8>)
    requires
        code.raw@ == raw@,
    ensures
        Bytecode::Eip7702(code).canonical() == Bytecode::LegacyRaw(raw).canonical(),
{
}

} // verus!

//! Fixed-width values of the ledger: addresses, 256-bit hashes and 256-bit
//! unsigned integers.

use vstd::prelude::*;

verus! {

/// A 20-byte account address.
#[derive(Clone, Copy, Debug, Eq, Hash, PartialOrd, Ord)]
pub struct Address {
    pub bytes: [u8; 20],
}

/// A 32-byte word: a hash, or a storage key in big-endian form.
#[derive(Clone, Copy, Debug, Eq, Hash, PartialOrd, Ord)]
pub struct B256 {
    pub bytes: [u8; 32],
}

/// An unsigned 256-bit integer, held as four 64-bit limbs, least significant
/// first.
#[derive(Clone, Copy, Debug, Eq, Hash)]
pub struct U256 {
    pub limbs: [u64; 4],
}

/// How two 32-byte words stand to each other in byte-wise lexicographic
/// order.
#[derive(Clone, Copy, Debug, PartialEq, Eq, Structural)]
pub enum KeyOrder {
    Less,
    Equal,
    Greater,
}

/// Byte-wise lexicographic "less than" on two byte strings: at the first
/// position where they differ, `a` holds the smaller byte.
pub open spec fn bytes_lt(a: Seq<u8>, b: Seq<u8>) -> bool {
    exists|i: int|
        0 <= i < a.len() && i < b.len() && #[trigger] a[i] < b[i] && a.subrange(0, i)
            == b.subrange(0, i)
}

/// Byte `k` of a limb, where byte 0 is the least significant.
pub open spec fn limb_byte(limb: u64, k: int) -> u8 {
    ((limb as int / pow256(k)) % 256) as u8
}

/// 256 to the power `k`, for `k` from 0 to 7; 1 elsewhere.
pub open spec fn pow256(k: int) -> int {
    if k == 1 {
        0x100
    } else if k == 2 {
        0x1_0000
    } else if k == 3 {
        0x100_0000
    } else if k == 4 {
        0x1_0000_0000
    } else if k == 5 {
        0x100_0000_0000
    } else if k == 6 {
        0x1_0000_0000_0000
    } else if k == 7 {
        0x100_0000_0000_0000
    } else {
        1
    }
}

/// The 32 bytes of the number with the given limbs (least significant limb
/// first), most significant byte first.
pub open spec fn limbs_be_bytes(limbs: [u64; 4]) -> Seq<u8> {
    Seq::new(32, |i: int| limb_byte(limbs[3 - i / 8], 7 - i % 8))
}

/// The 32 bytes of the Keccak-256 hash of the empty byte string.
pub open spec fn keccak_empty_bytes() -> Seq<u8> {
    seq![
        0xc5u8, 0xd2u8, 0x46u8, 0x01u8, 0x86u8, 0xf7u8, 0x23u8, 0x3cu8,
        0x92u8, 0x7eu8, 0x7du8, 0xb2u8, 0xdcu8, 0xc7u8, 0x03u8, 0xc0u8,
        0xe5u8, 0x00u8, 0xb6u8, 0x53u8, 0xcau8, 0x82u8, 0x27u8, 0x3bu8,
        0x7bu8, 0xfau8, 0xd8u8, 0x04u8, 0x5du8, 0x85u8, 0xa4u8, 0x70u8,
    ]
}

/// Reads `alloy_primitives::KECCAK256_EMPTY`. Trusted: the constant holds the
/// 32 bytes listed in `keccak_empty_bytes`.
#[verifier::external_body]
fn empty_hash_constant() -> (r: [u8; 32])
    ensures
        r@ == keccak_empty_bytes(),
{
    alloy_primitives::KECCAK256_EMPTY.0
}

/// The hash of the empty byte string: the code hash of an account without
/// code.
pub fn keccak_empty() -> (r: B256)
    ensures
        r@ == keccak_empty_bytes(),
{
    B256 { bytes: empty_hash_constant() }
}

/// Calls `B256::from(U256)` of `alloy_primitives` on the integer with the
/// given limbs. Trusted: the result is the integer in big-endian form, so
/// that the eight bytes of the most significant limb come first, each limb's
/// most significant byte first.
#[verifier::external_body]
fn big_endian_word(limbs: [u64; 4]) -> (r: [u8; 32])
    ensures
        r@ == limbs_be_bytes(limbs),
{
    alloy_primitives::B256::from(alloy_primitives::U256::from_limbs(limbs)).0
}

impl View for Address {
    type V = Seq<u8>;

    open spec fn view(&self) -> Seq<u8> {
        self.bytes@
    }
}

impl View for B256 {
    type V = Seq<u8>;

    open spec fn view(&self) -> Seq<u8> {
        self.bytes@
    }
}

impl PartialEq for Address {
    fn eq(&self, other: &Address) -> (r: bool) {
        let mut i: usize = 0;
        while i < 20
            invariant
                i <= 20,
                forall|j: int| 0 <= j < i ==> self.bytes[j] == other.bytes[j],
            decreases 20 - i,
        {
            if self.bytes[i] != other.bytes[i] {
                return false;
            }
            i += 1;
        }
        assert(self.bytes =~= other.bytes);
        true
    }
}

impl vstd::std_specs::cmp::PartialEqSpecImpl for Address {
    open spec fn obeys_eq_spec() -> bool {
        true
    }

    open spec fn eq_spec(&self, other: &Address) -> bool {
        *self == *other
    }
}

impl Address {
    /// The address whose 20 bytes all equal `byte`.
    pub fn repeat_byte(byte: u8) -> (r: Address)
        ensures
            r@ == Seq::new(20, |i: int| byte),
    {
        let r = Address { bytes: [byte; 20] };
        assert(r@ =~= Seq::new(20, |i: int| byte));
        r
    }
}

impl PartialEq for B256 {
    fn eq(&self, other: &B256) -> (r: bool) {
        let mut i: usize = 0;
        while i < 32
            invariant
                i <= 32,
                forall|j: int| 0 <= j < i ==> self.bytes[j] == other.bytes[j],
            decreases 32 - i,
        {
            if self.bytes[i] != other.bytes[i] {
                return false;
            }
            i += 1;
        }
        assert(self.bytes =~= other.bytes);
        true
    }
}

impl vstd::std_specs::cmp::PartialEqSpecImpl for B256 {
    open spec fn obeys_eq_spec() -> bool {
        true
    }

    open spec fn eq_spec(&self, other: &B256) -> bool {
        *self == *other
    }
}

impl B256 {
    /// The all-zero word.
    pub fn zero() -> (r: B256)
        ensures
            r@ == Seq::new(32, |i: int| 0u8),
    {
        let r = B256 { bytes: [0u8; 32] };
        assert(r@ =~= Seq::new(32, |i: int| 0u8));
        r
    }

    /// The word whose 32 bytes all equal `byte`.
    pub fn repeat_byte(byte: u8) -> (r: B256)
        ensures
            r@ == Seq::new(32, |i: int| byte),
    {
        let r = B256 { bytes: [byte; 32] };
        assert(r@ =~= Seq::new(32, |i: int| byte));
        r
    }

    /// Whether this word comes before `other` in byte-wise lexicographic
    /// order.
    pub open spec fn precedes(self, other: B256) -> bool {
        bytes_lt(self@, other@)
    }

    /// Compares two words byte by byte, most significant first.
    pub fn compare(&self, other: &B256) -> (r: KeyOrder)
        ensures
            r == KeyOrder::Less <==> self.precedes(*other),
            r == KeyOrder::Equal <==> *self == *other,
            r == KeyOrder::Greater <==> other.precedes(*self),
    {
        let mut i: usize = 0;
        while i < 32
            invariant
                i <= 32,
                forall|j: int| 0 <= j < i ==> self.bytes[j] == other.bytes[j],
            decreases 32 - i,
        {
            if self.bytes[i] < other.bytes[i] {
                proof {
                    assert(self@.subrange(0, i as int) =~= other@.subrange(0, i as int));
                    assert(self@[i as int] < other@[i as int]);
                    lemma_precedes_asymmetric(*self, *other);
                }
                return KeyOrder::Less;
            }
            if self.bytes[i] > other.bytes[i] {
                proof {
                    assert(self@.subrange(0, i as int) =~= other@.subrange(0, i as int));
                    assert(other@[i as int] < self@[i as int]);
                    lemma_precedes_asymmetric(*other, *self);
                }
                return KeyOrder::Greater;
            }
            i += 1;
        }
        proof {
            assert(self.bytes =~= other.bytes);
            lemma_precedes_irreflexive(*self);
        }
        KeyOrder::Equal
    }

    /// The big-endian form of a 256-bit integer: the word under which a
    /// storage slot with that number is filed.
    pub fn from_u256(value: U256) -> (r: B256)
        ensures
            r@ == value.be_bytes(),
    {
        B256 { bytes: big_endian_word(value.limbs) }
    }
}

/// Two words with the same bytes are the same word.
pub proof fn lemma_same_bytes(a: B256, b: B256)
    requires
        a@ == b@,
    ensures
        a == b,
{
    assert(a.bytes =~= b.bytes);
}

/// No word comes before itself.
pub proof fn lemma_precedes_irreflexive(a: B256)
    ensures
        !a.precedes(a),
{
}

/// Of two words at most one comes before the other.
pub proof fn lemma_precedes_asymmetric(a: B256, b: B256)
    requires
        a.precedes(b),
    ensures
        !b.precedes(a),
        a != b,
{
    let i = choose|i: int|
        0 <= i < a@.len() && i < b@.len() && #[trigger] a@[i] < b@[i] && a@.subrange(0, i)
            == b@.subrange(0, i);
    if b.precedes(a) {
        let k = choose|k: int|
            0 <= k < b@.len() && k < a@.len() && #[trigger] b@[k] < a@[k] && b@.subrange(0, k)
                == a@.subrange(0, k);
        if k < i {
            assert(a@.subrange(0, i)[k] == b@.subrange(0, i)[k]);
        } else if i < k {
            assert(a@.subrange(0, k)[i] == b@.subrange(0, k)[i]);
        }
    }
}

/// The order on words is transitive.
pub proof fn lemma_precedes_transitive(a: B256, b: B256, c: B256)
    requires
        a.precedes(b),
        b.precedes(c),
    ensures
        a.precedes(c),
{
    let i = choose|i: int|
        0 <= i < a@.len() && i < b@.len() && #[trigger] a@[i] < b@[i] && a@.subrange(0, i)
            == b@.subrange(0, i);
    let k = choose|k: int|
        0 <= k < b@.len() && k < c@.len() && #[trigger] b@[k] < c@[k] && b@.subrange(0, k)
            == c@.subrange(0, k);
    let m = if i <= k { i } else { k };
    assert(a@.subrange(0, m) =~= c@.subrange(0, m)) by {
        assert forall|j: int| 0 <= j < m implies a@[j] == c@[j] by {
            assert(a@.subrange(0, i)[j] == b@.subrange(0, i)[j]);
            assert(b@.subrange(0, k)[j] == c@.subrange(0, k)[j]);
        }
    }
    if i < k {
        assert(b@.subrange(0, k)[i] == c@.subrange(0, k)[i]);
    } else if k < i {
        assert(a@.subrange(0, i)[k] == b@.subrange(0, i)[k]);
    }
    assert(a@[m] < c@[m]);
}

impl PartialEq for U256 {
    fn eq(&self, other: &U256) -> (r: bool) {
        let r = self.limbs[0] == other.limbs[0] && self.limbs[1] == other.limbs[1]
            && self.limbs[2] == other.limbs[2] && self.limbs[3] == other.limbs[3];
        assert(r ==> self.limbs =~= other.limbs);
        r
    }
}

impl vstd::std_specs::cmp::PartialEqSpecImpl for U256 {
    open spec fn obeys_eq_spec() -> bool {
        true
    }

    open spec fn eq_spec(&self, other: &U256) -> bool {
        *self == *other
    }
}

impl U256 {
    /// The number that the limbs stand for.
    pub open spec fn value(self) -> nat {
        (self.limbs[0] as nat) + (self.limbs[1] as nat) * 0x1_0000_0000_0000_0000
            + (self.limbs[2] as nat) * 0x1_0000_0000_0000_0000_0000_0000_0000_0000
            + (self.limbs[3] as nat)
            * 0x1_0000_0000_0000_0000_0000_0000_0000_0000_0000_0000_0000_0000
    }

    /// The 32 bytes of the number, most significant first.
    pub open spec fn be_bytes(self) -> Seq<u8> {
        limbs_be_bytes(self.limbs)
    }

    /// The number zero.
    pub fn zero() -> (r: U256)
        ensures
            r.value() == 0,
            r == U256::from_u64_spec(0),
    {
        U256::from_u64(0)
    }

    /// What `from_u64` returns.
    pub open spec fn from_u64_spec(x: u64) -> U256 {
        U256 { limbs: [x, 0, 0, 0] }
    }

    /// The 256-bit integer equal to `x`.
    pub fn from_u64(x: u64) -> (r: U256)
        ensures
            r == U256::from_u64_spec(x),
            r.value() == x,
    {
        U256 { limbs: [x, 0, 0, 0] }
    }

    /// Whether the number is zero.
    pub fn is_zero(&self) -> (r: bool)
        ensures
            r == (self.value() == 0),
            r == (*self == U256::from_u64_spec(0)),
    {
        let r = self.limbs[0] == 0 && self.limbs[1] == 0 && self.limbs[2] == 0 && self.limbs[3]
            == 0;
        assert(r ==> self.limbs =~= U256::from_u64_spec(0).limbs);
        r
    }
}

/// A limb is given by its eight bytes.
pub proof fn lemma_limb_bytes(a: u64, b: u64)
    requires
        forall|k: int| 0 <= k < 8 ==> limb_byte(a, k) == limb_byte(b, k),
    ensures
        a == b,
{
    assert(limb_byte(a, 0) == limb_byte(b, 0));
    assert(limb_byte(a, 1) == limb_byte(b, 1));
    assert(limb_byte(a, 2) == limb_byte(b, 2));
    assert(limb_byte(a, 3) == limb_byte(b, 3));
    assert(limb_byte(a, 4) == limb_byte(b, 4));
    assert(limb_byte(a, 5) == limb_byte(b, 5));
    assert(limb_byte(a, 6) == limb_byte(b, 6));
    assert(limb_byte(a, 7) == limb_byte(b, 7));
    assert((a / 1) % 256 == (b / 1) % 256);
    assert((a / 0x100) % 256 == (b / 0x100) % 256);
    assert((a / 0x1_0000) % 256 == (b / 0x1_0000) % 256);
    assert((a / 0x100_0000) % 256 == (b / 0x100_0000) % 256);
    assert((a / 0x1_0000_0000) % 256 == (b / 0x1_0000_0000) % 256);
    assert((a / 0x100_0000_0000) % 256 == (b / 0x100_0000_0000) % 256);
    assert((a / 0x1_0000_0000_0000) % 256 == (b / 0x1_0000_0000_0000) % 256);
    assert((a / 0x100_0000_0000_0000) % 256 == (b / 0x100_0000_0000_0000) % 256);
    assert(a == b) by (bit_vector)
        requires
            (a / 1) % 256 == (b / 1) % 256,
            (a / 0x100) % 256 == (b / 0x100) % 256,
            (a / 0x1_0000) % 256 == (b / 0x1_0000) % 256,
            (a / 0x100_0000) % 256 == (b / 0x100_0000) % 256,
            (a / 0x1_0000_0000) % 256 == (b / 0x1_0000_0000) % 256,
            (a / 0x100_0000_0000) % 256 == (b / 0x100_0000_0000) % 256,
            (a / 0x1_0000_0000_0000) % 256 == (b / 0x1_0000_0000_0000) % 256,
            (a / 0x100_0000_0000_0000) % 256 == (b / 0x100_0000_0000_0000) % 256,
    ;
}

/// Two numbers with the same big-endian form are the same number: no two
/// slot numbers are filed under one key.
pub proof fn lemma_be_bytes_injective(a: U256, b: U256)
    requires
        a.be_bytes() == b.be_bytes(),
    ensures
        a == b,
{
    assert forall|limb: int| 0 <= limb < 4 implies a.limbs[limb] == b.limbs[limb] by {
        assert forall|k: int| 0 <= k < 8 implies limb_byte(a.limbs[limb], k) == limb_byte(
            b.limbs[limb],
            k,
        ) by {
            let i = (3 - limb) * 8 + (7 - k);
            assert(i / 8 == 3 - limb && i % 8 == 7 - k);
            assert(a.be_bytes()[i] == limb_byte(a.limbs[limb], k));
            assert(b.be_bytes()[i] == limb_byte(b.limbs[limb], k));
        }
        lemma_limb_bytes(a.limbs[limb], b.limbs[limb]);
    }
    assert(a.limbs =~= b.limbs);
}

} // verus!

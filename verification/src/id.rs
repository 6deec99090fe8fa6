//! 160-bit node identifiers and the XOR metric.

use vstd::prelude::*;

verus! {

/// Number of bytes in a node identifier (160 bits).
pub const ID_LEN: usize = 20;

/// A 160-bit identifier: a node id or an info-hash, both drawn from the
/// same space. The distance between two identifiers is their bytewise XOR,
/// ordered as a 160-bit big-endian integer (lexicographically by byte).
#[derive(Clone, Copy, Debug)]
pub struct NodeId {
    /// The identifier's bytes, big-endian for display purposes.
    pub bytes: [u8; 20],
}

impl View for NodeId {
    type V = Seq<u8>;

    open spec fn view(&self) -> Seq<u8> {
        self.bytes@
    }
}

impl NodeId {
    /// Wraps 20 bytes as an identifier; rejects any other length.
    pub fn from_bytes(bytes: &Vec<u8>) -> (r: Option<NodeId>)
        ensures
            bytes@.len() == ID_LEN ==> (r matches Option::Some(id) && id@ == bytes@),
            bytes@.len() != ID_LEN ==> r is None,
    {
        if bytes.len() != ID_LEN {
            return None;
        }
        let mut arr: [u8; 20] = [0u8; 20];
        let mut i: usize = 0;
        while i < ID_LEN
            invariant
                i <= ID_LEN,
                bytes@.len() == ID_LEN,
                forall|j: int| 0 <= j < i ==> arr@[j] == bytes@[j],
            decreases ID_LEN - i,
        {
            arr[i] = bytes[i];
            i = i + 1;
        }
        let id = NodeId { bytes: arr };
        proof {
            assert(id@ =~= bytes@);
        }
        Some(id)
    }

    /// The identifier's bytes as a fresh vector.
    pub fn to_bytes(&self) -> (r: Vec<u8>)
        ensures
            r@ == self@,
    {
        let mut out: Vec<u8> = Vec::new();
        let mut i: usize = 0;
        while i < ID_LEN
            invariant
                i <= ID_LEN,
                out@.len() == i,
                forall|j: int| 0 <= j < i ==> out@[j] == self@[j],
            decreases ID_LEN - i,
        {
            out.push(self.bytes[i]);
            i = i + 1;
        }
        proof {
            assert(out@ =~= self@);
        }
        out
    }

    /// An identifier whose 20 bytes all hold the same value.
    pub fn repeated(b: u8) -> (r: NodeId)
        ensures
            forall|i: int| 0 <= i < ID_LEN ==> r@[i] == b,
    {
        proof {
            broadcast use vstd::array::group_array_axioms;

        }
        NodeId { bytes: [b; 20] }
    }

    /// True exactly when the two identifiers hold the same bytes.
    pub fn equals(&self, other: &NodeId) -> (r: bool)
        ensures
            r == (self@ == other@),
    {
        let mut i: usize = 0;
        while i < ID_LEN
            invariant
                i <= ID_LEN,
                forall|j: int| 0 <= j < i ==> self@[j] == other@[j],
            decreases ID_LEN - i,
        {
            if self.bytes[i] != other.bytes[i] {
                assert(self@[i as int] != other@[i as int]);
                return false;
            }
            i = i + 1;
        }
        assert(self@ =~= other@);
        true
    }

    /// Bytewise XOR with `other`: the Kademlia distance between the two
    /// identifiers, itself a 160-bit value.
    pub fn distance(&self, other: &NodeId) -> (r: NodeId)
        ensures
            r@ == xor_bytes(self@, other@),
    {
        let mut arr: [u8; 20] = [0u8; 20];
        let mut i: usize = 0;
        while i < ID_LEN
            invariant
                i <= ID_LEN,
                forall|j: int| 0 <= j < i ==> arr@[j] == (self@[j] ^ other@[j]),
            decreases ID_LEN - i,
        {
            arr[i] = self.bytes[i] ^ other.bytes[i];
            i = i + 1;
        }
        let r = NodeId { bytes: arr };
        proof {
            assert(r@ =~= xor_bytes(self@, other@));
        }
        r
    }

    /// Number of leading zero bits of this value read as a 160-bit
    /// big-endian integer; 160 when every byte is zero.
    pub fn leading_zero_bits(&self) -> (r: usize)
        ensures
            r == seq_lz(self@),
            r <= 160,
    {
        proof {
            lemma_seq_lz_bound(self@, 0);
        }
        let mut i: usize = 0;
        while i < ID_LEN
            invariant
                i <= ID_LEN,
                forall|j: int| 0 <= j < i ==> self@[j] == 0,
                seq_lz(self@) == seq_lz_from(self@, i as int) + 8 * i,
            decreases ID_LEN - i,
        {
            let b = self.bytes[i];
            if b != 0 {
                assert(seq_lz_from(self@, i as int) == byte_lz(b));
                proof {
                    lemma_byte_lz_bound(b);
                }
                return i * 8 + byte_leading_zeros(b);
            }
            assert(seq_lz_from(self@, i as int) == 8 + seq_lz_from(self@, i + 1));
            i = i + 1;
        }
        160
    }
}

/// Bytewise XOR of two equal-length byte strings.
pub open spec fn xor_bytes(a: Seq<u8>, b: Seq<u8>) -> Seq<u8> {
    Seq::new(a.len(), |i: int| a[i] ^ b[i])
}

/// Leading zero bits of one byte.
pub open spec fn byte_lz(b: u8) -> int {
    if b >= 128 {
        0
    } else if b >= 64 {
        1
    } else if b >= 32 {
        2
    } else if b >= 16 {
        3
    } else if b >= 8 {
        4
    } else if b >= 4 {
        5
    } else if b >= 2 {
        6
    } else if b >= 1 {
        7
    } else {
        8
    }
}

proof fn lemma_byte_lz_bound(b: u8)
    ensures
        0 <= byte_lz(b) <= 8,
        b != 0 ==> byte_lz(b) < 8,
{
}

/// Leading zero bits of the byte string starting at index `i`.
pub open spec fn seq_lz_from(s: Seq<u8>, i: int) -> int
    decreases s.len() - i,
{
    if i < 0 || i >= s.len() {
        0
    } else if s[i] != 0 {
        byte_lz(s[i])
    } else {
        8 + seq_lz_from(s, i + 1)
    }
}

/// Leading zero bits of a byte string read as a big-endian integer.
pub open spec fn seq_lz(s: Seq<u8>) -> int {
    seq_lz_from(s, 0)
}

pub proof fn lemma_seq_lz_bound(s: Seq<u8>, i: int)
    requires
        0 <= i <= s.len(),
    ensures
        0 <= seq_lz_from(s, i) <= 8 * (s.len() - i),
    decreases s.len() - i,
{
    if i < s.len() {
        lemma_seq_lz_bound(s, i + 1);
        lemma_byte_lz_bound(s[i]);
    }
}

/// Leading zero bits of one byte, executable form.
pub fn byte_leading_zeros(b: u8) -> (r: usize)
    ensures
        r == byte_lz(b),
{
    if b >= 128 {
        0
    } else if b >= 64 {
        1
    } else if b >= 32 {
        2
    } else if b >= 16 {
        3
    } else if b >= 8 {
        4
    } else if b >= 4 {
        5
    } else if b >= 2 {
        6
    } else if b >= 1 {
        7
    } else {
        8
    }
}

/// Strict lexicographic order on the suffixes of two equal-length byte
/// strings, starting at index `i`. On 20-byte identifiers this is the
/// order of their 160-bit big-endian values.
pub open spec fn bytes_lt_from(a: Seq<u8>, b: Seq<u8>, i: int) -> bool
    decreases a.len() - i,
{
    if i < 0 || i >= a.len() || i >= b.len() {
        false
    } else if a[i] < b[i] {
        true
    } else if a[i] > b[i] {
        false
    } else {
        bytes_lt_from(a, b, i + 1)
    }
}

/// Strict lexicographic order on equal-length byte strings.
pub open spec fn bytes_lt(a: Seq<u8>, b: Seq<u8>) -> bool {
    bytes_lt_from(a, b, 0)
}

/// Two equal-length byte strings with no strict order either way are equal
/// from `i` on.
proof fn lemma_bytes_lt_trichotomy_from(a: Seq<u8>, b: Seq<u8>, i: int)
    requires
        a.len() == b.len(),
        0 <= i <= a.len(),
        !bytes_lt_from(a, b, i),
        !bytes_lt_from(b, a, i),
    ensures
        forall|j: int| i <= j < a.len() ==> a[j] == b[j],
    decreases a.len() - i,
{
    if i < a.len() {
        lemma_bytes_lt_trichotomy_from(a, b, i + 1);
    }
}

/// Lexicographic trichotomy: of two equal-length byte strings, either one
/// is strictly below the other or they are equal.
pub proof fn lemma_bytes_lt_trichotomy(a: Seq<u8>, b: Seq<u8>)
    requires
        a.len() == b.len(),
        !bytes_lt(a, b),
        !bytes_lt(b, a),
    ensures
        a == b,
{
    lemma_bytes_lt_trichotomy_from(a, b, 0);
    assert(a =~= b);
}

proof fn lemma_bytes_lt_trans_from(a: Seq<u8>, b: Seq<u8>, c: Seq<u8>, i: int)
    requires
        a.len() == b.len(),
        b.len() == c.len(),
        0 <= i,
        bytes_lt_from(a, b, i),
        bytes_lt_from(b, c, i),
    ensures
        bytes_lt_from(a, c, i),
    decreases a.len() - i,
{
    if i < a.len() {
        if a[i] == b[i] && b[i] == c[i] {
            lemma_bytes_lt_trans_from(a, b, c, i + 1);
        }
    }
}

/// Lexicographic order is transitive.
pub proof fn lemma_bytes_lt_trans(a: Seq<u8>, b: Seq<u8>, c: Seq<u8>)
    requires
        a.len() == b.len(),
        b.len() == c.len(),
        bytes_lt(a, b),
        bytes_lt(b, c),
    ensures
        bytes_lt(a, c),
{
    lemma_bytes_lt_trans_from(a, b, c, 0);
}

/// Lexicographic order is irreflexive and asymmetric.
pub proof fn lemma_bytes_lt_asymmetric(a: Seq<u8>, b: Seq<u8>)
    requires
        bytes_lt(a, b),
    ensures
        !bytes_lt(b, a),
        a != b,
    decreases a.len(),
{
    lemma_bytes_lt_asymmetric_from(a, b, 0);
    if a == b {
        assert(bytes_lt_from(a, a, 0));
        lemma_bytes_lt_irrefl_from(a, 0);
    }
}

proof fn lemma_bytes_lt_irrefl_from(a: Seq<u8>, i: int)
    requires
        0 <= i,
    ensures
        !bytes_lt_from(a, a, i),
    decreases a.len() - i,
{
    if i < a.len() {
        lemma_bytes_lt_irrefl_from(a, i + 1);
    }
}

proof fn lemma_bytes_lt_asymmetric_from(a: Seq<u8>, b: Seq<u8>, i: int)
    requires
        0 <= i,
        bytes_lt_from(a, b, i),
    ensures
        !bytes_lt_from(b, a, i),
    decreases a.len() - i,
{
    if i < a.len() && i < b.len() {
        if a[i] == b[i] {
            lemma_bytes_lt_asymmetric_from(a, b, i + 1);
        }
    }
}

/// Compares two well-formed identifiers lexicographically, that is by
/// their 160-bit big-endian values.
pub fn id_less(a: &NodeId, b: &NodeId) -> (r: bool)
    ensures
        r == bytes_lt(a@, b@),
{
    let mut i: usize = 0;
    while i < ID_LEN
        invariant
            i <= ID_LEN,
            bytes_lt(a@, b@) == bytes_lt_from(a@, b@, i as int),
        decreases ID_LEN - i,
    {
        if a.bytes[i] < b.bytes[i] {
            assert(bytes_lt_from(a@, b@, i as int));
            return true;
        }
        if a.bytes[i] > b.bytes[i] {
            assert(!bytes_lt_from(a@, b@, i as int));
            return false;
        }
        assert(bytes_lt_from(a@, b@, i as int) == bytes_lt_from(a@, b@, i + 1));
        i = i + 1;
    }
    false
}

} // verus!

//! Byte-string ordering and the sorted-pair hashing step that the Merkle
//! commitment scheme is built on.

use vstd::prelude::*;

verus! {

/// Lexicographic `<=` on byte strings; on equal-length strings this is the
/// unsigned big-endian integer order.
pub open spec fn lex_le(a: Seq<u8>, b: Seq<u8>) -> bool
    decreases a.len(),
{
    if a.len() == 0 {
        true
    } else if b.len() == 0 {
        false
    } else if a[0] < b[0] {
        true
    } else if a[0] > b[0] {
        false
    } else {
        lex_le(a.drop_first(), b.drop_first())
    }
}

/// `lex_le` holds in both directions only for equal strings.
pub proof fn lemma_lex_le_antisymmetric(a: Seq<u8>, b: Seq<u8>)
    requires
        lex_le(a, b),
        lex_le(b, a),
    ensures
        a == b,
    decreases a.len(),
{
    if a.len() == 0 {
        assert(b.len() == 0);
        assert(a =~= b);
    } else {
        assert(b.len() > 0);
        assert(a[0] == b[0]);
        lemma_lex_le_antisymmetric(a.drop_first(), b.drop_first());
        assert(a.len() == b.len());
        assert forall|i: int| 0 <= i < a.len() implies a[i] == b[i] by {
            if i > 0 {
                assert(a.drop_first()[i - 1] == a[i]);
                assert(b.drop_first()[i - 1] == b[i]);
            }
        }
        assert(a =~= b);
    }
}

/// `lex_le` is total: one of the two orders always holds.
pub proof fn lemma_lex_le_total(a: Seq<u8>, b: Seq<u8>)
    ensures
        lex_le(a, b) || lex_le(b, a),
    decreases a.len(),
{
    if a.len() > 0 && b.len() > 0 && a[0] == b[0] {
        lemma_lex_le_total(a.drop_first(), b.drop_first());
    }
}

/// Decides `lex_le` on two 32-byte strings.
pub fn bytes32_le(a: &[u8; 32], b: &[u8; 32]) -> (r: bool)
    ensures
        r == lex_le(a@, b@),
{
    let mut i: usize = 0;
    proof {
        assert(a@.skip(0) =~= a@);
        assert(b@.skip(0) =~= b@);
    }
    while i < 32
        invariant
            i <= 32,
            lex_le(a@, b@) == lex_le(a@.skip(i as int), b@.skip(i as int)),
        decreases 32 - i,
    {
        if a[i] < b[i] {
            proof {
                assert(a@.skip(i as int)[0] == a@[i as int]);
                assert(lex_le(a@.skip(i as int), b@.skip(i as int)));
            }
            return true;
        }
        if a[i] > b[i] {
            proof {
                assert(a@.skip(i as int)[0] == a@[i as int]);
                assert(!lex_le(a@.skip(i as int), b@.skip(i as int)));
            }
            return false;
        }
        proof {
            assert(a@.skip(i as int).drop_first() =~= a@.skip(i + 1));
            assert(b@.skip(i as int).drop_first() =~= b@.skip(i + 1));
        }
        i = i + 1;
    }
    proof {
        assert(a@.skip(32) =~= Seq::<u8>::empty());
    }
    true
}

/// What Keccak-256 returns for a given byte string: a function of the input
/// bytes alone, the same in every process and on every machine.
pub uninterp spec fn keccak_of(bytes: Seq<u8>) -> Seq<u8>;

/// Relies on solana_keccak_hasher::hashv: returns the 32-byte Keccak-256
/// digest of the input, a function of the input bytes alone.
#[verifier::external_body]
fn keccak256(data: &Vec<u8>) -> (r: [u8; 32])
    ensures
        r@ == keccak_of(data@),
{
    solana_keccak_hasher::hashv(&[data.as_slice()]).to_bytes()
}

/// Copies a 32-byte string into a fresh vector.
fn bytes32_to_vec(a: &[u8; 32]) -> (r: Vec<u8>)
    ensures
        r@ == a@,
{
    let mut buf: Vec<u8> = Vec::new();
    let mut i: usize = 0;
    while i < 32
        invariant
            i <= 32,
            buf@ == a@.take(i as int),
        decreases 32 - i,
    {
        buf.push(a[i]);
        proof {
            assert(a@.take(i + 1) =~= a@.take(i as int).push(a@[i as int]));
        }
        i = i + 1;
    }
    proof {
        assert(a@.take(32) =~= a@);
    }
    buf
}

/// Concatenates two 32-byte strings.
fn concat_bytes32(a: &[u8; 32], b: &[u8; 32]) -> (r: Vec<u8>)
    ensures
        r@ == a@ + b@,
{
    let mut buf = bytes32_to_vec(a);
    let mut i: usize = 0;
    proof {
        assert(a@ + b@.take(0) =~= a@);
    }
    while i < 32
        invariant
            i <= 32,
            buf@ == a@ + b@.take(i as int),
        decreases 32 - i,
    {
        buf.push(b[i]);
        proof {
            assert(a@ + b@.take(i + 1) =~= (a@ + b@.take(i as int)).push(b@[i as int]));
        }
        i = i + 1;
    }
    proof {
        assert(a@ + b@.take(32) =~= a@ + b@);
    }
    buf
}

/// The parent of two sibling nodes: the Keccak-256 digest of the pair,
/// concatenated in ascending byte order.
pub open spec fn sorted_pair_hash(a: Seq<u8>, b: Seq<u8>) -> Seq<u8> {
    if lex_le(a, b) {
        keccak_of(a + b)
    } else {
        keccak_of(b + a)
    }
}

/// The pair-hash step is commutative: the same two children, in either
/// order, give the same parent.
pub proof fn lemma_sorted_pair_hash_commutative(a: Seq<u8>, b: Seq<u8>)
    ensures
        sorted_pair_hash(a, b) == sorted_pair_hash(b, a),
{
    lemma_lex_le_total(a, b);
    if lex_le(a, b) && lex_le(b, a) {
        lemma_lex_le_antisymmetric(a, b);
    }
}

/// Hashes two 32-byte nodes into their parent, ordering the pair first.
pub fn hash_pair_sorted(a: &[u8; 32], b: &[u8; 32]) -> (r: [u8; 32])
    ensures
        r@ == sorted_pair_hash(a@, b@),
{
    let buf = if bytes32_le(a, b) {
        concat_bytes32(a, b)
    } else {
        concat_bytes32(b, a)
    };
    keccak256(&buf)
}

/// Hashes a 32-byte identity into the Merkle leaf that commits to it.
pub fn hash_leaf(identity: &[u8; 32]) -> (r: [u8; 32])
    ensures
        r@ == keccak_of(identity@),
{
    let buf = bytes32_to_vec(identity);
    keccak256(&buf)
}

/// Decides equality of two 32-byte strings.
pub fn bytes32_eq(a: &[u8; 32], b: &[u8; 32]) -> (r: bool)
    ensures
        r == (a@ == b@),
{
    let mut i: usize = 0;
    while i < 32
        invariant
            i <= 32,
            forall|j: int| 0 <= j < i ==> a@[j] == b@[j],
        decreases 32 - i,
    {
        if a[i] != b[i] {
            return false;
        }
        i = i + 1;
    }
    proof {
        assert(a@ =~= b@);
    }
    true
}

} // verus!

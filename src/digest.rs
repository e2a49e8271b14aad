//! Fixed-size 32-byte digests and the byte-folding functions over them.

use vstd::prelude::*;

verus! {

/// Number of bytes in a digest.
pub const DIGEST_LEN: usize = 32;

/// A 32-byte digest, used for leaf and node hashes of the integrity index.
#[derive(Clone, Copy, Debug)]
pub struct Digest(pub [u8; 32]);

impl View for Digest {
    type V = Seq<u8>;

    open spec fn view(&self) -> Seq<u8> {
        self.0@
    }
}

/// Bytewise exclusive-or of two byte sequences of digest length.
pub open spec fn xor_bytes(a: Seq<u8>, b: Seq<u8>) -> Seq<u8> {
    Seq::new(32, |i: int| a[i] ^ b[i])
}

/// The all-zero digest.
pub open spec fn zero_bytes() -> Seq<u8> {
    Seq::new(32, |i: int| 0u8)
}

/// Folds `data` into 32 bytes: byte `j` of the result is the exclusive-or of
/// every byte of `data` whose position is `j` modulo 32.
pub open spec fn fold_bytes(data: Seq<u8>) -> Seq<u8>
    decreases data.len(),
{
    if data.len() == 0 {
        zero_bytes()
    } else {
        let prev = fold_bytes(data.drop_last());
        let k = (data.len() - 1) % 32;
        prev.update(k, prev[k] ^ data.last())
    }
}

/// A folded value always has digest length.
pub proof fn lemma_fold_len(data: Seq<u8>)
    ensures
        fold_bytes(data).len() == 32,
    decreases data.len(),
{
    if data.len() > 0 {
        lemma_fold_len(data.drop_last());
    }
}

impl Digest {
    /// The digest whose bytes are all zero: the padding value of the tree.
    pub fn zero() -> (r: Digest)
        ensures
            r@ == zero_bytes(),
    {
        let r = Digest([0u8; 32]);
        assert(r@ =~= zero_bytes());
        r
    }

    /// Folds arbitrary bytes into a digest (see `fold_bytes`). This is a
    /// placeholder content digest, not a cryptographic hash.
    pub fn of_bytes(data: &[u8]) -> (r: Digest)
        ensures
            r@ == fold_bytes(data@),
    {
        let mut out = [0u8; 32];
        let mut i: usize = 0;
        assert(data@.subrange(0, 0) =~= Seq::<u8>::empty());
        assert(out@ =~= zero_bytes());
        while i < data.len()
            invariant
                0 <= i <= data@.len(),
                out@ == fold_bytes(data@.subrange(0, i as int)),
            decreases data@.len() - i,
        {
            let k: usize = i % DIGEST_LEN;
            proof {
                let pre = data@.subrange(0, i as int + 1);
                assert(pre.drop_last() =~= data@.subrange(0, i as int));
                lemma_fold_len(data@.subrange(0, i as int));
            }
            out[k] = out[k] ^ data[i];
            i = i + 1;
            proof {
                let pre = data@.subrange(0, i as int);
                assert(pre.last() == data@[i - 1]);
                assert(out@ =~= fold_bytes(pre));
            }
        }
        assert(data@.subrange(0, data@.len() as int) =~= data@);
        Digest(out)
    }

    /// Whether the two digests hold the same bytes.
    pub fn same(&self, other: &Digest) -> (r: bool)
        ensures
            r == (self@ == other@),
    {
        let mut i: usize = 0;
        while i < DIGEST_LEN
            invariant
                0 <= i <= 32,
                self@.len() == 32,
                other@.len() == 32,
                forall|j: int| 0 <= j < i ==> self@[j] == other@[j],
            decreases 32 - i,
        {
            if self.0[i] != other.0[i] {
                return false;
            }
            i = i + 1;
        }
        assert(self@ =~= other@);
        true
    }

    /// Bytewise exclusive-or of two digests: the node combination of the tree.
    pub fn combine(left: &Digest, right: &Digest) -> (r: Digest)
        ensures
            r@ == xor_bytes(left@, right@),
    {
        let mut out = [0u8; 32];
        let mut i: usize = 0;
        while i < DIGEST_LEN
            invariant
                0 <= i <= 32,
                out@.len() == 32,
                left@.len() == 32,
                right@.len() == 32,
                forall|j: int| 0 <= j < i ==> out@[j] == left@[j] ^ right@[j],
            decreases 32 - i,
        {
            out[i] = left.0[i] ^ right.0[i];
            i = i + 1;
        }
        let r = Digest(out);
        assert(r@ =~= xor_bytes(left@, right@));
        r
    }
}

} // verus!

use vstd::prelude::*;
use vstd::string::StringSliceAdditionalSpecFns;

verus! {

/// Dimension of every embedding vector.
pub const DIM: usize = 384;

/// Largest text, in UTF-8 bytes, whose embedding the ranking accepts.
pub const MAX_TEXT_BYTES: usize = 16777216;

/// Largest slot value of an embedding of a text of at most `MAX_TEXT_BYTES` bytes.
pub const MAX_SLOT: u64 = 16777216;

/// The zero vector of dimension `DIM`.
pub open spec fn zero_sums() -> Seq<int> {
    Seq::new(DIM as nat, |k: int| 0int)
}

/// Slot `k` holds the sum of the bytes at positions `i` with `i % DIM == k`.
///
/// The embedding of a text is this vector scaled to unit length; scaling does
/// not change any cosine similarity, so the library works with the integer
/// sums and leaves the division to whoever needs the real-valued vector.
pub open spec fn slot_sums(b: Seq<u8>) -> Seq<int>
    decreases b.len(),
{
    if b.len() == 0 {
        zero_sums()
    } else {
        let prev = slot_sums(b.drop_last());
        let k = (b.len() - 1) % (DIM as int);
        prev.update(k, prev[k] + b.last() as int)
    }
}

/// The embedding of the bytes `b` as machine integers.
pub open spec fn embedding_of(b: Seq<u8>) -> Seq<u64> {
    Seq::new(DIM as nat, |k: int| slot_sums(b)[k] as u64)
}

pub proof fn lemma_slot_sums_len(b: Seq<u8>)
    ensures
        slot_sums(b).len() == DIM,
    decreases b.len(),
{
    if b.len() > 0 {
        lemma_slot_sums_len(b.drop_last());
    }
}

/// Integer form of the byte-accumulation embedding of `text`: slot `k` is the
/// sum of the UTF-8 bytes at positions congruent to `k` modulo `DIM`.
/// Every slot is at most 255 times the number of started rounds of `DIM` bytes.
pub fn simple_embed(text: &str) -> (v: Vec<u64>)
    ensures
        v@.len() == DIM,
        v@ == embedding_of(text.spec_bytes()),
        forall|k: int| 0 <= k < DIM ==> v@[k] as int == #[trigger] slot_sums(text.spec_bytes())[k],
        forall|k: int|
            0 <= k < DIM ==> #[trigger] v@[k] <= 255 * (text.spec_bytes().len() as int / (DIM as int) + 1),
{
    let bytes = text.as_bytes();
    let n = bytes.len();
    let mut v: Vec<u64> = vec![0u64; DIM];
    let mut i: usize = 0;
    let mut k: usize = 0;
    let mut round: usize = 0;
    proof {
        assert(bytes@.take(0) =~= Seq::<u8>::empty());
        lemma_slot_sums_len(bytes@.take(0));
    }
    while i < n
        invariant
            n == bytes@.len(),
            bytes@ == text.spec_bytes(),
            i <= n,
            k < DIM,
            i == round * DIM + k,
            v@.len() == DIM,
            forall|j: int| 0 <= j < DIM ==> v@[j] as int == #[trigger] slot_sums(bytes@.take(i as int))[j],
            forall|j: int| 0 <= j < k ==> #[trigger] v@[j] <= 255 * (round + 1),
            forall|j: int| k <= j < DIM ==> #[trigger] v@[j] <= 255 * round,
        decreases n - i,
    {
        proof {
            assert(bytes@.take(i + 1).drop_last() =~= bytes@.take(i as int));
            assert((i as int) % (DIM as int) == k as int) by (nonlinear_arith)
                requires i == round * DIM + k, k < DIM;
            lemma_slot_sums_len(bytes@.take(i as int));
        }
        let b = bytes[i];
        v.set(k, v[k] + b as u64);
        i = i + 1;
        if k + 1 == DIM {
            k = 0;
            round = round + 1;
        } else {
            k = k + 1;
        }
        proof {
            assert(round * DIM <= n);
        }
    }
    proof {
        assert(bytes@.take(n as int) =~= bytes@);
        assert(round <= n / DIM) by (nonlinear_arith)
            requires n >= round * DIM + k, k < DIM;
        assert(v@ =~= embedding_of(text.spec_bytes()));
        assert forall|j: int| 0 <= j < DIM implies #[trigger] v@[j] <= 255 * ((n as int) / (DIM as int) + 1) by {
            if j < k {
            } else {
            }
        }
    }
    v
}

} // verus!

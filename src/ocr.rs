use vstd::prelude::*;
use vstd::string::StringSliceAdditionalSpecFns;

verus! {

/// Text recognition for images embedded in notes. Opening and decoding the
/// image is the caller's part; the engine decides what text an image yields.
pub struct OcrEngine {}

/// The bytes of `tweet`.
pub open spec fn tweet() -> Seq<u8> {
    seq![0x74u8, 0x77u8, 0x65u8, 0x65u8, 0x74u8]
}

pub open spec fn contains_at(b: Seq<u8>, w: Seq<u8>, i: int) -> bool {
    0 <= i && i + w.len() <= b.len() && b.subrange(i, i + w.len()) == w
}

pub open spec fn contains_bytes(b: Seq<u8>, w: Seq<u8>) -> bool {
    exists|i: int| #[trigger] contains_at(b, w, i)
}

/// What the engine reads from the image `file_name`: the known caption for
/// screenshots of tweets, and the empty text for a missing file (`decoded`
/// is false) or an image with no recognised text.
pub open spec fn recognized(file_name: Seq<u8>, decoded: bool) -> Seq<char> {
    if decoded && contains_bytes(file_name, tweet()) {
        "Just setting up my MyAINote"@
    } else {
        Seq::empty()
    }
}

fn contains_tweet(b: &[u8]) -> (r: bool)
    ensures
        r == contains_bytes(b@, tweet()),
{
    let n = b.len();
    let mut i: usize = 0;
    while n >= 5 && i <= n - 5
        invariant
            n == b@.len(),
            forall|j: int| 0 <= j < i ==> !#[trigger] contains_at(b@, tweet(), j),
        decreases n - i,
    {
        if b[i] == 0x74 && b[i + 1] == 0x77 && b[i + 2] == 0x65 && b[i + 3] == 0x65 && b[i + 4]
            == 0x74 {
            proof {
                assert(b@.subrange(i as int, i + 5) =~= tweet());
                assert(contains_at(b@, tweet(), i as int));
            }
            return true;
        }
        proof {
            if contains_at(b@, tweet(), i as int) {
                assert(b@.subrange(i as int, i + 5)[0] == b@[i as int]);
                assert(b@.subrange(i as int, i + 5)[1] == b@[i + 1]);
                assert(b@.subrange(i as int, i + 5)[2] == b@[i + 2]);
                assert(b@.subrange(i as int, i + 5)[3] == b@[i + 3]);
                assert(b@.subrange(i as int, i + 5)[4] == b@[i + 4]);
            }
        }
        i = i + 1;
    }
    proof {
        assert forall|j: int| !#[trigger] contains_at(b@, tweet(), j) by {
            if 0 <= j && j >= i {
                assert(j + 5 > n);
            }
        }
    }
    false
}

impl OcrEngine {
    pub fn new() -> (e: Self) {
        OcrEngine {}
    }

    /// Text recognised in the image `file_name`; `decoded` says whether the
    /// file exists and was decoded as an image. No text is the empty text.
    pub fn process_image(&self, file_name: &str, decoded: bool) -> (r: String)
        ensures
            r@ == recognized(file_name.spec_bytes(), decoded),
    {
        let mut r = String::new();
        if decoded && contains_tweet(file_name.as_bytes()) {
            r.append("Just setting up my MyAINote");
        }
        r
    }
}

} // verus!

use vstd::prelude::*;
use vstd::string::StringSliceAdditionalSpecFns;

verus! {

/// First `i` in `[from, to - 1)` with `b[i] == x` and `b[i + 1] == y`, or `-1`.
pub open spec fn first_pair(b: Seq<u8>, x: u8, y: u8, from: int, to: int) -> int
    decreases to - from,
{
    if from < 0 || from + 1 >= to || to > b.len() {
        -1
    } else if b[from] == x && b[from + 1] == y {
        from
    } else {
        first_pair(b, x, y, from + 1, to)
    }
}

/// First `i >= from` with `b[i] == x`, or `-1`.
pub open spec fn first_byte(b: Seq<u8>, x: u8, from: int) -> int
    decreases b.len() - from,
{
    if from < 0 || from >= b.len() {
        -1
    } else if b[from] == x {
        from
    } else {
        first_byte(b, x, from + 1)
    }
}

/// Byte range of the target of the first Markdown image reference `![alt](target)`:
/// the reference runs from the first `![` to the next `)`, and the target
/// starts after the first `](` inside it.
pub open spec fn image_target_of(b: Seq<u8>) -> Option<(int, int)> {
    let s = first_pair(b, 0x21, 0x5b, 0, b.len() as int);
    if s < 0 {
        None
    } else {
        let c = first_byte(b, 0x29, s);
        if c < 0 {
            None
        } else {
            let u = first_pair(b, 0x5d, 0x28, s, c + 1);
            if u < 0 {
                None
            } else {
                Some((u + 2, c))
            }
        }
    }
}

/// An ASCII letter.
pub open spec fn is_alpha(c: u8) -> bool {
    (0x41 <= c <= 0x5a) || (0x61 <= c <= 0x7a)
}

/// A character that may follow the first letter of a URL scheme: a letter,
/// a digit, `+`, `-` or `.`.
pub open spec fn is_scheme_char(c: u8) -> bool {
    is_alpha(c) || (0x30 <= c <= 0x39) || c == 0x2b || c == 0x2d || c == 0x2e
}

/// `t[0..i]` is a URL scheme and `t[i]` the `:` that ends it.
pub open spec fn scheme_ends_at(t: Seq<u8>, i: int) -> bool {
    &&& 1 <= i < t.len()
    &&& is_alpha(t[0])
    &&& t[i] == 0x3a
    &&& forall|j: int| 1 <= j < i ==> #[trigger] is_scheme_char(t[j])
}

/// A target that names a remote resource: it begins with a URL scheme
/// (`http:`, `ftp:`, `data:`, ...).
pub open spec fn is_remote(t: Seq<u8>) -> bool {
    exists|i: int| #[trigger] scheme_ends_at(t, i)
}

/// Byte range of the first image reference's target when that target is a
/// local path; remote targets and documents without a reference give `None`.
pub open spec fn local_target_of(b: Seq<u8>) -> Option<(int, int)> {
    match image_target_of(b) {
        Some((s, e)) => if is_remote(b.subrange(s, e)) {
            None
        } else {
            Some((s, e))
        },
        None => None,
    }
}

proof fn lemma_first_pair(b: Seq<u8>, x: u8, y: u8, from: int, to: int)
    ensures
        first_pair(b, x, y, from, to) == -1 || (from <= first_pair(b, x, y, from, to)
            && first_pair(b, x, y, from, to) + 1 < to && to <= b.len() && b[first_pair(
            b,
            x,
            y,
            from,
            to,
        )] == x && b[first_pair(b, x, y, from, to) + 1] == y),
    decreases to - from,
{
    if !(from < 0 || from + 1 >= to || to > b.len()) && !(b[from] == x && b[from + 1] == y) {
        lemma_first_pair(b, x, y, from + 1, to);
    }
}

proof fn lemma_first_byte(b: Seq<u8>, x: u8, from: int)
    ensures
        first_byte(b, x, from) == -1 || (from <= first_byte(b, x, from) < b.len() && b[first_byte(
            b,
            x,
            from,
        )] == x),
    decreases b.len() - from,
{
    if !(from < 0 || from >= b.len()) && b[from] != x {
        lemma_first_byte(b, x, from + 1);
    }
}

fn find_pair(b: &[u8], x: u8, y: u8, from: usize, to: usize) -> (r: Option<usize>)
    requires
        to <= b@.len(),
    ensures
        r matches Some(i) ==> i as int == first_pair(b@, x, y, from as int, to as int),
        r is None ==> first_pair(b@, x, y, from as int, to as int) == -1,
{
    let mut i = from;
    while i < to && i + 1 < to
        invariant
            to <= b@.len(),
            from <= i,
            first_pair(b@, x, y, from as int, to as int) == first_pair(
                b@,
                x,
                y,
                i as int,
                to as int,
            ),
        decreases to - i,
    {
        if b[i] == x && b[i + 1] == y {
            return Some(i);
        }
        i = i + 1;
    }
    None
}

fn find_byte(b: &[u8], x: u8, from: usize) -> (r: Option<usize>)
    ensures
        r matches Some(i) ==> i as int == first_byte(b@, x, from as int),
        r is None ==> first_byte(b@, x, from as int) == -1,
{
    let mut i = from;
    while i < b.len()
        invariant
            from <= i,
            first_byte(b@, x, from as int) == first_byte(b@, x, i as int),
        decreases b@.len() - i,
    {
        if b[i] == x {
            return Some(i);
        }
        i = i + 1;
    }
    None
}

/// Byte range of the target of the first image reference of `content`.
/// Only the first reference of a document is considered.
pub fn first_image_target(content: &str) -> (r: Option<(usize, usize)>)
    ensures
        r matches Some((s, e)) ==> image_target_of(content.spec_bytes()) == Some((s as int, e as int))
            && s <= e <= content.spec_bytes().len(),
        r is None ==> image_target_of(content.spec_bytes()) is None,
{
    let b = content.as_bytes();
    let start = match find_pair(b, 0x21, 0x5b, 0, b.len()) {
        Some(s) => s,
        None => return None,
    };
    let close = match find_byte(b, 0x29, start) {
        Some(c) => c,
        None => return None,
    };
    proof {
        lemma_first_byte(b@, 0x29, start as int);
    }
    let open = match find_pair(b, 0x5d, 0x28, start, close + 1) {
        Some(u) => u,
        None => return None,
    };
    proof {
        lemma_first_pair(b@, 0x5d, 0x28, start as int, close as int + 1);
    }
    Some((open + 2, close))
}

fn is_alpha_byte(c: u8) -> (r: bool)
    ensures
        r == is_alpha(c),
{
    (0x41 <= c && c <= 0x5a) || (0x61 <= c && c <= 0x7a)
}

fn is_scheme_byte(c: u8) -> (r: bool)
    ensures
        r == is_scheme_char(c),
{
    is_alpha_byte(c) || (0x30 <= c && c <= 0x39) || c == 0x2b || c == 0x2d || c == 0x2e
}

/// Whether the bytes `t[s..e]` begin with a URL scheme.
fn remote_at(t: &[u8], s: usize, e: usize) -> (r: bool)
    requires
        s <= e <= t@.len(),
    ensures
        r == is_remote(t@.subrange(s as int, e as int)),
{
    let ghost u = t@.subrange(s as int, e as int);
    if e - s < 2 || !is_alpha_byte(t[s]) {
        proof {
            if is_remote(u) {
                let i = choose|i: int| #[trigger] scheme_ends_at(u, i);
                assert(u[0] == t@[s as int]);
            }
        }
        return false;
    }
    let mut i: usize = s + 1;
    while i < e
        invariant
            s < i <= e,
            e <= t@.len(),
            u == t@.subrange(s as int, e as int),
            is_alpha(u[0]),
            forall|j: int| 1 <= j < i - s ==> #[trigger] is_scheme_char(u[j]),
        decreases e - i,
    {
        let c = t[i];
        assert(u[i - s] == c);
        if c == 0x3a {
            proof {
                assert(scheme_ends_at(u, i - s));
            }
            return true;
        }
        if !is_scheme_byte(c) {
            proof {
                if is_remote(u) {
                    let k = choose|k: int| #[trigger] scheme_ends_at(u, k);
                    if k < i - s {
                        assert(is_scheme_char(u[k]));
                    } else if k > i - s {
                        assert(is_scheme_char(u[i - s]));
                    }
                }
            }
            return false;
        }
        i = i + 1;
    }
    proof {
        if is_remote(u) {
            let k = choose|k: int| #[trigger] scheme_ends_at(u, k);
            assert(is_scheme_char(u[k]));
        }
    }
    false
}

/// Byte range of the first image reference's target when it is a local path.
/// A remote target (one that begins with a URL scheme) gives `None`, so no
/// OCR is asked for.
pub fn local_image_target(content: &str) -> (r: Option<(usize, usize)>)
    ensures
        r matches Some((s, e)) ==> local_target_of(content.spec_bytes()) == Some(
            (s as int, e as int),
        ) && s <= e <= content.spec_bytes().len(),
        r is None ==> local_target_of(content.spec_bytes()) is None,
{
    match first_image_target(content) {
        Some((s, e)) => {
            if remote_at(content.as_bytes(), s, e) {
                None
            } else {
                Some((s, e))
            }
        },
        None => None,
    }
}

/// `content` followed by the annotation block of the OCR text `t`, when `t`
/// is not empty.
pub open spec fn with_ocr(content: Seq<char>, t: Seq<char>) -> Seq<char> {
    if t.len() == 0 {
        content
    } else {
        content + "\n\n[OCR Content]: "@ + t + "\n"@
    }
}

/// Appends the annotation block of the recognised text `ocr_text`, if any.
pub fn annotate(content: String, ocr_text: &str) -> (r: String)
    ensures
        r@ == with_ocr(content@, ocr_text@),
{
    if ocr_text.is_empty() {
        content
    } else {
        let mut r = content;
        r.append("\n\n[OCR Content]: ");
        r.append(ocr_text);
        r.append("\n");
        r
    }
}

} // verus!

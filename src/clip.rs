use vstd::prelude::*;

verus! {

/// Whether `char::is_alphanumeric` holds of a character.
pub uninterp spec fn alphanumeric_char(c: char) -> bool;

/// Relies on `char::is_alphanumeric`: Unicode `Alphabetic` or `Numeric`.
#[verifier::external_body]
fn is_alphanumeric(c: char) -> (r: bool)
    ensures
        r == alphanumeric_char(c),
{
    c.is_alphanumeric()
}

/// Relies on `String`'s `FromIterator<&char>`: the characters in order.
#[verifier::external_body]
fn string_from_chars(chars: &Vec<char>) -> (r: String)
    ensures
        r@ == chars@,
{
    chars.iter().collect()
}

/// A character kept in a file name, or `_` in its place.
pub open spec fn safe_char(c: char) -> char {
    if alphanumeric_char(c) || c == ' ' || c == '-' {
        c
    } else {
        '_'
    }
}

pub open spec fn trim_start_spaces(s: Seq<char>) -> Seq<char>
    decreases s.len(),
{
    if s.len() > 0 && s[0] == ' ' {
        trim_start_spaces(s.drop_first())
    } else {
        s
    }
}

pub open spec fn trim_end_spaces(s: Seq<char>) -> Seq<char>
    decreases s.len(),
{
    if s.len() > 0 && s.last() == ' ' {
        trim_end_spaces(s.drop_last())
    } else {
        s
    }
}

/// The file name a clipped page is saved under: the title with every
/// character other than a letter, digit, space or `-` replaced by `_`,
/// without leading or trailing spaces, and the extension `.md`. No letter or
/// digit is white space, so spaces are the only white space left to trim.
pub open spec fn note_file_name_of(title: Seq<char>) -> Seq<char> {
    trim_end_spaces(trim_start_spaces(title.map_values(|c: char| safe_char(c)))) + ".md"@
}

/// The Markdown document a clipped page is saved as: a front-matter block
/// with its title, address and date, then the page's body in Markdown.
pub open spec fn note_document_of(
    title: Seq<char>,
    url: Seq<char>,
    date: Seq<char>,
    markdown: Seq<char>,
) -> Seq<char> {
    "---\ntitle: \""@ + title + "\"\nurl: \""@ + url + "\"\ndate: \""@ + date + "\"\n---\n\n"@
        + markdown
}

/// File name for a clipped page titled `title`.
pub fn note_file_name(title: &str) -> (r: String)
    ensures
        r@ == note_file_name_of(title@),
{
    let n = title.unicode_len();
    let mut v: Vec<char> = Vec::new();
    let mut i: usize = 0;
    while i < n
        invariant
            n == title@.len(),
            i <= n,
            v@ == title@.take(i as int).map_values(|c: char| safe_char(c)),
        decreases n - i,
    {
        let c = title.get_char(i);
        let k = if is_alphanumeric(c) || c == ' ' || c == '-' { c } else { '_' };
        v.push(k);
        proof {
            assert(title@.take(i + 1).map_values(|c: char| safe_char(c)) =~= title@.take(
                i as int,
            ).map_values(|c: char| safe_char(c)).push(safe_char(c)));
        }
        i = i + 1;
    }
    proof {
        assert(title@.take(n as int) =~= title@);
    }
    let ghost full = v@;
    let mut s: usize = 0;
    proof {
        assert(full.subrange(0, full.len() as int) =~= full);
    }
    while s < v.len() && v[s] == ' '
        invariant
            v@ == full,
            s <= v@.len(),
            trim_start_spaces(full) == trim_start_spaces(full.subrange(s as int, full.len() as int)),
        decreases v@.len() - s,
    {
        proof {
            let rest = full.subrange(s as int, full.len() as int);
            assert(rest.drop_first() =~= full.subrange(s + 1, full.len() as int));
        }
        s = s + 1;
    }
    let mut e: usize = v.len();
    proof {
        let rest = full.subrange(s as int, full.len() as int);
        assert(trim_start_spaces(rest) == rest);
        assert(full.subrange(s as int, e as int) == full.subrange(s as int, full.len() as int));
    }
    while e > s && v[e - 1] == ' '
        invariant
            v@ == full,
            s <= e <= v@.len(),
            trim_start_spaces(full) == full.subrange(s as int, full.len() as int),
            trim_end_spaces(trim_start_spaces(full)) == trim_end_spaces(
                full.subrange(s as int, e as int),
            ),
        decreases e,
    {
        proof {
            assert(full.subrange(s as int, e as int).drop_last() =~= full.subrange(
                s as int,
                e - 1,
            ));
        }
        e = e - 1;
    }
    let mut kept: Vec<char> = Vec::new();
    let mut j: usize = s;
    while j < e
        invariant
            v@ == full,
            s <= j <= e <= v@.len(),
            kept@ == full.subrange(s as int, j as int),
        decreases e - j,
    {
        kept.push(v[j]);
        proof {
            assert(full.subrange(s as int, j + 1) =~= full.subrange(s as int, j as int).push(
                full[j as int],
            ));
        }
        j = j + 1;
    }
    proof {
        let t = full.subrange(s as int, e as int);
        assert(trim_end_spaces(t) == t);
    }
    let mut r = string_from_chars(&kept);
    r.append(".md");
    r
}

/// The Markdown document for a clipped page; `date` is the local time of the
/// clip, already formatted, and `markdown` the page's body converted to
/// Markdown.
pub fn note_document(title: &str, url: &str, date: &str, markdown: &str) -> (r: String)
    ensures
        r@ == note_document_of(title@, url@, date@, markdown@),
{
    let mut r = String::new();
    r.append("---\ntitle: \"");
    r.append(title);
    r.append("\"\nurl: \"");
    r.append(url);
    r.append("\"\ndate: \"");
    r.append(date);
    r.append("\"\n---\n\n");
    r.append(markdown);
    proof {
        assert(r@ =~= note_document_of(title@, url@, date@, markdown@));
    }
    r
}

} // verus!

//! Line-level text primitives: trimming, case folding, junk detection and
//! keyword counting.
use vstd::prelude::*;

verus! {

/// Whether `char::is_whitespace` holds of a character (Unicode White_Space).
pub uninterp spec fn white(c: char) -> bool;

/// Number of white-space characters that open `s`.
pub open spec fn leading_white(s: Seq<char>) -> nat
    decreases s.len(),
{
    if s.len() > 0 && white(s[0]) {
        1 + leading_white(s.drop_first())
    } else {
        0
    }
}

/// Number of white-space characters that close `s`.
pub open spec fn trailing_white(s: Seq<char>) -> nat
    decreases s.len(),
{
    if s.len() > 0 && white(s.last()) {
        1 + trailing_white(s.drop_last())
    } else {
        0
    }
}

/// `s` without its leading and trailing white space.
pub open spec fn trim_of(s: Seq<char>) -> Seq<char> {
    if leading_white(s) >= s.len() {
        seq![]
    } else {
        s.subrange(leading_white(s) as int, s.len() - trailing_white(s))
    }
}

/// What `str::to_lowercase` makes of a string.
pub uninterp spec fn lower_of(s: Seq<char>) -> Seq<char>;

/// Whether `char::is_alphanumeric` holds of a character.
pub uninterp spec fn alnum(c: char) -> bool;

/// The lines that `str::lines` yields for a string.
pub uninterp spec fn lines_of(s: Seq<char>) -> Seq<Seq<char>>;

/// Relies on `str::trim`: removes the leading and trailing characters with
/// the Unicode White_Space property, the same test as `char::is_whitespace`.
#[verifier::external_body]
pub(crate) fn trim_str<'a>(s: &'a str) -> (r: &'a str)
    ensures
        r@ == trim_of(s@),
{
    s.trim()
}

pub open spec fn is_ascii_char(c: char) -> bool {
    (c as u32) < 128
}

/// `l` is the ASCII lower case of the ASCII character `c`.
pub open spec fn ascii_lower(c: char, l: char) -> bool {
    if 'A' <= c <= 'Z' {
        l as u32 == c as u32 + 32
    } else {
        l == c
    }
}

/// Relies on `str::to_lowercase`: the result depends on the characters alone,
/// and on ASCII text it lower-cases the letters A to Z one for one.
#[verifier::external_body]
pub(crate) fn lowercase(s: &str) -> (r: String)
    ensures
        r@ == lower_of(s@),
        (forall|i: int| 0 <= i < s@.len() ==> is_ascii_char(#[trigger] s@[i])) ==> r@.len()
            == s@.len() && forall|i: int| 0 <= i < s@.len() ==> ascii_lower(s@[i], #[trigger] r@[i]),
{
    s.to_lowercase()
}

/// Relies on `char::is_whitespace` (Unicode White_Space).
#[verifier::external_body]
pub(crate) fn is_white(c: char) -> (r: bool)
    ensures
        r == white(c),
{
    c.is_whitespace()
}

/// Relies on `char::is_alphanumeric` (Unicode Alphabetic or Numeric); among
/// ASCII characters these are the digits and the letters.
#[verifier::external_body]
fn is_alnum(c: char) -> (r: bool)
    ensures
        r == alnum(c),
        is_ascii_char(c) ==> (r <==> ('0' <= c <= '9' || 'a' <= c <= 'z' || 'A' <= c <= 'Z')),
{
    c.is_alphanumeric()
}

/// The characters of a string, in order.
pub(crate) fn chars_of(s: &str) -> (r: Vec<char>)
    ensures
        r@ == s@,
{
    let n = s.unicode_len();
    let mut out: Vec<char> = Vec::new();
    let mut i: usize = 0;
    while i < n
        invariant
            i <= n,
            n == s@.len(),
            out@ == s@.take(i as int),
        decreases n - i,
    {
        out.push(s.get_char(i));
        assert(out@ =~= s@.take(i + 1));
        i += 1;
    }
    assert(s@.take(n as int) =~= s@);
    out
}

/// Relies on `str::lines`: the result depends on the characters alone.
#[verifier::external_body]
pub(crate) fn split_lines(s: &str) -> (r: Vec<String>)
    ensures
        r.deep_view() == lines_of(s@),
{
    s.lines().map(|l| l.to_string()).collect()
}

/// A trimmed line that carries no menu content: empty, without any
/// alphanumeric character, or a lone ditto mark.
pub open spec fn junk(trimmed: Seq<char>) -> bool {
    ||| trimmed.len() == 0
    ||| (forall|i: int| 0 <= i < trimmed.len() ==> !alnum(#[trigger] trimmed[i]))
    ||| trimmed == seq!['"']
}

/// Decides whether an already trimmed line is junk. The lower-cased form of
/// the line is accepted for the callers' convenience and does not affect the
/// outcome.
pub fn is_junk_line(trimmed: &str, lower: &str) -> (r: bool)
    ensures
        r == junk(trimmed@),
{
    is_junk(trimmed)
}

/// Decides whether an already trimmed line is junk.
pub(crate) fn is_junk(trimmed: &str) -> (r: bool)
    ensures
        r == junk(trimmed@),
{
    let cs = chars_of(trimmed);
    if cs.len() == 0 {
        return true;
    }
    let mut i: usize = 0;
    let mut all_blank = true;
    while i < cs.len()
        invariant
            i <= cs.len(),
            cs@ == trimmed@,
            all_blank == (forall|j: int| 0 <= j < i ==> !alnum(#[trigger] cs@[j])),
        decreases cs.len() - i,
    {
        if is_alnum(cs[i]) {
            all_blank = false;
        }
        i += 1;
    }
    if all_blank {
        return true;
    }
    if cs.len() == 1 && cs[0] == '"' {
        assert(trimmed@ =~= seq!['"']);
        return true;
    }
    assert(trimmed@ != seq!['"']) by {
        if trimmed@ == seq!['"'] {
            assert(cs@[0] == '"');
        }
    }
    false
}

/// Number of non-overlapping occurrences of `p` in `s`, scanning left to right.
pub open spec fn match_count(s: Seq<char>, p: Seq<char>) -> nat
    decreases s.len(),
{
    if p.len() == 0 || s.len() < p.len() {
        0
    } else if s.subrange(0, p.len() as int) == p {
        1 + match_count(s.subrange(p.len() as int, s.len() as int), p)
    } else {
        match_count(s.subrange(1, s.len() as int), p)
    }
}

fn matches_at(s: &Vec<char>, p: &Vec<char>, i: usize) -> (r: bool)
    requires
        i + p.len() <= s.len(),
    ensures
        r == (s@.subrange(i as int, i + p.len()) == p@),
{
    let mut k: usize = 0;
    while k < p.len()
        invariant
            k <= p.len(),
            i + p.len() <= s.len(),
            forall|j: int| 0 <= j < k ==> s@[i + j] == p@[j],
        decreases p.len() - k,
    {
        if s[i + k] != p[k] {
            assert(s@.subrange(i as int, i + p.len())[k as int] != p@[k as int]);
            return false;
        }
        k += 1;
    }
    assert(s@.subrange(i as int, i + p.len()) =~= p@);
    true
}

/// Counts the non-overlapping occurrences of `p` in `s`.
pub fn count_matches(s: &Vec<char>, p: &Vec<char>) -> (r: usize)
    requires
        p.len() > 0,
    ensures
        r == match_count(s@, p@),
{
    let mut i: usize = 0;
    let mut c: usize = 0;
    assert(s@.subrange(0, s.len() as int) =~= s@);
    while i <= s.len() && s.len() - i >= p.len()
        invariant
            i <= s.len(),
            p.len() > 0,
            c <= i,
            c + match_count(s@.subrange(i as int, s.len() as int), p@) == match_count(s@, p@),
        decreases s.len() - i,
    {
        let ghost rest = s@.subrange(i as int, s.len() as int);
        assert(rest.subrange(0, p.len() as int) =~= s@.subrange(i as int, i + p.len()));
        if matches_at(s, p, i) {
            assert(rest.subrange(p.len() as int, rest.len() as int) =~= s@.subrange(
                i + p.len(),
                s.len() as int,
            ));
            c += 1;
            i += p.len();
        } else {
            assert(rest.subrange(1, rest.len() as int) =~= s@.subrange(i + 1, s.len() as int));
            i += 1;
        }
    }
    c
}

} // verus!

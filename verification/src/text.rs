use vstd::prelude::*;
use vstd::string::StrSliceExecFns;
use vstd::string::StringExecFns;

verus! {

/// The characters with the Unicode White_Space property, the ones that
/// str::trim and str::split_whitespace treat as blank.
pub open spec fn is_wspace(c: char) -> bool {
    ||| c == '\u{9}'
    ||| c == '\u{A}'
    ||| c == '\u{B}'
    ||| c == '\u{C}'
    ||| c == '\u{D}'
    ||| c == ' '
    ||| c == '\u{85}'
    ||| c == '\u{A0}'
    ||| c == '\u{1680}'
    ||| ('\u{2000}' <= c && c <= '\u{200A}')
    ||| c == '\u{2028}'
    ||| c == '\u{2029}'
    ||| c == '\u{202F}'
    ||| c == '\u{205F}'
    ||| c == '\u{3000}'
}

/// The position of the first occurrence of c at or after `from`, or -1.
pub open spec fn find_char(s: Seq<char>, c: char, from: int) -> int
    decreases s.len() - from,
{
    if from < 0 || from >= s.len() {
        -1
    } else if s[from] == c {
        from
    } else {
        find_char(s, c, from + 1)
    }
}

/// A string split at every occurrence of sep; empty segments are kept,
/// and a string without the separator is one segment, even when empty.
pub open spec fn spec_split(s: Seq<char>, sep: char) -> Seq<Seq<char>>
    decreases s.len(),
{
    let i = find_char(s, sep, 0);
    if i < 0 || i >= s.len() {
        seq![s]
    } else {
        seq![s.take(i)] + spec_split(s.skip(i + 1), sep)
    }
}

/// A segment with one carriage return dropped from its end, as the line
/// splitter drops it before a line feed.
pub open spec fn strip_cr(s: Seq<char>) -> Seq<char> {
    if s.len() > 0 && s.last() == '\r' {
        s.drop_last()
    } else {
        s
    }
}

/// The lines of a string: split at every line feed, with a carriage
/// return directly before the line feed dropped, and with no empty last
/// line after a final line feed.
pub open spec fn spec_lines(s: Seq<char>) -> Seq<Seq<char>>
    decreases s.len(),
{
    if s.len() == 0 {
        Seq::empty()
    } else {
        let i = find_char(s, '\n', 0);
        if i < 0 || i >= s.len() {
            seq![s]
        } else {
            seq![strip_cr(s.take(i))] + spec_lines(s.skip(i + 1))
        }
    }
}

/// The position of the first occurrence of the two-character pattern
/// c0 c1, or -1.
pub open spec fn find_pair(s: Seq<char>, c0: char, c1: char, from: int) -> int
    decreases s.len() - from,
{
    if from < 0 || from + 2 > s.len() {
        -1
    } else if s[from] == c0 && s[from + 1] == c1 {
        from
    } else {
        find_pair(s, c0, c1, from + 1)
    }
}

/// A string split at the first occurrence of the pattern c0 c1 into the
/// parts before and after, or nothing when the pattern does not occur.
pub open spec fn spec_split_once2(s: Seq<char>, c0: char, c1: char) -> Option<(Seq<char>, Seq<
    char,
>)> {
    let i = find_pair(s, c0, c1, 0);
    if i < 0 {
        None
    } else {
        Some((s.take(i), s.skip(i + 2)))
    }
}

/// A string without its leading blank characters.
pub open spec fn trim_start(s: Seq<char>) -> Seq<char>
    decreases s.len(),
{
    if s.len() > 0 && is_wspace(s.first()) {
        trim_start(s.skip(1))
    } else {
        s
    }
}

/// A string without its trailing blank characters.
pub open spec fn trim_end(s: Seq<char>) -> Seq<char>
    decreases s.len(),
{
    if s.len() > 0 && is_wspace(s.last()) {
        trim_end(s.drop_last())
    } else {
        s
    }
}

/// A string without leading and trailing blank characters.
pub open spec fn spec_trim(s: Seq<char>) -> Seq<char> {
    trim_end(trim_start(s))
}

/// The blank-separated words of a string: maximal runs of non-blank
/// characters, with no empty words.
pub open spec fn spec_split_ws(s: Seq<char>) -> Seq<Seq<char>>
    decreases s.len(),
{
    if s.len() == 0 {
        Seq::empty()
    } else if is_wspace(s.first()) {
        spec_split_ws(s.skip(1))
    } else {
        let i = first_wspace(s, 0);
        if i < 1 || i >= s.len() {
            seq![s]
        } else {
            seq![s.take(i)] + spec_split_ws(s.skip(i))
        }
    }
}

/// The position of the first blank character at or after `from`, or -1.
pub open spec fn first_wspace(s: Seq<char>, from: int) -> int
    decreases s.len() - from,
{
    if from < 0 || from >= s.len() {
        -1
    } else if is_wspace(s[from]) {
        from
    } else {
        first_wspace(s, from + 1)
    }
}

/// What str::to_lowercase returns for a given character sequence; the
/// Unicode lowering table is not written out here, so the name is the
/// only thing the library states about it.
pub uninterp spec fn lower_of(s: Seq<char>) -> Seq<char>;

/// Lowercased copy of a string.
/// Relies on str::to_lowercase: its result depends on the characters of
/// the receiver alone.
#[verifier::external_body]
pub fn lower(s: &str) -> (r: String)
    ensures
        r@ == lower_of(s@),
{
    s.to_lowercase()
}

/// The lines of a string.
/// Relies on str::lines: it yields the pieces between line feeds, drops a
/// carriage return standing directly before a line feed, and yields no
/// empty final line after a closing line feed.
#[verifier::external_body]
pub fn lines_of(s: &str) -> (r: Vec<String>)
    ensures
        r@.len() == spec_lines(s@).len(),
        forall|i: int| 0 <= i < r@.len() ==> r@[i]@ == spec_lines(s@)[i],
{
    s.lines().map(|x| x.to_string()).collect()
}

/// The pieces of a string around every occurrence of a separator.
/// Relies on str::split with a char pattern: it yields the pieces between
/// occurrences, keeping empty ones, and yields one piece for a string
/// without the separator.
#[verifier::external_body]
pub fn split_char(s: &str, sep: char) -> (r: Vec<String>)
    ensures
        r@.len() == spec_split(s@, sep).len(),
        forall|i: int| 0 <= i < r@.len() ==> r@[i]@ == spec_split(s@, sep)[i],
{
    s.split(sep).map(|x| x.to_string()).collect()
}

/// A string split at the first ": " into the parts before and after.
/// Relies on str::split_once: it splits at the first occurrence of the
/// pattern and returns nothing when the pattern is absent.
#[verifier::external_body]
pub fn split_label(s: &str) -> (r: Option<(String, String)>)
    ensures
        match r {
            Some(p) => spec_split_once2(s@, ':', ' ') == Some((p.0@, p.1@)),
            None => spec_split_once2(s@, ':', ' ') is None,
        },
{
    match s.split_once(": ") {
        Some((a, b)) => Some((a.to_string(), b.to_string())),
        None => None,
    }
}

/// A copy of a string without leading and trailing blanks.
/// Relies on str::trim: it removes the characters with the Unicode
/// White_Space property from both ends.
#[verifier::external_body]
pub fn trim_str(s: &str) -> (r: String)
    ensures
        r@ == spec_trim(s@),
{
    s.trim().to_string()
}

/// The blank-separated words of a string.
/// Relies on str::split_whitespace: it yields the maximal runs of
/// non-blank characters, skipping all Unicode white space.
#[verifier::external_body]
pub fn split_ws(s: &str) -> (r: Vec<String>)
    ensures
        r@.len() == spec_split_ws(s@).len(),
        forall|i: int| 0 <= i < r@.len() ==> r@[i]@ == spec_split_ws(s@)[i],
{
    s.split_whitespace().map(|x| x.to_string()).collect()
}

/// Strict lexicographic order on character sequences, by code point; the
/// order a comparison of string slices decides.
pub open spec fn lex_lt(a: Seq<char>, b: Seq<char>) -> bool
    decreases a.len(),
{
    if b.len() == 0 {
        false
    } else if a.len() == 0 {
        true
    } else if a.first() != b.first() {
        a.first() < b.first()
    } else {
        lex_lt(a.skip(1), b.skip(1))
    }
}

/// Decides lex_lt on two strings.
pub fn str_lt(a: &str, b: &str) -> (r: bool)
    ensures
        r == lex_lt(a@, b@),
{
    let alen = a.unicode_len();
    let blen = b.unicode_len();
    proof {
        assert(a@.skip(0) =~= a@);
        assert(b@.skip(0) =~= b@);
    }
    let mut i: usize = 0;
    while i < alen && i < blen
        invariant
            alen == a@.len(),
            blen == b@.len(),
            i <= alen,
            i <= blen,
            lex_lt(a@, b@) == lex_lt(a@.skip(i as int), b@.skip(i as int)),
        decreases alen - i,
    {
        let ca = a.get_char(i);
        let cb = b.get_char(i);
        if ca != cb {
            return ca < cb;
        }
        proof {
            assert(a@.skip(i as int).skip(1) =~= a@.skip(i + 1));
            assert(b@.skip(i as int).skip(1) =~= b@.skip(i + 1));
        }
        i = i + 1;
    }
    alen < blen
}

/// The digit character of a value below ten.
pub open spec fn digit_char(d: int) -> char {
    if d == 0 {
        '0'
    } else if d == 1 {
        '1'
    } else if d == 2 {
        '2'
    } else if d == 3 {
        '3'
    } else if d == 4 {
        '4'
    } else if d == 5 {
        '5'
    } else if d == 6 {
        '6'
    } else if d == 7 {
        '7'
    } else if d == 8 {
        '8'
    } else {
        '9'
    }
}

/// The decimal rendering of a natural number, no sign and no leading
/// zeros except for the number 0 itself.
pub open spec fn dec_str(n: int) -> Seq<char>
    decreases n,
{
    if n < 10 {
        seq![digit_char(n)]
    } else {
        dec_str(n / 10).push(digit_char(n % 10))
    }
}

fn digit_str(d: usize) -> (r: &'static str)
    requires
        d < 10,
    ensures
        r@ == seq![digit_char(d as int)],
{
    let r = if d == 0 {
        "0"
    } else if d == 1 {
        "1"
    } else if d == 2 {
        "2"
    } else if d == 3 {
        "3"
    } else if d == 4 {
        "4"
    } else if d == 5 {
        "5"
    } else if d == 6 {
        "6"
    } else if d == 7 {
        "7"
    } else if d == 8 {
        "8"
    } else {
        "9"
    };
    proof {
        reveal_strlit("0");
        reveal_strlit("1");
        reveal_strlit("2");
        reveal_strlit("3");
        reveal_strlit("4");
        reveal_strlit("5");
        reveal_strlit("6");
        reveal_strlit("7");
        reveal_strlit("8");
        reveal_strlit("9");
        assert(r@ =~= seq![digit_char(d as int)]);
    }
    r
}

/// Renders a number in decimal.
pub fn usize_to_string(n: usize) -> (s: String)
    ensures
        s@ == dec_str(n as int),
    decreases n,
{
    if n < 10 {
        String::from_str(digit_str(n))
    } else {
        let mut s = usize_to_string(n / 10);
        s.append(digit_str(n % 10));
        proof {
            assert(s@ =~= dec_str(n as int));
        }
        s
    }
}

} // verus!

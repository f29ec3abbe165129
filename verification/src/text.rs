//! Character-level text helpers shared by the other modules.
use vstd::prelude::*;
use vstd::string::StringExecFns;

verus! {

/// Unicode `White_Space` characters.
pub open spec fn is_ws(c: char) -> bool {
    ||| ('\u{9}' <= c && c <= '\u{d}')
    ||| c == ' '
    ||| c == '\u{85}'
    ||| c == '\u{a0}'
    ||| c == '\u{1680}'
    ||| ('\u{2000}' <= c && c <= '\u{200a}')
    ||| c == '\u{2028}'
    ||| c == '\u{2029}'
    ||| c == '\u{202f}'
    ||| c == '\u{205f}'
    ||| c == '\u{3000}'
}

/// ASCII letters and digits.
pub open spec fn is_alnum(c: char) -> bool {
    ||| ('a' <= c && c <= 'z')
    ||| ('A' <= c && c <= 'Z')
    ||| ('0' <= c && c <= '9')
}

/// ASCII hexadecimal digits.
pub open spec fn is_hex(c: char) -> bool {
    ||| ('a' <= c && c <= 'f')
    ||| ('A' <= c && c <= 'F')
    ||| ('0' <= c && c <= '9')
}

/// ASCII letters.
pub open spec fn is_alpha(c: char) -> bool {
    ||| ('a' <= c && c <= 'z')
    ||| ('A' <= c && c <= 'Z')
}

/// ASCII lowercase mapping: `A`..`Z` become `a`..`z`, the rest stay.
pub open spec fn ascii_lower(c: char) -> char {
    if 'A' <= c && c <= 'Z' {
        ((c as u32) + 32) as char
    } else {
        c
    }
}

pub open spec fn ascii_lower_seq(s: Seq<char>) -> Seq<char> {
    s.map_values(|c: char| ascii_lower(c))
}

pub fn char_is_ws(c: char) -> (r: bool)
    ensures
        r == is_ws(c),
{
    ('\u{9}' <= c && c <= '\u{d}') || c == ' ' || c == '\u{85}' || c == '\u{a0}' || c
        == '\u{1680}' || ('\u{2000}' <= c && c <= '\u{200a}') || c == '\u{2028}' || c
        == '\u{2029}' || c == '\u{202f}' || c == '\u{205f}' || c == '\u{3000}'
}

pub fn char_is_alnum(c: char) -> (r: bool)
    ensures
        r == is_alnum(c),
{
    ('a' <= c && c <= 'z') || ('A' <= c && c <= 'Z') || ('0' <= c && c <= '9')
}

pub fn char_is_hex(c: char) -> (r: bool)
    ensures
        r == is_hex(c),
{
    ('a' <= c && c <= 'f') || ('A' <= c && c <= 'F') || ('0' <= c && c <= '9')
}

pub fn char_is_alpha(c: char) -> (r: bool)
    ensures
        r == is_alpha(c),
{
    ('a' <= c && c <= 'z') || ('A' <= c && c <= 'Z')
}

pub fn char_ascii_lower(c: char) -> (r: char)
    ensures
        r == ascii_lower(c),
{
    if 'A' <= c && c <= 'Z' {
        let v: u32 = (c as u32) + 32;
        assert(0x61 <= v <= 0x7a);
        char_from_ascii(v)
    } else {
        c
    }
}

/// The character with an ASCII code point.
fn char_from_ascii(v: u32) -> (r: char)
    requires
        v < 128,
    ensures
        r == v as char,
{
    let b: u8 = v as u8;
    b as char
}

/// The characters of a string slice.
pub(crate) fn chars_of(s: &str) -> (r: Vec<char>)
    ensures
        r@ == s@,
{
    broadcast use {vstd::string::axiom_spec_iter, vstd::string::next_postcondition};

    let mut it = s.chars();
    let mut out: Vec<char> = Vec::new();
    loop
        invariant
            vstd::std_specs::iter::IteratorSpec::obeys_prophetic_iter_laws(&it),
            out@ + vstd::std_specs::iter::IteratorSpec::remaining(&it) == s@,
            vstd::std_specs::iter::IteratorSpec::decrease(&it) is Some,
        ensures
            out@ == s@,
        decreases vstd::std_specs::iter::IteratorSpec::decrease(&it)->0,
    {
        let ghost before = vstd::std_specs::iter::IteratorSpec::remaining(&it);
        match it.next() {
            Some(c) => {
                out.push(c);
                assert(before =~= seq![c] + vstd::std_specs::iter::IteratorSpec::remaining(&it));
                assert(out@ + vstd::std_specs::iter::IteratorSpec::remaining(&it) =~= s@);
            },
            None => {
                assert(out@ =~= s@);
                break;
            },
        }
    }
    out
}

/// Appends one character to a string.
#[verifier::external_body]
pub(crate) fn push_char(s: &mut String, c: char)
    ensures
        final(s)@ == old(s)@.push(c),
{
    s.push(c)
}

/// The Unicode lowercase mapping of a string, as `str::to_lowercase` computes it.
pub uninterp spec fn unicode_lowercase(s: Seq<char>) -> Seq<char>;

/// Calls `str::to_lowercase`; its result, which follows the Unicode case
/// tables, is named and not described further.
#[verifier::external_body]
pub(crate) fn to_lowercase(s: &str) -> (r: String)
    ensures
        r@ == unicode_lowercase(s@),
{
    s.to_lowercase()
}

/// A string holding exactly the given characters.
pub fn string_from_chars(cs: &Vec<char>) -> (r: String)
    ensures
        r@ == cs@,
{
    let mut r = String::new();
    let mut i: usize = 0;
    while i < cs.len()
        invariant
            i <= cs.len(),
            r@ == cs@.take(i as int),
        decreases cs.len() - i,
    {
        push_char(&mut r, cs[i]);
        assert(r@ =~= cs@.take(i + 1));
        i = i + 1;
    }
    assert(cs@.take(cs.len() as int) =~= cs@);
    r
}

/// Appends a string slice to a string.
pub fn append_str(s: &mut String, t: &str)
    ensures
        final(s)@ == old(s)@ + t@,
{
    s.append(t);
}

/// A new string holding the concatenation of two slices.
pub fn concat2(a: &str, b: &str) -> (r: String)
    ensures
        r@ == a@ + b@,
{
    let mut r = a.to_owned();
    r.append(b);
    r
}

/// The character sequences held by a vector of character vectors.
pub open spec fn chars_seqs(v: Seq<Vec<char>>) -> Seq<Seq<char>> {
    v.map_values(|w: Vec<char>| w@)
}

/// Whether `needle` occurs in `hay` at position `i`.
pub open spec fn occurs_at(hay: Seq<char>, needle: Seq<char>, i: int) -> bool {
    0 <= i && i + needle.len() <= hay.len() && hay.subrange(i, i + needle.len()) == needle
}

/// Whether `needle` occurs somewhere in `hay` (the empty needle always does).
pub open spec fn contains_seq(hay: Seq<char>, needle: Seq<char>) -> bool {
    exists|i: int| occurs_at(hay, needle, i)
}

fn occurs_at_exec(hay: &Vec<char>, needle: &Vec<char>, i: usize) -> (r: bool)
    requires
        i + needle.len() <= hay.len(),
    ensures
        r == occurs_at(hay@, needle@, i as int),
{
    let mut k: usize = 0;
    while k < needle.len()
        invariant
            k <= needle.len(),
            i + needle.len() <= hay.len(),
            forall|q: int| 0 <= q < k ==> hay@[i + q] == needle@[q],
        decreases needle.len() - k,
    {
        if hay[i + k] != needle[k] {
            assert(hay@.subrange(i as int, i + needle.len())[k as int] != needle@[k as int]);
            return false;
        }
        k = k + 1;
    }
    assert(hay@.subrange(i as int, i + needle.len()) =~= needle@);
    true
}

/// Whether `needle` occurs somewhere in `hay`.
pub fn contains_chars(hay: &Vec<char>, needle: &Vec<char>) -> (r: bool)
    ensures
        r == contains_seq(hay@, needle@),
{
    if needle.len() == 0 {
        assert(hay@.subrange(0, 0) =~= needle@);
        assert(occurs_at(hay@, needle@, 0));
        return true;
    }
    if needle.len() > hay.len() {
        return false;
    }
    let last = hay.len() - needle.len();
    let mut i: usize = 0;
    while i <= last
        invariant
            last + needle.len() == hay.len(),
            needle.len() >= 1,
            i <= last + 1,
            forall|q: int| 0 <= q < i ==> !occurs_at(hay@, needle@, q),
        decreases last + 1 - i,
    {
        if occurs_at_exec(hay, needle, i) {
            return true;
        }
        i = i + 1;
    }
    assert forall|q: int| !occurs_at(hay@, needle@, q) by {
        if 0 <= q && q + needle.len() <= hay.len() {
            assert(q <= last);
        }
    }
    false
}

/// Whether `needle` occurs somewhere in `hay`.
pub fn str_contains(hay: &str, needle: &str) -> (r: bool)
    ensures
        r == contains_seq(hay@, needle@),
{
    let h = chars_of(hay);
    let n = chars_of(needle);
    contains_chars(&h, &n)
}

/// Whether `s` begins with `prefix`.
pub open spec fn starts_with_seq(s: Seq<char>, prefix: Seq<char>) -> bool {
    prefix.len() <= s.len() && s.take(prefix.len() as int) == prefix
}

/// Number of whitespace-separated words: positions holding a non-space
/// character that starts the text or follows a space.
pub open spec fn word_count(s: Seq<char>) -> nat
    decreases s.len(),
{
    if s.len() == 0 {
        0
    } else {
        word_count(s.drop_last()) + if !is_ws(s.last()) && (s.len() == 1 || is_ws(
            s[s.len() - 2],
        )) {
            1nat
        } else {
            0nat
        }
    }
}

pub proof fn lemma_word_count_le(s: Seq<char>)
    ensures
        word_count(s) <= s.len(),
    decreases s.len(),
{
    if s.len() > 0 {
        lemma_word_count_le(s.drop_last());
    }
}

/// The number of whitespace-separated words of `s`.
pub fn count_words(s: &str) -> (r: usize)
    ensures
        r == word_count(s@),
{
    let cs = chars_of(s);
    let mut count: usize = 0;
    let mut i: usize = 0;
    while i < cs.len()
        invariant
            i <= cs.len(),
            cs@ == s@,
            count == word_count(cs@.take(i as int)),
        decreases cs.len() - i,
    {
        proof {
            lemma_word_count_le(cs@.take(i as int));
            assert(cs@.take(i + 1).drop_last() =~= cs@.take(i as int));
        }
        let starts = !char_is_ws(cs[i]) && (i == 0 || char_is_ws(cs[i - 1]));
        if starts {
            count = count + 1;
        }
        i = i + 1;
    }
    assert(cs@.take(cs.len() as int) =~= cs@);
    count
}

/// Number of lines as `str::lines` yields them: one per line feed, plus one
/// for a last line that does not end in a line feed.
pub open spec fn line_count(s: Seq<char>) -> nat {
    s.filter(|c: char| c == '\n').len() + if s.len() > 0 && s.last() != '\n' {
        1nat
    } else {
        0nat
    }
}

/// The number of lines of `s`.
pub fn count_lines(s: &str) -> (r: usize)
    ensures
        r == line_count(s@),
{
    let cs = chars_of(s);
    let mut count: usize = 0;
    let mut i: usize = 0;
    while i < cs.len()
        invariant
            i <= cs.len(),
            cs@ == s@,
            count == cs@.take(i as int).filter(|c: char| c == '\n').len(),
            count <= i,
            i > 0 && cs@[i - 1] != '\n' ==> count < i,
        decreases cs.len() - i,
    {
        proof {
            assert(cs@.take(i + 1).drop_last() =~= cs@.take(i as int));
            reveal_with_fuel(Seq::filter, 1);
        }
        if cs[i] == '\n' {
            count = count + 1;
        }
        i = i + 1;
    }
    assert(cs@.take(cs.len() as int) =~= cs@);
    if cs.len() > 0 && cs[cs.len() - 1] != '\n' {
        count + 1
    } else {
        count
    }
}

/// Decimal digits of `v`, most significant first, padded with zeros to at
/// least `width` digits.
pub open spec fn decimal_digits(v: nat, width: nat) -> Seq<char>
    decreases width, v,
{
    if v < 10 && width <= 1 {
        seq![digit_char(v)]
    } else {
        decimal_digits(v / 10, if width > 0 {
            (width - 1) as nat
        } else {
            0
        }).push(digit_char(v % 10))
    }
}

pub open spec fn digit_char(d: nat) -> char {
    ((d + 48) as u32) as char
}

/// Lowercase hexadecimal digits of `v`, most significant first, padded with
/// zeros to at least `width` digits.
pub open spec fn hex_digits(v: nat, width: nat) -> Seq<char>
    decreases width, v,
{
    if v < 16 && width <= 1 {
        seq![hex_char(v)]
    } else {
        hex_digits(v / 16, if width > 0 {
            (width - 1) as nat
        } else {
            0
        }).push(hex_char(v % 16))
    }
}

pub open spec fn hex_char(d: nat) -> char {
    if d < 10 {
        ((d + 48) as u32) as char
    } else {
        ((d + 87) as u32) as char
    }
}

/// The decimal rendering of `v` with at least `width` digits.
pub fn format_decimal(v: u64, width: usize) -> (r: String)
    requires
        width <= 64,
    ensures
        r@ == decimal_digits(v as nat, width as nat),
{
    let cs = decimal_chars(v, width);
    string_from_chars(&cs)
}

fn decimal_chars(v: u64, width: usize) -> (r: Vec<char>)
    requires
        width <= 64,
    ensures
        r@ == decimal_digits(v as nat, width as nat),
    decreases width, v,
{
    if v < 10 && width <= 1 {
        let mut r = Vec::new();
        r.push(char_from_ascii((v as u32) + 48));
        r
    } else {
        let w = if width > 0 {
            width - 1
        } else {
            0
        };
        let mut r = decimal_chars(v / 10, w);
        r.push(char_from_ascii(((v % 10) as u32) + 48));
        r
    }
}

/// The lowercase hexadecimal rendering of `v` with at least `width` digits.
pub fn format_hex(v: u32, width: usize) -> (r: String)
    requires
        width <= 64,
    ensures
        r@ == hex_digits(v as nat, width as nat),
{
    let cs = hex_chars(v, width);
    string_from_chars(&cs)
}

fn hex_chars(v: u32, width: usize) -> (r: Vec<char>)
    requires
        width <= 64,
    ensures
        r@ == hex_digits(v as nat, width as nat),
    decreases width, v,
{
    if v < 16 && width <= 1 {
        let mut r = Vec::new();
        r.push(hex_digit_char(v));
        r
    } else {
        let w = if width > 0 {
            width - 1
        } else {
            0
        };
        let mut r = hex_chars(v / 16, w);
        r.push(hex_digit_char(v % 16));
        r
    }
}

fn hex_digit_char(d: u32) -> (r: char)
    requires
        d < 16,
    ensures
        r == hex_char(d as nat),
{
    if d < 10 {
        char_from_ascii(d + 48)
    } else {
        char_from_ascii(d + 87)
    }
}

/// `s` without its leading whitespace.
pub open spec fn trim_start_ws(s: Seq<char>) -> Seq<char>
    decreases s.len(),
{
    if s.len() > 0 && is_ws(s[0]) {
        trim_start_ws(s.drop_first())
    } else {
        s
    }
}

/// `s` without its trailing whitespace.
pub open spec fn trim_end_ws(s: Seq<char>) -> Seq<char>
    decreases s.len(),
{
    if s.len() > 0 && is_ws(s.last()) {
        trim_end_ws(s.drop_last())
    } else {
        s
    }
}

/// `s` without leading and trailing whitespace, as `str::trim` leaves it.
pub open spec fn trim_ws(s: Seq<char>) -> Seq<char> {
    trim_end_ws(trim_start_ws(s))
}

/// The characters of `cs` without leading and trailing whitespace.
pub fn trim_ws_chars(cs: &Vec<char>) -> (r: Vec<char>)
    ensures
        r@ == trim_ws(cs@),
{
    let ghost s = cs@;
    let mut lo: usize = 0;
    assert(s.subrange(0, s.len() as int) =~= s);
    while lo < cs.len() && char_is_ws(cs[lo])
        invariant
            lo <= cs.len(),
            s == cs@,
            trim_start_ws(s) == trim_start_ws(s.subrange(lo as int, s.len() as int)),
        decreases cs.len() - lo,
    {
        proof {
            let t = s.subrange(lo as int, s.len() as int);
            assert(t.drop_first() =~= s.subrange(lo + 1, s.len() as int));
        }
        lo = lo + 1;
    }
    let ghost front = s.subrange(lo as int, s.len() as int);
    assert(trim_start_ws(front) == front);
    let mut hi: usize = cs.len();
    assert(front =~= s.subrange(lo as int, hi as int));
    while hi > lo && char_is_ws(cs[hi - 1])
        invariant
            lo <= hi <= cs.len(),
            s == cs@,
            front == s.subrange(lo as int, s.len() as int),
            trim_end_ws(front) == trim_end_ws(s.subrange(lo as int, hi as int)),
        decreases hi,
    {
        proof {
            let t = s.subrange(lo as int, hi as int);
            assert(t.drop_last() =~= s.subrange(lo as int, hi - 1));
        }
        hi = hi - 1;
    }
    let mut r: Vec<char> = Vec::new();
    let mut k: usize = lo;
    while k < hi
        invariant
            lo <= k <= hi <= cs.len(),
            s == cs@,
            r@ == s.subrange(lo as int, k as int),
        decreases hi - k,
    {
        r.push(cs[k]);
        assert(r@ =~= s.subrange(lo as int, k + 1));
        k = k + 1;
    }
    r
}

/// `s` without leading and trailing whitespace.
pub fn trim_str(s: &str) -> (r: String)
    ensures
        r@ == trim_ws(s@),
{
    let cs = chars_of(s);
    let t = trim_ws_chars(&cs);
    string_from_chars(&t)
}

/// The characters of `s`, each mapped by ASCII lowercasing.
pub fn ascii_lowercase_chars(cs: &Vec<char>) -> (r: Vec<char>)
    ensures
        r@ == ascii_lower_seq(cs@),
{
    let mut r: Vec<char> = Vec::new();
    let mut i: usize = 0;
    while i < cs.len()
        invariant
            i <= cs.len(),
            r@ == ascii_lower_seq(cs@.take(i as int)),
        decreases cs.len() - i,
    {
        r.push(char_ascii_lower(cs[i]));
        assert(ascii_lower_seq(cs@.take(i + 1)) =~= ascii_lower_seq(cs@.take(i as int)).push(
            ascii_lower(cs@[i as int]),
        ));
        i = i + 1;
    }
    assert(cs@.take(cs.len() as int) =~= cs@);
    r
}

// ---------------------------------------------------------------------------
// Lexicographic order
// ---------------------------------------------------------------------------

/// `a` sorts before `b` character by character, a proper prefix first. On
/// strings this is the order of `str`'s comparison, since UTF-8 keeps the
/// order of code points.
pub open spec fn lex_lt(a: Seq<char>, b: Seq<char>) -> bool
    decreases a.len(),
{
    if a.len() == 0 {
        b.len() > 0
    } else if b.len() == 0 {
        false
    } else if a[0] != b[0] {
        a[0] < b[0]
    } else {
        lex_lt(a.drop_first(), b.drop_first())
    }
}

pub proof fn lemma_lex_irreflexive(a: Seq<char>)
    ensures
        !lex_lt(a, a),
    decreases a.len(),
{
    if a.len() > 0 {
        lemma_lex_irreflexive(a.drop_first());
    }
}

pub proof fn lemma_lex_trichotomy(a: Seq<char>, b: Seq<char>)
    ensures
        a == b || lex_lt(a, b) || lex_lt(b, a),
        !(lex_lt(a, b) && lex_lt(b, a)),
    decreases a.len(),
{
    if a.len() > 0 && b.len() > 0 && a[0] == b[0] {
        lemma_lex_trichotomy(a.drop_first(), b.drop_first());
        if a.drop_first() == b.drop_first() {
            assert(a =~= seq![a[0]] + a.drop_first());
            assert(b =~= seq![b[0]] + b.drop_first());
        }
    } else if a.len() == 0 && b.len() == 0 {
        assert(a =~= b);
    }
}

pub proof fn lemma_lex_transitive(a: Seq<char>, b: Seq<char>, c: Seq<char>)
    requires
        lex_lt(a, b),
        lex_lt(b, c),
    ensures
        lex_lt(a, c),
    decreases a.len(),
{
    if a.len() > 0 && b.len() > 0 && c.len() > 0 && a[0] == b[0] && b[0] == c[0] {
        lemma_lex_transitive(a.drop_first(), b.drop_first(), c.drop_first());
    }
}

/// Whether `a` sorts before `b`.
pub fn chars_lt(a: &Vec<char>, b: &Vec<char>) -> (r: bool)
    ensures
        r == lex_lt(a@, b@),
{
    let mut k: usize = 0;
    assert(a@.skip(0) =~= a@);
    assert(b@.skip(0) =~= b@);
    while k < a.len() && k < b.len() && a[k] == b[k]
        invariant
            k <= a.len(),
            k <= b.len(),
            lex_lt(a@, b@) == lex_lt(a@.skip(k as int), b@.skip(k as int)),
        decreases a.len() - k,
    {
        proof {
            assert(a@.skip(k as int).drop_first() =~= a@.skip(k + 1));
            assert(b@.skip(k as int).drop_first() =~= b@.skip(k + 1));
        }
        k = k + 1;
    }
    proof {
        if k < a.len() {
            assert(a@.skip(k as int)[0] == a@[k as int]);
        }
        if k < b.len() {
            assert(b@.skip(k as int)[0] == b@[k as int]);
        }
    }
    if k == a.len() {
        k < b.len()
    } else if k == b.len() {
        false
    } else {
        a[k] < b[k]
    }
}

} // verus!

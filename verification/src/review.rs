//! The keywords that an automatic review looks for in generated output.
use vstd::prelude::*;

use crate::providers::{lemma_token_end, token_end, words_from};
use crate::text::{
    ascii_lower_seq, ascii_lowercase_chars, char_is_alnum, char_is_ws, chars_lt, chars_of,
    chars_seqs, is_alnum, lemma_lex_irreflexive, lemma_lex_transitive, lemma_lex_trichotomy,
    lex_lt, string_from_chars,
};

verus! {

/// The whitespace-separated words of `cs`.
pub fn whitespace_words(cs: &Vec<char>) -> (r: Vec<Vec<char>>)
    ensures
        chars_seqs(r@) == words_from(cs@, 0),
{
    let ghost s = cs@;
    let mut out: Vec<Vec<char>> = Vec::new();
    let mut i: usize = 0;
    while i < cs.len()
        invariant
            s == cs@,
            i <= cs.len(),
            chars_seqs(out@) + words_from(s, i as int) == words_from(s, 0),
        decreases cs.len() - i,
    {
        if char_is_ws(cs[i]) {
            i = i + 1;
        } else {
            let mut j = i;
            while j < cs.len() && !char_is_ws(cs[j])
                invariant
                    s == cs@,
                    i <= j <= cs.len(),
                    token_end(s, i as int) == token_end(s, j as int),
                decreases cs.len() - j,
            {
                j = j + 1;
            }
            let mut w: Vec<char> = Vec::new();
            let mut k = i;
            while k < j
                invariant
                    i <= k <= j <= cs.len(),
                    s == cs@,
                    w@ == s.subrange(i as int, k as int),
                decreases j - k,
            {
                w.push(cs[k]);
                assert(w@ =~= s.subrange(i as int, k + 1));
                k = k + 1;
            }
            proof {
                lemma_token_end(s, i as int);
                assert(token_end(s, i as int) == j);
            }
            let ghost before = chars_seqs(out@);
            out.push(w);
            assert(chars_seqs(out@) =~= before.push(s.subrange(i as int, j as int)));
            assert(chars_seqs(out@) + words_from(s, j as int) =~= before + words_from(s, i as int));
            i = j;
        }
    }
    assert(chars_seqs(out@) =~= words_from(s, 0));
    out
}

/// `w` without characters other than ASCII letters and digits at its start.
pub open spec fn trim_alnum_start(w: Seq<char>) -> Seq<char>
    decreases w.len(),
{
    if w.len() > 0 && !is_alnum(w[0]) {
        trim_alnum_start(w.drop_first())
    } else {
        w
    }
}

/// `w` without characters other than ASCII letters and digits at its end.
pub open spec fn trim_alnum_end(w: Seq<char>) -> Seq<char>
    decreases w.len(),
{
    if w.len() > 0 && !is_alnum(w.last()) {
        trim_alnum_end(w.drop_last())
    } else {
        w
    }
}

/// The candidate keyword of a word: trimmed to letters and digits at both
/// ends, ASCII-lowercased.
pub open spec fn keyword_of(w: Seq<char>) -> Seq<char> {
    ascii_lower_seq(trim_alnum_end(trim_alnum_start(w)))
}

/// Bytes that a character takes in UTF-8.
pub open spec fn utf8_width(c: char) -> nat {
    if '\u{80}' > c {
        1
    } else if '\u{800}' > c {
        2
    } else if '\u{10000}' > c {
        3
    } else {
        4
    }
}

/// Bytes that a text takes in UTF-8.
pub open spec fn utf8_len(s: Seq<char>) -> nat
    decreases s.len(),
{
    if s.len() == 0 {
        0
    } else {
        utf8_len(s.drop_last()) + utf8_width(s.last())
    }
}

/// The keywords of the words, in order: candidates of at least five bytes.
pub open spec fn qualifying_keywords(ws: Seq<Seq<char>>) -> Seq<Seq<char>>
    decreases ws.len(),
{
    if ws.len() == 0 {
        seq![]
    } else {
        let rest = qualifying_keywords(ws.drop_last());
        if utf8_len(keyword_of(ws.last())) >= 5 {
            rest.push(keyword_of(ws.last()))
        } else {
            rest
        }
    }
}

/// At most the first `n` items.
pub open spec fn first_n(s: Seq<Seq<char>>, n: nat) -> Seq<Seq<char>> {
    if s.len() > n {
        s.take(n as int)
    } else {
        s
    }
}

/// Each item sorts strictly before the next: sorted, without repeats.
pub open spec fn strictly_sorted(s: Seq<Seq<char>>) -> bool {
    forall|i: int, j: int| 0 <= i < j < s.len() ==> lex_lt(#[trigger] s[i], #[trigger] s[j])
}

fn trim_alnum_chars(cs: &Vec<char>) -> (r: Vec<char>)
    ensures
        r@ == trim_alnum_end(trim_alnum_start(cs@)),
{
    let ghost s = cs@;
    let mut lo: usize = 0;
    assert(s.subrange(0, s.len() as int) =~= s);
    while lo < cs.len() && !char_is_alnum(cs[lo])
        invariant
            lo <= cs.len(),
            s == cs@,
            trim_alnum_start(s) == trim_alnum_start(s.subrange(lo as int, s.len() as int)),
        decreases cs.len() - lo,
    {
        assert(s.subrange(lo as int, s.len() as int).drop_first() =~= s.subrange(
            lo + 1,
            s.len() as int,
        ));
        lo = lo + 1;
    }
    let ghost front = s.subrange(lo as int, s.len() as int);
    let mut hi: usize = cs.len();
    assert(front =~= s.subrange(lo as int, hi as int));
    while hi > lo && !char_is_alnum(cs[hi - 1])
        invariant
            lo <= hi <= cs.len(),
            s == cs@,
            front == s.subrange(lo as int, s.len() as int),
            trim_alnum_start(s) == front,
            trim_alnum_end(front) == trim_alnum_end(s.subrange(lo as int, hi as int)),
        decreases hi,
    {
        assert(s.subrange(lo as int, hi as int).drop_last() =~= s.subrange(lo as int, hi - 1));
        hi = hi - 1;
    }
    let mut r: Vec<char> = Vec::new();
    let mut k: usize = lo;
    while k < hi
        invariant
            lo <= k <= hi <= cs.len(),
            s == cs@,
            r@ == s.subrange(lo as int, k as int),
        decreases hi - k,
    {
        r.push(cs[k]);
        assert(r@ =~= s.subrange(lo as int, k + 1));
        k = k + 1;
    }
    r
}

/// Whether the text takes at least five bytes in UTF-8.
fn at_least_five_bytes(cs: &Vec<char>) -> (r: bool)
    ensures
        r == (utf8_len(cs@) >= 5),
{
    let mut acc: usize = 0;
    let mut i: usize = 0;
    while i < cs.len()
        invariant
            i <= cs.len(),
            acc == if utf8_len(cs@.take(i as int)) >= 5 {
                5
            } else {
                utf8_len(cs@.take(i as int))
            },
        decreases cs.len() - i,
    {
        assert(cs@.take(i + 1).drop_last() =~= cs@.take(i as int));
        let c = cs[i];
        let w: usize = if '\u{80}' > c {
            1
        } else if '\u{800}' > c {
            2
        } else if '\u{10000}' > c {
            3
        } else {
            4
        };
        acc = if acc + w >= 5 {
            5
        } else {
            acc + w
        };
        i = i + 1;
    }
    assert(cs@.take(cs.len() as int) =~= cs@);
    acc >= 5
}

fn insert_sorted_unique(v: &mut Vec<Vec<char>>, x: Vec<char>)
    requires
        strictly_sorted(chars_seqs(old(v)@)),
    ensures
        strictly_sorted(chars_seqs(final(v)@)),
        chars_seqs(final(v)@).to_set() == chars_seqs(old(v)@).to_set().insert(x@),
{
    let ghost s = chars_seqs(v@);
    let mut p: usize = 0;
    while p < v.len() && chars_lt(&v[p], &x)
        invariant
            p <= v.len(),
            s == chars_seqs(v@),
            forall|j: int| 0 <= j < p ==> lex_lt(#[trigger] s[j], x@),
        decreases v.len() - p,
    {
        p = p + 1;
    }
    if p < v.len() && !chars_lt(&x, &v[p]) {
        proof {
            lemma_lex_trichotomy(s[p as int], x@);
            assert(s[p as int] == x@);
            assert(s.to_set() =~= s.to_set().insert(x@));
        }
        return;
    }
    proof {
        if p < v.len() {
            lemma_lex_trichotomy(s[p as int], x@);
        }
    }
    let ghost xv = x@;
    v.insert(p, x);
    proof {
        let t = chars_seqs(v@);
        assert(t =~= s.insert(p as int, xv));
        assert forall|i: int, j: int| 0 <= i < j < t.len() implies lex_lt(
            #[trigger] t[i],
            #[trigger] t[j],
        ) by {
            if j < p {
            } else if j == p {
                assert(t[i] == s[i]);
            } else if i < p {
                assert(t[i] == s[i]);
                assert(t[j] == s[j - 1]);
                lemma_lex_transitive(s[i], xv, s[p as int]);
                if j - 1 > p {
                    lemma_lex_transitive(s[i], s[p as int], s[j - 1]);
                }
            } else if i == p {
                assert(t[j] == s[j - 1]);
                if j - 1 > p {
                    lemma_lex_transitive(xv, s[p as int], s[j - 1]);
                }
            } else {
                assert(t[i] == s[i - 1]);
                assert(t[j] == s[j - 1]);
            }
        }
        assert(t.to_set() =~= s.to_set().insert(xv)) by {
            assert forall|y: Seq<char>| t.to_set().contains(y) implies s.to_set().insert(xv).contains(y) by {
                let k = choose|k: int| 0 <= k < t.len() && t[k] == y;
                if k < p {
                    assert(s[k] == y);
                } else if k > p {
                    assert(s[k - 1] == y);
                }
            }
            assert forall|y: Seq<char>| s.to_set().insert(xv).contains(y) implies t.to_set().contains(y) by {
                if y == xv {
                    assert(t[p as int] == y);
                } else {
                    let k = choose|k: int| 0 <= k < s.len() && s[k] == y;
                    if k < p {
                        assert(t[k] == y);
                    } else {
                        assert(t[k + 1] == y);
                    }
                }
            }
        }
    }
}

/// The keywords that a review of output for `prompt` looks for: among the
/// whitespace-separated words of the prompt, trimmed to letters and digits
/// at both ends and ASCII-lowercased, the first three that take at least
/// five bytes, sorted, without repeats.
pub fn build_review_keywords(prompt: &str) -> (r: Vec<String>)
    ensures
        strictly_sorted(r@.map_values(|k: String| k@)),
        r@.map_values(|k: String| k@).to_set() == first_n(
            qualifying_keywords(words_from(prompt@, 0)),
            3,
        ).to_set(),
{
    let cs = chars_of(prompt);
    let words = whitespace_words(&cs);
    let ghost ws = chars_seqs(words@);
    let mut sorted: Vec<Vec<char>> = Vec::new();
    let mut taken: usize = 0;
    let mut k: usize = 0;
    while k < words.len()
        invariant
            k <= words.len(),
            ws == chars_seqs(words@),
            ws == words_from(prompt@, 0),
            taken as nat == first_n(qualifying_keywords(ws.take(k as int)), 3).len(),
            strictly_sorted(chars_seqs(sorted@)),
            chars_seqs(sorted@).to_set() == first_n(qualifying_keywords(ws.take(k as int)), 3).to_set(),
        decreases words.len() - k,
    {
        proof {
            assert(ws.take(k + 1).drop_last() =~= ws.take(k as int));
            assert(ws.take(k + 1).last() == ws[k as int]);
        }
        let trimmed = trim_alnum_chars(&words[k]);
        let kw = ascii_lowercase_chars(&trimmed);
        assert(kw@ == keyword_of(ws[k as int]));
        let ghost q0 = qualifying_keywords(ws.take(k as int));
        if at_least_five_bytes(&kw) && taken < 3 {
            proof {
                assert(q0.len() < 3 || q0.len() == 3) by {}
                assert(first_n(q0, 3) =~= q0);
                assert(first_n(q0.push(kw@), 3) =~= q0.push(kw@));
                first_n(q0, 3).lemma_push_to_set_commute(kw@);
            }
            insert_sorted_unique(&mut sorted, kw);
            taken = taken + 1;
        } else {
            proof {
                if utf8_len(keyword_of(ws[k as int])) >= 5 {
                    assert(first_n(q0.push(keyword_of(ws[k as int])), 3) =~= first_n(q0, 3));
                }
            }
        }
        k = k + 1;
    }
    assert(ws.take(words.len() as int) =~= ws);
    let mut out: Vec<String> = Vec::new();
    let mut j: usize = 0;
    while j < sorted.len()
        invariant
            j <= sorted.len(),
            out@.map_values(|k: String| k@) == chars_seqs(sorted@).take(j as int),
        decreases sorted.len() - j,
    {
        let s = string_from_chars(&sorted[j]);
        assert(s@ == chars_seqs(sorted@)[j as int]);
        let ghost before = out@;
        out.push(s);
        assert(out@ == before.push(s));
        assert(out@.map_values(|k: String| k@) =~= before.map_values(|k: String| k@).push(s@));
        assert(out@.map_values(|k: String| k@) =~= chars_seqs(sorted@).take(j + 1));
        j = j + 1;
    }
    assert(chars_seqs(sorted@).take(sorted.len() as int) =~= chars_seqs(sorted@));
    out
}

} // verus!

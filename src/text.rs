//! Text primitives shared by the transcript sink: Unicode white space, word
//! splitting and substring search, each stated over `Seq<char>`.
use vstd::prelude::*;

verus! {

/// The characters with the Unicode `White_Space` property.
pub open spec fn is_space(c: char) -> bool {
    ('\u{9}' <= c && c <= '\u{d}') || c == ' ' || c == '\u{85}' || c == '\u{a0}'
        || c == '\u{1680}' || ('\u{2000}' <= c && c <= '\u{200a}') || c == '\u{2028}'
        || c == '\u{2029}' || c == '\u{202f}' || c == '\u{205f}' || c == '\u{3000}'
}

/// Tests a character for the Unicode `White_Space` property.
pub fn is_space_char(c: char) -> (r: bool)
    ensures
        r == is_space(c),
{
    ('\u{9}' <= c && c <= '\u{d}') || c == ' ' || c == '\u{85}' || c == '\u{a0}'
        || c == '\u{1680}' || ('\u{2000}' <= c && c <= '\u{200a}') || c == '\u{2028}'
        || c == '\u{2029}' || c == '\u{202f}' || c == '\u{205f}' || c == '\u{3000}'
}


/// The words of `s`: its maximal runs of characters that are not white space,
/// in order. Defined by reading `s` from left to right.
pub open spec fn words(s: Seq<char>) -> Seq<Seq<char>>
    decreases s.len(),
{
    if s.len() == 0 {
        seq![]
    } else {
        let prev = words(s.drop_last());
        let c = s.last();
        if is_space(c) {
            prev
        } else if s.len() > 1 && !is_space(s[s.len() - 2]) {
            prev.drop_last().push(prev.last().push(c))
        } else {
            prev.push(seq![c])
        }
    }
}

/// The character sequences held by a sequence of strings.
pub open spec fn texts(v: Seq<String>) -> Seq<Seq<char>> {
    v.map_values(|w: String| w@)
}

/// Whether `p` occurs in `t` starting at position `i`.
pub open spec fn occurs_at(t: Seq<char>, p: Seq<char>, i: int) -> bool {
    0 <= i && i + p.len() <= t.len() && t.subrange(i, i + p.len()) == p
}

/// Whether `p` is a contiguous part of `t` (the empty sequence is part of every text).
pub open spec fn contains_seq(t: Seq<char>, p: Seq<char>) -> bool {
    exists|i: int| occurs_at(t, p, i)
}

proof fn lemma_words_step(s: Seq<char>, i: int)
    requires
        0 <= i < s.len(),
    ensures
        s.subrange(0, i + 1).drop_last() == s.subrange(0, i),
        s.subrange(0, i + 1).last() == s[i],
        i > 0 ==> s.subrange(0, i + 1)[i - 1] == s[i - 1],
{
    assert(s.subrange(0, i + 1).drop_last() =~= s.subrange(0, i));
}

/// Splits `text` into its words, as `str::split_whitespace` does.
pub fn split_words(text: &str) -> (r: Vec<String>)
    ensures
        texts(r@) == words(text@),
{
    let n = text.unicode_len();
    let mut out: Vec<String> = Vec::new();
    let mut start: usize = 0;
    let mut in_word: bool = false;
    let mut i: usize = 0;
    while i < n
        invariant
            n == text@.len(),
            0 <= start <= i <= n,
            in_word <==> (i > 0 && !is_space(text@[i - 1])),
            in_word ==> forall|k: int| start <= k < i ==> !is_space(#[trigger] text@[k]),
            in_word ==> start < i && (start == 0 || is_space(text@[start - 1])),
            in_word ==> words(text@.subrange(0, i as int)) == texts(out@).push(
                text@.subrange(start as int, i as int),
            ),
            !in_word ==> words(text@.subrange(0, i as int)) == texts(out@),
        decreases n - i,
    {
        let c = text.get_char(i);
        proof {
            lemma_words_step(text@, i as int);
        }
        let ghost prefix = text@.subrange(0, i as int);
        let ghost before = texts(out@);
        if is_space_char(c) {
            if in_word {
                let w = String::from_str(text.substring_char(start, i));
                out.push(w);
                proof {
                    assert(texts(out@) =~= before.push(text@.subrange(start as int, i as int)));
                }
            }
            in_word = false;
        } else {
            if in_word {
                proof {
                    let prev = words(prefix);
                    assert(prev.drop_last() =~= before);
                    assert(prev.last().push(c) =~= text@.subrange(start as int, i + 1));
                    assert(before.push(text@.subrange(start as int, i + 1)) =~= prev.drop_last().push(
                        prev.last().push(c),
                    ));
                }
            } else {
                start = i;
                proof {
                    assert(text@.subrange(start as int, i + 1) =~= seq![c]);
                }
            }
            in_word = true;
        }
        i = i + 1;
    }
    proof {
        assert(text@.subrange(0, n as int) =~= text@);
    }
    if in_word {
        let w = String::from_str(text.substring_char(start, n));
        let ghost before = texts(out@);
        out.push(w);
        proof {
            assert(texts(out@) =~= before.push(text@.subrange(start as int, n as int)));
        }
    }
    out
}

/// Whether `phrase` occurs in `text` at character position `i`.
fn occurs_at_exec(text: &str, phrase: &str, i: usize) -> (r: bool)
    requires
        i + phrase@.len() <= text@.len(),
    ensures
        r == occurs_at(text@, phrase@, i as int),
{
    let n = text.unicode_len();
    let m = phrase.unicode_len();
    let mut j: usize = 0;
    while j < m
        invariant
            m == phrase@.len(),
            n == text@.len(),
            i + m <= n,
            0 <= j <= m,
            forall|k: int| 0 <= k < j ==> text@[i + k] == phrase@[k],
        decreases m - j,
    {
        if text.get_char(i + j) != phrase.get_char(j) {
            proof {
                assert(text@.subrange(i as int, i + m)[j as int] != phrase@[j as int]);
            }
            return false;
        }
        j = j + 1;
    }
    assert(text@.subrange(i as int, i + m) =~= phrase@);
    true
}

/// Case-sensitive substring search, as `str::contains` with a `&str` pattern.
pub fn contains_phrase(text: &str, phrase: &str) -> (r: bool)
    ensures
        r == contains_seq(text@, phrase@),
{
    let n = text.unicode_len();
    let m = phrase.unicode_len();
    if m > n {
        return false;
    }
    if m == 0 {
        assert(text@.subrange(0, 0) =~= phrase@);
        assert(occurs_at(text@, phrase@, 0));
        return true;
    }
    let mut i: usize = 0;
    while i <= n - m
        invariant
            n == text@.len(),
            m == phrase@.len(),
            1 <= m <= n,
            0 <= i <= n - m + 1,
            forall|k: int| 0 <= k < i ==> !occurs_at(text@, phrase@, k),
        decreases n - m + 1 - i,
    {
        if occurs_at_exec(text, phrase, i) {
            return true;
        }
        i = i + 1;
    }
    false
}

} // verus!

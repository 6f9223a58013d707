//! Splitting text at white space, on which the command line and the header
//! detection both rest.

use vstd::prelude::*;
use vstd::string::*;

verus! {

/// Whether `c` is white space as the standard library's `char::is_whitespace`
/// has it: a character with the Unicode property White_Space.
pub uninterp spec fn whitespace(c: char) -> bool;

/// The lower-case form of `s` as the standard library's `str::to_lowercase`
/// gives it.
pub uninterp spec fn lowercase(s: Seq<char>) -> Seq<char>;

/// Calls `char::is_whitespace`. The contract claims only that the answer is
/// the one that `whitespace` names.
#[verifier::external_body]
pub(crate) fn is_whitespace(c: char) -> (b: bool)
    ensures
        b == whitespace(c),
{
    c.is_whitespace()
}

/// Calls `str::to_lowercase`. The contract claims only that the result is the
/// one that `lowercase` names.
#[verifier::external_body]
pub(crate) fn to_lowercase(s: &str) -> (r: String)
    ensures
        r@ == lowercase(s@),
{
    s.to_lowercase()
}

/// Whether two texts hold the same characters.
pub fn same_text(a: &str, b: &str) -> (same: bool)
    ensures
        same == (a@ == b@),
{
    let x = String::from_str(a);
    let y = String::from_str(b);
    x == y
}

/// The words of `s`: its longest runs of characters that are not white space,
/// in order.
pub open spec fn words(s: Seq<char>) -> Seq<Seq<char>>
    decreases s.len(),
{
    if s.len() == 0 {
        Seq::empty()
    } else {
        let before = words(s.drop_last());
        if whitespace(s.last()) {
            before
        } else if s.len() >= 2 && !whitespace(s[s.len() - 2]) && before.len() > 0 {
            before.drop_last().push(before.last().push(s.last()))
        } else {
            before.push(seq![s.last()])
        }
    }
}

/// The views of `parts`.
pub open spec fn texts(parts: Seq<&str>) -> Seq<Seq<char>> {
    Seq::new(parts.len(), |i: int| parts[i]@)
}

/// The first index from `i` on at which `s` holds no white space, or its
/// length.
pub open spec fn skip_whitespace(s: Seq<char>, i: int) -> int
    decreases s.len() - i,
{
    if 0 <= i < s.len() && whitespace(s[i]) {
        skip_whitespace(s, i + 1)
    } else {
        i
    }
}

/// The end of the last run of white space that ends at `j`.
pub open spec fn skip_whitespace_back(s: Seq<char>, j: int) -> int
    decreases j,
{
    if 0 < j <= s.len() && whitespace(s[j - 1]) {
        skip_whitespace_back(s, j - 1)
    } else {
        j
    }
}

/// `s` without the white space at its two ends.
pub open spec fn trimmed(s: Seq<char>) -> Seq<char> {
    let from = skip_whitespace(s, 0);
    let to = skip_whitespace_back(s, s.len() as int);
    if from < to {
        s.subrange(from, to)
    } else {
        Seq::empty()
    }
}

/// Splits `line` into its words.
pub fn split_whitespace<'a>(line: &'a str) -> (parts: Vec<&'a str>)
    ensures
        texts(parts@) == words(line@),
{
    let n = line.unicode_len();
    let mut parts: Vec<&'a str> = Vec::new();
    let mut i: usize = 0;
    proof {
        assert(line@.take(0) =~= Seq::<char>::empty());
        assert(texts(parts@) =~= words(line@.take(0)));
    }
    while i < n
        invariant
            0 <= i <= n,
            n == line@.len(),
            texts(parts@) == words(line@.take(i as int)),
            0 < i < n && !whitespace(line@[i - 1]) ==> whitespace(line@[i as int]),
        decreases n - i,
    {
        let ghost before = texts(parts@);
        if is_whitespace(line.get_char(i)) {
            proof {
                assert(line@.take(i + 1).drop_last() =~= line@.take(i as int));
            }
            i += 1;
        } else {
            let start = i;
            proof {
                assert(line@.take(i + 1).drop_last() =~= line@.take(i as int));
                assert(line@.subrange(start as int, i + 1) =~= seq![line@[i as int]]);
                assert(i > 0 ==> line@.take(i + 1)[i - 1] == line@[i - 1]);
            }
            i += 1;
            while i < n && !is_whitespace(line.get_char(i))
                invariant
                    start < i <= n,
                    n == line@.len(),
                    !whitespace(line@[i - 1]),
                    words(line@.take(i as int)) == before.push(line@.subrange(start as int, i as int)),
                decreases n - i,
            {
                proof {
                    let t = line@.take(i + 1);
                    assert(t.drop_last() =~= line@.take(i as int));
                    assert(t[t.len() - 2] == line@[i - 1]);
                    let grown = before.push(line@.subrange(start as int, i as int));
                    assert(grown.drop_last() =~= before);
                    assert(grown.last().push(line@[i as int]) =~= line@.subrange(
                        start as int,
                        i + 1,
                    ));
                }
                i += 1;
            }
            let part = line.substring_char(start, i);
            parts.push(part);
            proof {
                assert(texts(parts@) =~= before.push(line@.subrange(start as int, i as int)));
            }
        }
    }
    proof {
        assert(line@.take(n as int) =~= line@);
    }
    parts
}

/// `s` without the white space at its two ends.
pub fn trim<'a>(s: &'a str) -> (r: &'a str)
    ensures
        r@ == trimmed(s@),
{
    let n = s.unicode_len();
    let mut from: usize = 0;
    while from < n && is_whitespace(s.get_char(from))
        invariant
            0 <= from <= n,
            n == s@.len(),
            skip_whitespace(s@, 0) == skip_whitespace(s@, from as int),
        decreases n - from,
    {
        from += 1;
    }
    let mut to: usize = n;
    while to > from && is_whitespace(s.get_char(to - 1))
        invariant
            from <= to <= n,
            n == s@.len(),
            from < n ==> from < to && !whitespace(s@[from as int]),
            skip_whitespace_back(s@, n as int) == skip_whitespace_back(s@, to as int),
        decreases to,
    {
        to -= 1;
    }
    proof {
        lemma_skip_back_stops(s@, n as int);
        assert(s@.subrange(from as int, from as int) =~= Seq::<char>::empty());
    }
    s.substring_char(from, to)
}

/// `w` holds a character, and none that is white space.
pub open spec fn is_word(w: Seq<char>) -> bool {
    w.len() > 0 && forall|j: int| 0 <= j < w.len() ==> !whitespace(#[trigger] w[j])
}

/// Every word of a text holds a character, and none that is white space.
pub proof fn lemma_words_hold_no_whitespace(s: Seq<char>)
    ensures
        forall|i: int| 0 <= i < words(s).len() ==> is_word(#[trigger] words(s)[i]),
    decreases s.len(),
{
    if s.len() > 0 {
        let before = words(s.drop_last());
        let c = s.last();
        lemma_words_hold_no_whitespace(s.drop_last());
        assert forall|i: int| 0 <= i < words(s).len() implies is_word(#[trigger] words(s)[i]) by {
            if whitespace(c) {
            } else if s.len() >= 2 && !whitespace(s[s.len() - 2]) && before.len() > 0 {
                if i < before.len() - 1 {
                    assert(words(s)[i] == before[i]);
                } else {
                    assert(is_word(before.last()));
                    assert(words(s)[i] == before.last().push(c));
                }
            } else {
                if i < before.len() {
                    assert(words(s)[i] == before[i]);
                } else {
                    assert(words(s)[i] == seq![c]);
                }
            }
        }
    }
}

/// Going forward over white space from `i` ends at a character that is none,
/// or at the end.
proof fn lemma_skip_stops(s: Seq<char>, i: int)
    requires
        0 <= i <= s.len(),
    ensures
        i <= skip_whitespace(s, i) <= s.len(),
        skip_whitespace(s, i) < s.len() ==> !whitespace(s[skip_whitespace(s, i)]),
    decreases s.len() - i,
{
    if i < s.len() && whitespace(s[i]) {
        lemma_skip_stops(s, i + 1);
    }
}

/// Going back over white space from `j` ends behind a character that is
/// none, or at the start.
proof fn lemma_skip_back_stops(s: Seq<char>, j: int)
    requires
        0 <= j <= s.len(),
    ensures
        0 <= skip_whitespace_back(s, j) <= j,
        skip_whitespace_back(s, j) > 0 ==> !whitespace(s[skip_whitespace_back(s, j) - 1]),
    decreases j,
{
    if 0 < j && whitespace(s[j - 1]) {
        lemma_skip_back_stops(s, j - 1);
    }
}

/// What is left of a text without the white space at its ends neither starts
/// nor ends with white space, and a text that neither starts nor ends with
/// white space is left as it is.
pub proof fn lemma_trimmed_has_bare_ends(s: Seq<char>)
    ensures
        trimmed(s).len() > 0 ==> !whitespace(trimmed(s).first()) && !whitespace(
            trimmed(s).last(),
        ),
        s.len() > 0 && !whitespace(s.first()) && !whitespace(s.last()) ==> trimmed(s) == s,
{
    lemma_skip_stops(s, 0);
    lemma_skip_back_stops(s, s.len() as int);
    if s.len() > 0 && !whitespace(s.first()) && !whitespace(s.last()) {
        assert(s.subrange(0, s.len() as int) =~= s);
    }
}

} // verus!

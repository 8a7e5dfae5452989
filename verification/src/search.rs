//! Search-query tokenization and keyword extraction.

use crate::strutil::{
    char_is_alphanumeric, chars_to_string, is_alnum_char, is_ws_char, char_is_whitespace,
    lower_of, str_chars, string_push, to_lowercase, vec_contains_str,
};
use vstd::prelude::*;
use vstd::string::StringExecFns;

verus! {

/// The characters a token keeps: alphanumerics and the Hangul blocks.
pub open spec fn keep_char(c: char) -> bool {
    ||| is_alnum_char(c)
    ||| '\u{AC00}' <= c && c <= '\u{D7AF}'
    ||| '\u{1100}' <= c && c <= '\u{11FF}'
    ||| '\u{3130}' <= c && c <= '\u{318F}'
}

/// The kept characters of a word, in order.
pub open spec fn kept_chars(w: Seq<char>) -> Seq<char>
    decreases w.len(),
{
    if w.len() == 0 {
        Seq::empty()
    } else {
        let rest = kept_chars(w.drop_last());
        if keep_char(w.last()) {
            rest.push(w.last())
        } else {
            rest
        }
    }
}

/// What a finished word contributes: its kept characters, when the raw
/// word was longer than one character and something was kept.
pub open spec fn word_token(cur: Seq<char>) -> Seq<Seq<char>> {
    if cur.len() > 1 && kept_chars(cur).len() > 0 {
        seq![kept_chars(cur)]
    } else {
        Seq::empty()
    }
}

/// The tokens of `s[i..]`, with `cur` the word read so far: words are
/// maximal runs without whitespace, and each contributes per
/// [`word_token`].
pub open spec fn tokens_acc(s: Seq<char>, i: int, cur: Seq<char>) -> Seq<Seq<char>>
    decreases s.len() - i when 0 <= i <= s.len()
{
    if i >= s.len() {
        word_token(cur)
    } else if is_ws_char(s[i]) {
        word_token(cur) + tokens_acc(s, i + 1, Seq::empty())
    } else {
        tokens_acc(s, i + 1, cur.push(s[i]))
    }
}

/// The tokens of a character sequence.
pub open spec fn tokens_of(s: Seq<char>) -> Seq<Seq<char>> {
    tokens_acc(s, 0, Seq::empty())
}

/// Whether `c` is kept in a token.
fn is_keep_char(c: char) -> (r: bool)
    ensures
        r == keep_char(c),
{
    if char_is_alphanumeric(c) {
        return true;
    }
    ('\u{AC00}' <= c && c <= '\u{D7AF}') || ('\u{1100}' <= c && c <= '\u{11FF}') || ('\u{3130}'
        <= c && c <= '\u{318F}')
}

/// The kept characters of a word.
fn keep_word_chars(w: &Vec<char>) -> (r: Vec<char>)
    ensures
        r@ == kept_chars(w@),
{
    let n = w.len();
    let mut out: Vec<char> = Vec::new();
    let mut i: usize = 0;
    while i < n
        invariant
            n == w@.len(),
            0 <= i <= n,
            out@ == kept_chars(w@.take(i as int)),
        decreases n - i,
    {
        proof {
            assert(w@.take(i + 1).drop_last() =~= w@.take(i as int));
            assert(w@.take(i + 1).last() == w@[i as int]);
        }
        if is_keep_char(w[i]) {
            out.push(w[i]);
        }
        i = i + 1;
    }
    assert(w@.take(n as int) =~= w@);
    out
}

/// Tokenizes a search query: the query is lower-cased, split on
/// whitespace, words of more than one character keep their alphanumeric
/// and Hangul characters, and words with nothing left are dropped.
pub fn tokenize_query(query: &str) -> (r: Vec<String>)
    ensures
        r.deep_view() == tokens_of(lower_of(query@)),
{
    let lowered = to_lowercase(query);
    let chars = str_chars(lowered.as_str());
    let ghost s = lower_of(query@);
    let n = chars.len();
    let mut out: Vec<String> = Vec::new();
    let mut cur: Vec<char> = Vec::new();
    let mut i: usize = 0;
    while i < n
        invariant
            chars@ == s,
            n == s.len(),
            0 <= i <= n,
            tokens_of(s) == out.deep_view() + tokens_acc(s, i as int, cur@),
        decreases n - i,
    {
        if char_is_whitespace(chars[i]) {
            let ghost out_pre = out.deep_view();
            let ghost cur_pre = cur@;
            if cur.len() > 1 {
                let token = keep_word_chars(&cur);
                if token.len() > 0 {
                    out.push(chars_to_string(&token));
                    assert(out.deep_view() =~= out_pre + word_token(cur_pre));
                }
            }
            cur = Vec::new();
            assert(out.deep_view() + tokens_acc(s, i + 1, cur@) =~= out_pre + (word_token(cur_pre)
                + tokens_acc(s, i + 1, Seq::empty())));
        } else {
            cur.push(chars[i]);
        }
        i = i + 1;
    }
    let ghost out_pre = out.deep_view();
    let ghost cur_pre = cur@;
    if cur.len() > 1 {
        let token = keep_word_chars(&cur);
        if token.len() > 0 {
            out.push(chars_to_string(&token));
            assert(out.deep_view() =~= out_pre + word_token(cur_pre));
        }
    }
    assert(out.deep_view() =~= tokens_of(s));
    out
}

/// Tokens joined with single spaces.
pub open spec fn join_spaced(ts: Seq<Seq<char>>) -> Seq<char>
    decreases ts.len(),
{
    if ts.len() == 0 {
        Seq::empty()
    } else if ts.len() == 1 {
        ts[0]
    } else {
        join_spaced(ts.drop_last()) + seq![' '] + ts.last()
    }
}

/// Normalizes a search query: its tokens, joined with single spaces.
pub fn normalize_search_query(query: &str) -> (r: String)
    ensures
        r@ == join_spaced(tokens_of(lower_of(query@))),
{
    let tokens = tokenize_query(query);
    let ghost ts = tokens.deep_view();
    let n = tokens.len();
    let mut out = String::new();
    let mut k: usize = 0;
    while k < n
        invariant
            ts == tokens.deep_view(),
            ts.len() == n,
            n == tokens@.len(),
            0 <= k <= n,
            out@ == join_spaced(ts.take(k as int)),
        decreases n - k,
    {
        assert(ts[k as int] == tokens@[k as int]@);
        proof {
            assert(ts.take(k + 1).drop_last() =~= ts.take(k as int));
            assert(ts.take(k + 1).last() == ts[k as int]);
        }
        if k > 0 {
            string_push(&mut out, ' ');
        }
        out.append(tokens[k].as_str());
        proof {
            if k == 0 {
                assert(out@ =~= join_spaced(ts.take(1)));
            } else {
                assert(out@ =~= join_spaced(ts.take(k + 1)));
            }
        }
        k = k + 1;
    }
    assert(ts.take(n as int) =~= ts);
    out
}

/// Whether `w` is a keyword of the token list `ts`: one of the tokens, or
/// a contiguous piece, two characters or longer, of a token of three
/// characters or more.
pub open spec fn keyword_of(ts: Seq<Seq<char>>, w: Seq<char>) -> bool {
    exists|k: int|
        0 <= k < ts.len() && (w == #[trigger] ts[k] || ((ts[k]).len() >= 3 && exists|i: int, j: int|
            0 <= i && i + 2 <= j <= ts[k].len() && w == ts[k].subrange(i, j)))
}

/// Extracts the keywords of a text: every token of the lower-cased text,
/// and every piece of two characters or more of every token of three
/// characters or more — each keyword once.
pub fn extract_keywords(text: &str) -> (r: Vec<String>)
    ensures
        forall|k1: int, k2: int|
            0 <= k1 < k2 < r.deep_view().len() ==> r.deep_view()[k1] != r.deep_view()[k2],
        forall|k: int|
            0 <= k < r.deep_view().len() ==> keyword_of(
                tokens_of(lower_of(text@)),
                #[trigger] r.deep_view()[k],
            ),
        forall|w: Seq<char>|
            keyword_of(tokens_of(lower_of(text@)), w) ==> r.deep_view().contains(w),
{
    let tokens = tokenize_query(text);
    let ghost ts = tokens.deep_view();
    let n = tokens.len();
    let mut out: Vec<String> = Vec::new();
    let mut k: usize = 0;
    while k < n
        invariant
            ts == tokens.deep_view(),
            ts.len() == n,
            n == tokens@.len(),
            0 <= k <= n,
            forall|a: int, b: int|
                0 <= a < b < out.deep_view().len() ==> out.deep_view()[a] != out.deep_view()[b],
            forall|a: int|
                0 <= a < out.deep_view().len() ==> keyword_of(ts, #[trigger] out.deep_view()[a]),
            forall|w: Seq<char>| keyword_of(ts.take(k as int), w) ==> out.deep_view().contains(w),
        decreases n - k,
    {
        assert(ts[k as int] == tokens@[k as int]@);
        let ghost out0 = out.deep_view();
        let tchars = str_chars(tokens[k].as_str());
        let ghost t = ts[k as int];
        push_unique(&mut out, &tchars, Ghost(ts));
        let len = tchars.len();
        if len >= 3 {
            let mut i: usize = 0;
            while i < len - 1
                invariant
                    ts[k as int] == t,
                    0 <= k < ts.len(),
                    tchars@ == t,
                    t.len() == len,
                    3 <= len,
                    0 <= i <= len - 1,
                    forall|a: int, b: int|
                        0 <= a < b < out.deep_view().len() ==> out.deep_view()[a]
                            != out.deep_view()[b],
                    forall|a: int|
                        0 <= a < out.deep_view().len() ==> keyword_of(
                            ts,
                            #[trigger] out.deep_view()[a],
                        ),
                    out.deep_view().contains(t),
                    forall|w: Seq<char>|
                        keyword_of(ts.take(k as int), w) ==> out.deep_view().contains(w),
                    forall|i2: int, j2: int|
                        0 <= i2 < i && i2 + 2 <= j2 <= t.len() ==> out.deep_view().contains(
                            t.subrange(i2, j2),
                        ),
                decreases len - i,
            {
                let mut e: usize = i + 1;
                while e < len
                    invariant
                        ts[k as int] == t,
                        0 <= k < ts.len(),
                        tchars@ == t,
                        t.len() == len,
                        3 <= len,
                        0 <= i < len - 1,
                        i + 1 <= e <= len,
                        forall|a: int, b: int|
                            0 <= a < b < out.deep_view().len() ==> out.deep_view()[a]
                                != out.deep_view()[b],
                        forall|a: int|
                            0 <= a < out.deep_view().len() ==> keyword_of(
                                ts,
                                #[trigger] out.deep_view()[a],
                            ),
                        out.deep_view().contains(t),
                        forall|w: Seq<char>|
                            keyword_of(ts.take(k as int), w) ==> out.deep_view().contains(w),
                        forall|i2: int, j2: int|
                            0 <= i2 < i && i2 + 2 <= j2 <= t.len() ==> out.deep_view().contains(
                                t.subrange(i2, j2),
                            ),
                        forall|j2: int|
                            i + 2 <= j2 < e + 1 ==> out.deep_view().contains(
                                t.subrange(i as int, j2),
                            ),
                    decreases len - e,
                {
                    let stop = e + 1;
                    let mut piece: Vec<char> = Vec::new();
                    let mut p: usize = i;
                    while p < stop
                        invariant
                            tchars@ == t,
                            t.len() == len,
                            stop <= len,
                            0 <= i <= p <= stop,
                            piece@ =~= t.subrange(i as int, p as int),
                        decreases stop - p,
                    {
                        piece.push(tchars[p]);
                        p = p + 1;
                    }
                    assert(piece@ =~= t.subrange(i as int, stop as int));
                    push_unique(&mut out, &piece, Ghost(ts));
                    e = e + 1;
                }
                i = i + 1;
            }
        }
        proof {
            assert(ts.take(k + 1).drop_last() =~= ts.take(k as int));
            assert(ts.take(k + 1).last() == t);
            assert forall|w: Seq<char>| keyword_of(ts.take(k + 1), w) implies out.deep_view()
                .contains(w) by {
                let kk = choose|kk: int|
                    0 <= kk < ts.take(k + 1).len() && (w == #[trigger] ts.take(k + 1)[kk] || ((
                    ts.take(k + 1)[kk]).len() >= 3 && exists|i: int, j: int|
                        0 <= i && i + 2 <= j <= ts.take(k + 1)[kk].len() && w == #[trigger] ts.take(
                            k + 1,
                        )[kk].subrange(i, j)));
                if kk < k {
                    assert(keyword_of(ts.take(k as int), w));
                } else {
                    assert(ts.take(k + 1)[kk] == t);
                    if w == t {
                    } else {
                        let (i2, j2) = choose|i2: int, j2: int|
                            0 <= i2 && i2 + 2 <= j2 <= t.len() && w == #[trigger] t.subrange(
                                i2,
                                j2,
                            );
                        assert(i2 < t.len() - 1);
                        assert(out.deep_view().contains(t.subrange(i2, j2)));
                    }
                }
            }
        }
        k = k + 1;
    }
    assert(ts.take(n as int) =~= ts);
    out
}

/// Pushes the given characters as a keyword unless already present,
/// keeping the list duplicate-free; `w` must already be a keyword of the
/// token list.
fn push_unique(out: &mut Vec<String>, w: &Vec<char>, Ghost(ts): Ghost<Seq<Seq<char>>>)
    requires
        keyword_of(ts, w@),
        forall|a: int, b: int|
            0 <= a < b < old(out).deep_view().len() ==> old(out).deep_view()[a]
                != old(out).deep_view()[b],
        forall|a: int|
            0 <= a < old(out).deep_view().len() ==> keyword_of(
                ts,
                #[trigger] old(out).deep_view()[a],
            ),
    ensures
        forall|a: int, b: int|
            0 <= a < b < final(out).deep_view().len() ==> final(out).deep_view()[a]
                != final(out).deep_view()[b],
        forall|a: int|
            0 <= a < final(out).deep_view().len() ==> keyword_of(
                ts,
                #[trigger] final(out).deep_view()[a],
            ),
        final(out).deep_view().contains(w@),
        forall|v: Seq<char>|
            old(out).deep_view().contains(v) ==> final(out).deep_view().contains(v),
{
    let s = chars_to_string(w);
    if !vec_contains_str(out, s.as_str()) {
        assert(!out.deep_view().contains(w@)) by {
            if out.deep_view().contains(w@) {
                let a = choose|a: int| 0 <= a < out.deep_view().len() && out.deep_view()[a] == w@;
                assert(out@[a]@ == s@);
            }
        }
        let ghost pre = out.deep_view();
        out.push(s);
        assert(out.deep_view() =~= pre.push(w@));
        assert(out.deep_view()[pre.len() as int] == w@);
        assert forall|v: Seq<char>| pre.contains(v) implies out.deep_view().contains(v) by {
            let a = choose|a: int| 0 <= a < pre.len() && pre[a] == v;
            assert(out.deep_view()[a] == v);
        }
    } else {
        assert(out.deep_view().contains(w@)) by {
            let a = choose|a: int| 0 <= a < out@.len() && (#[trigger] out@[a])@ == s@;
            assert(out.deep_view()[a] == w@);
        }
    }
}

} // verus!

//! Character classification and small string utilities.

use vstd::prelude::*;

verus! {

/// Whether `char::is_alphanumeric` holds of `c`; the full Unicode tables are
/// not written out here.
pub uninterp spec fn is_alnum_char(c: char) -> bool;

/// Whether `char::is_whitespace` holds of `c`; the full Unicode tables are
/// not written out here.
pub uninterp spec fn is_ws_char(c: char) -> bool;

/// Relies on `char::is_alphanumeric`: the result depends on the character
/// alone, and the ASCII letters and digits are alphanumeric while the ASCII
/// blanks are not.
#[verifier::external_body]
pub fn char_is_alphanumeric(c: char) -> (r: bool)
    ensures
        r == is_alnum_char(c),
        ('a' <= c && c <= 'z') ==> r,
        ('A' <= c && c <= 'Z') ==> r,
        ('0' <= c && c <= '9') ==> r,
        (c == ' ' || c == '\t' || c == '\n' || c == '\r') ==> !r,
{
    c.is_alphanumeric()
}

/// Relies on `char::is_whitespace`: the result depends on the character
/// alone, and the ASCII blanks are whitespace while the ASCII letters and
/// digits are not.
#[verifier::external_body]
pub fn char_is_whitespace(c: char) -> (r: bool)
    ensures
        r == is_ws_char(c),
        (c == ' ' || c == '\t' || c == '\n' || c == '\r') ==> r,
        ('a' <= c && c <= 'z') ==> !r,
        ('A' <= c && c <= 'Z') ==> !r,
        ('0' <= c && c <= '9') ==> !r,
{
    c.is_whitespace()
}

/// The lower-case form of a character sequence, as `str::to_lowercase`
/// computes it; the full Unicode case tables are not written out here.
pub uninterp spec fn lower_of(s: Seq<char>) -> Seq<char>;

/// Relies on `str::to_lowercase`: the result depends on the characters
/// alone, and an empty string stays empty.
#[verifier::external_body]
pub fn to_lowercase(s: &str) -> (r: String)
    ensures
        r@ == lower_of(s@),
        s@.len() == 0 ==> r@.len() == 0,
{
    s.to_lowercase()
}

/// Whether `v` holds a string with the characters of `s`.
pub fn vec_contains_str(v: &Vec<String>, s: &str) -> (r: bool)
    ensures
        r == exists|k: int| 0 <= k < v@.len() && (#[trigger] v@[k])@ == s@,
{
    let n = v.len();
    let mut i: usize = 0;
    while i < n
        invariant
            n == v@.len(),
            0 <= i <= n,
            forall|k: int| 0 <= k < i ==> (#[trigger] v@[k])@ != s@,
        decreases n - i,
    {
        if eq_str(v[i].as_str(), s) {
            return true;
        }
        i = i + 1;
    }
    false
}

/// Relies on `String::push`: appends one character.
#[verifier::external_body]
pub fn string_push(s: &mut String, c: char)
    ensures
        final(s)@ == old(s)@.push(c),
{
    s.push(c)
}

/// The characters of `s`, in order.
pub fn str_chars(s: &str) -> (r: Vec<char>)
    ensures
        r@ == s@,
{
    let n = s.unicode_len();
    let mut out: Vec<char> = Vec::new();
    let mut i: usize = 0;
    while i < n
        invariant
            n == s@.len(),
            0 <= i <= n,
            out@ =~= s@.subrange(0, i as int),
        decreases n - i,
    {
        out.push(s.get_char(i));
        i = i + 1;
    }
    assert(out@ =~= s@);
    out
}

/// A string made of the given characters, in order.
pub fn chars_to_string(v: &Vec<char>) -> (r: String)
    ensures
        r@ == v@,
{
    let mut out = String::new();
    let n = v.len();
    let mut i: usize = 0;
    while i < n
        invariant
            n == v.len(),
            0 <= i <= n,
            out@ =~= v@.subrange(0, i as int),
        decreases n - i,
    {
        string_push(&mut out, v[i]);
        i = i + 1;
    }
    assert(out@ =~= v@);
    out
}

/// Whether two string slices hold the same characters.
pub fn eq_str(a: &str, b: &str) -> (r: bool)
    ensures
        r == (a@ == b@),
{
    let n = a.unicode_len();
    if n != b.unicode_len() {
        return false;
    }
    let mut i: usize = 0;
    while i < n
        invariant
            n == a@.len(),
            n == b@.len(),
            0 <= i <= n,
            forall|k: int| 0 <= k < i ==> a@[k] == b@[k],
        decreases n - i,
    {
        if a.get_char(i) != b.get_char(i) {
            return false;
        }
        i = i + 1;
    }
    assert(a@ =~= b@);
    true
}

/// Whether a character sequence is all whitespace; true of the empty one.
pub open spec fn blank_seq(s: Seq<char>) -> bool {
    forall|k: int| 0 <= k < s.len() ==> is_ws_char(#[trigger] s[k])
}

/// Whether every character of `s` is whitespace; true of the empty string.
/// This is what `s.trim().is_empty()` tests.
pub fn str_is_blank(s: &str) -> (r: bool)
    ensures
        r == blank_seq(s@),
{
    let n = s.unicode_len();
    let mut i: usize = 0;
    while i < n
        invariant
            n == s@.len(),
            0 <= i <= n,
            forall|k: int| 0 <= k < i ==> is_ws_char(s@[k]),
        decreases n - i,
    {
        if !char_is_whitespace(s.get_char(i)) {
            return false;
        }
        i = i + 1;
    }
    true
}

// =====================
// Trimming
// =====================

/// `s` without its leading whitespace.
pub open spec fn trim_front(s: Seq<char>) -> Seq<char>
    decreases s.len(),
{
    if s.len() > 0 && is_ws_char(s[0]) {
        trim_front(s.drop_first())
    } else {
        s
    }
}

/// `s` without its trailing whitespace.
pub open spec fn trim_back(s: Seq<char>) -> Seq<char>
    decreases s.len(),
{
    if s.len() > 0 && is_ws_char(s.last()) {
        trim_back(s.drop_last())
    } else {
        s
    }
}

/// `s` without its leading and trailing whitespace: what `str::trim`
/// leaves.
pub open spec fn trim_seq(s: Seq<char>) -> Seq<char> {
    trim_back(trim_front(s))
}

/// Leading whitespace ends at the first non-whitespace character.
proof fn lemma_trim_front_skip(s: Seq<char>, i: int)
    requires
        0 <= i <= s.len(),
        forall|k: int| 0 <= k < i ==> is_ws_char(#[trigger] s[k]),
        i == s.len() || !is_ws_char(s[i]),
    ensures
        trim_front(s) == s.skip(i),
    decreases i,
{
    if i == 0 {
        assert(s.skip(0) =~= s);
    } else {
        let rest = s.drop_first();
        assert(forall|k: int| 0 <= k < i - 1 ==> is_ws_char(#[trigger] rest[k]));
        lemma_trim_front_skip(rest, i - 1);
        assert(rest.skip(i - 1) =~= s.skip(i));
    }
}

/// Trailing whitespace starts after the last non-whitespace character.
proof fn lemma_trim_back_take(s: Seq<char>, j: int)
    requires
        0 <= j <= s.len(),
        forall|k: int| j <= k < s.len() ==> is_ws_char(#[trigger] s[k]),
        j == 0 || !is_ws_char(s[j - 1]),
    ensures
        trim_back(s) == s.take(j),
    decreases s.len() - j,
{
    if j == s.len() {
        assert(s.take(j) =~= s);
    } else {
        let rest = s.drop_last();
        assert(forall|k: int| j <= k < rest.len() ==> is_ws_char(#[trigger] rest[k]));
        lemma_trim_back_take(rest, j);
        assert(rest.take(j) =~= s.take(j));
    }
}

/// What `str::trim` leaves of `s`, as a fresh string.
pub fn trim_str(s: &str) -> (r: String)
    ensures
        r@ == trim_seq(s@),
{
    let n = s.unicode_len();
    let mut start: usize = 0;
    let mut found: bool = false;
    while !found && start < n
        invariant
            n == s@.len(),
            0 <= start <= n,
            forall|k: int| 0 <= k < start ==> is_ws_char(#[trigger] s@[k]),
            found ==> start < n && !is_ws_char(s@[start as int]),
        decreases n - start + if found {
            0int
        } else {
            1int
        },
    {
        if char_is_whitespace(s.get_char(start)) {
            start = start + 1;
        } else {
            found = true;
        }
    }
    proof {
        lemma_trim_front_skip(s@, start as int);
    }
    if start == n {
        proof {
            assert(s@.skip(n as int) =~= Seq::<char>::empty());
            assert(trim_back(Seq::<char>::empty()) =~= Seq::<char>::empty());
        }
        return String::new();
    }
    let mut end: usize = n;
    let mut stopped: bool = false;
    while !stopped && end > start + 1
        invariant
            n == s@.len(),
            0 <= start < end <= n,
            !is_ws_char(s@[start as int]),
            forall|k: int| end <= k < n ==> is_ws_char(#[trigger] s@[k]),
            stopped ==> !is_ws_char(s@[end - 1]),
        decreases end + if stopped {
            0int
        } else {
            1int
        },
    {
        if char_is_whitespace(s.get_char(end - 1)) {
            end = end - 1;
        } else {
            stopped = true;
        }
    }
    assert(!is_ws_char(s@[end - 1]));
    proof {
        let front = s@.skip(start as int);
        assert(forall|k: int|
            end - start <= k < front.len() ==> is_ws_char(#[trigger] front[k]));
        assert(front[end - start - 1] == s@[end - 1]);
        lemma_trim_back_take(front, end - start);
        assert(front.take(end - start) =~= s@.subrange(start as int, end as int));
    }
    let mut out: Vec<char> = Vec::new();
    let mut i: usize = start;
    while i < end
        invariant
            n == s@.len(),
            start <= i <= end <= n,
            out@ =~= s@.subrange(start as int, i as int),
        decreases end - i,
    {
        out.push(s.get_char(i));
        i = i + 1;
    }
    assert(out@ =~= s@.subrange(start as int, end as int));
    chars_to_string(&out)
}

} // verus!

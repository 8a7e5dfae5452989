//! The wallet request types and their validation, and the ICP amount
//! helpers.  The wallet ledger itself lives outside this library; only the
//! computations on plain values are here.

use crate::decimal::{
    all_dec_digits, dec_str, digit_val, digits_val, is_dec_digit, lemma_dec_str_len,
    lemma_digits_val_range, pow10_small, u64_dec_chars, zeros,
};
use crate::strutil::{
    blank_seq, char_is_alphanumeric, chars_to_string, eq_str, is_alnum_char, str_chars,
    str_is_blank,
};
use vstd::prelude::*;
use vstd::string::StringExecFns;

verus! {

// =====================
// Types
// =====================

/// The kinds of balance movement a wallet records.
#[derive(Debug, Clone, Copy, PartialEq, Eq, Structural)]
pub enum TransactionType {
    Deposit,
    Withdrawal,
    Transfer,
    Purchase,
    Sale,
    Mint,
    Commission,
}

/// The lifecycle states of a transaction.
#[derive(Debug, Clone, Copy, PartialEq, Eq, Structural)]
pub enum TransactionStatus {
    Pending,
    Completed,
    Failed,
    Cancelled,
}

/// The kinds of trade offer.
#[derive(Debug, Clone, Copy, PartialEq, Eq, Structural)]
pub enum OfferType {
    DirectPurchase,
    Bid,
    CounterOffer,
}

/// The lifecycle states of a trade offer.
#[derive(Debug, Clone, Copy, PartialEq, Eq, Structural)]
pub enum OfferStatus {
    Pending,
    Accepted,
    Rejected,
    Expired,
    Withdrawn,
}

/// The answers to a trade offer.
#[derive(Debug, Clone, Copy, PartialEq, Eq, Structural)]
pub enum OfferResponse {
    Accept,
    Reject,
    CounterOffer,
}

/// A user's profile.
pub struct UserProfile {
    pub username: Option<String>,
    pub display_name: Option<String>,
    pub avatar_url: Option<String>,
    pub bio: Option<String>,
    pub email: Option<String>,
    pub verified: bool,
    pub join_date: u64,
}

/// A request to open a wallet with a profile.
pub struct CreateWalletRequest {
    pub username: Option<String>,
    pub display_name: Option<String>,
    pub avatar_url: Option<String>,
    pub bio: Option<String>,
    pub email: Option<String>,
}

/// A request to change a profile; `None` fields stay untouched.
pub struct UpdateProfileRequest {
    pub username: Option<String>,
    pub display_name: Option<String>,
    pub avatar_url: Option<String>,
    pub bio: Option<String>,
    pub email: Option<String>,
}

/// A request to open a trade offer on a listing.
pub struct CreateTradeOfferRequest {
    pub listing_id: u64,
    pub price: u64,
    pub currency: String,
    pub offer_type: OfferType,
    pub expires_in_hours: Option<u64>,
    pub message: Option<String>,
}

/// An answer to a trade offer.
pub struct RespondToOfferRequest {
    pub offer_id: u64,
    pub response: OfferResponse,
    pub counter_price: Option<u64>,
    pub message: Option<String>,
}

/// A request to execute an accepted trade offer.
#[derive(Debug, Clone, Copy, PartialEq, Eq, Structural)]
pub struct ExecuteTradeRequest {
    pub offer_id: u64,
}

/// A success message.
#[derive(Debug, Clone, PartialEq, Eq)]
pub struct WalletSuccessResponse {
    pub message: String,
}

// =====================
// Validation
// =====================

/// A well-formed username: not all whitespace, at most 50 characters,
/// alphanumerics and underscores only.
pub open spec fn valid_username(u: Seq<char>) -> bool {
    &&& !blank_seq(u)
    &&& u.len() <= 50
    &&& forall|k: int| 0 <= k < u.len() ==> (is_alnum_char(#[trigger] u[k]) || u[k] == '_')
}

/// A well-formed email address: exactly one `@` with something before it,
/// and a `.` inside what follows, neither first nor last there.
pub open spec fn valid_email(s: Seq<char>) -> bool {
    exists|a: int, d: int|
        {
            &&& 1 <= a
            &&& a + 2 <= d <= s.len() - 2
            &&& #[trigger] s[a] == '@'
            &&& #[trigger] s[d] == '.'
            &&& forall|k: int| 0 <= k < s.len() && #[trigger] s[k] == '@' ==> k == a
        }
}

/// Whether `u` is a well-formed username.
fn check_username(u: &str) -> (r: bool)
    ensures
        r == valid_username(u@),
{
    if str_is_blank(u) {
        return false;
    }
    let n = u.unicode_len();
    if n > 50 {
        return false;
    }
    let mut i: usize = 0;
    while i < n
        invariant
            n == u@.len(),
            0 <= i <= n,
            forall|k: int| 0 <= k < i ==> (is_alnum_char(#[trigger] u@[k]) || u@[k] == '_'),
        decreases n - i,
    {
        let c = u.get_char(i);
        if !char_is_alphanumeric(c) && c != '_' {
            return false;
        }
        i = i + 1;
    }
    true
}

/// Whether `s` is a well-formed email address.
fn check_email(s: &str) -> (r: bool)
    ensures
        r == valid_email(s@),
{
    let n = s.unicode_len();
    let mut at: usize = 0;
    let mut seen_at: bool = false;
    let mut i: usize = 0;
    while i < n
        invariant
            n == s@.len(),
            0 <= i <= n,
            seen_at ==> 0 <= at < i && s@[at as int] == '@',
            forall|k: int|
                0 <= k < i && #[trigger] s@[k] == '@' ==> (seen_at && k == at),
        decreases n - i,
    {
        if s.get_char(i) == '@' {
            if seen_at {
                assert(forall|a: int, d: int|
                    !(1 <= a && a + 2 <= d <= s@.len() - 2 && #[trigger] s@[a] == '@'
                        && #[trigger] s@[d] == '.' && (forall|k: int|
                        0 <= k < s@.len() && #[trigger] s@[k] == '@' ==> k == a))) by {
                    assert(s@[at as int] == '@' && s@[i as int] == '@' && at != i);
                }
                return false;
            }
            seen_at = true;
            at = i;
        }
        i = i + 1;
    }
    if !seen_at {
        return false;
    }
    if at == 0 {
        return false;
    }
    if n - at < 4 {
        assert(!valid_email(s@)) by {
            if valid_email(s@) {
                let (a, dd) = choose|a: int, d: int|
                    1 <= a && a + 2 <= d <= s@.len() - 2 && #[trigger] s@[a] == '@'
                        && #[trigger] s@[d] == '.' && (forall|k: int|
                        0 <= k < s@.len() && #[trigger] s@[k] == '@' ==> k == a);
                assert(a == at);
            }
        }
        return false;
    }
    let mut d: usize = at + 2;
    while d < n
        invariant
            n == s@.len(),
            0 <= at,
            at + 2 <= d,
            s@[at as int] == '@',
            forall|k: int| 0 <= k < n && #[trigger] s@[k] == '@' ==> k == at,
            1 <= at,
            forall|k: int| at + 2 <= k < d ==> #[trigger] s@[k] != '.' || !(k <= n - 2),
        decreases n - d,
    {
        if d + 1 < n && s.get_char(d) == '.' {
            assert(valid_email(s@)) by {
                assert(s@[at as int] == '@' && s@[d as int] == '.');
            }
            return true;
        }
        d = d + 1;
    }
    assert(!valid_email(s@)) by {
        if valid_email(s@) {
            let (a, dd) = choose|a: int, d: int|
                1 <= a && a + 2 <= d <= s@.len() - 2 && #[trigger] s@[a] == '@'
                    && #[trigger] s@[d] == '.' && (forall|k: int|
                    0 <= k < s@.len() && #[trigger] s@[k] == '@' ==> k == a);
            assert(a == at);
        }
    }
    false
}

/// Whether the profile fields of a wallet or profile request pass every
/// rule.
pub open spec fn valid_profile_fields(
    username: Option<Seq<char>>,
    display_name: Option<Seq<char>>,
    bio: Option<Seq<char>>,
    email: Option<Seq<char>>,
) -> bool {
    &&& match username {
        Some(u) => valid_username(u),
        None => true,
    }
    &&& match display_name {
        Some(d) => d.len() <= 100,
        None => true,
    }
    &&& match bio {
        Some(b) => b.len() <= 500,
        None => true,
    }
    &&& match email {
        Some(e) => valid_email(e),
        None => true,
    }
}

/// Checks the given profile fields, with a message naming the first
/// violated rule.
fn check_profile_fields(
    username: &Option<String>,
    display_name: &Option<String>,
    bio: &Option<String>,
    email: &Option<String>,
) -> (r: Result<(), String>)
    ensures
        r is Ok <==> valid_profile_fields(
            match username {
                Some(u) => Some(u@),
                None => None,
            },
            match display_name {
                Some(d) => Some(d@),
                None => None,
            },
            match bio {
                Some(b) => Some(b@),
                None => None,
            },
            match email {
                Some(e) => Some(e@),
                None => None,
            },
        ),
{
    match username {
        Some(u) => {
            if !check_username(u.as_str()) {
                return Err(
                    String::from_str(
                        "a username is at most 50 alphanumeric or underscore characters",
                    ),
                );
            }
        },
        None => {},
    }
    match display_name {
        Some(d) => {
            if d.as_str().unicode_len() > 100 {
                return Err(String::from_str("the display name exceeds 100 characters"));
            }
        },
        None => {},
    }
    match bio {
        Some(b) => {
            if b.as_str().unicode_len() > 500 {
                return Err(String::from_str("the bio exceeds 500 characters"));
            }
        },
        None => {},
    }
    match email {
        Some(e) => {
            if !check_email(e.as_str()) {
                return Err(String::from_str("the email address is not well-formed"));
            }
        },
        None => {},
    }
    Ok(())
}

impl CreateWalletRequest {
    /// Whether this request passes every rule; a field left `None` passes.
    pub open spec fn valid(self) -> bool {
        valid_profile_fields(
            match self.username {
                Some(u) => Some(u@),
                None => None,
            },
            match self.display_name {
                Some(d) => Some(d@),
                None => None,
            },
            match self.bio {
                Some(b) => Some(b@),
                None => None,
            },
            match self.email {
                Some(e) => Some(e@),
                None => None,
            },
        )
    }

    /// Checks every rule, with a message naming the first violated one.
    pub fn validate(&self) -> (r: Result<(), String>)
        ensures
            r is Ok <==> self.valid(),
    {
        check_profile_fields(&self.username, &self.display_name, &self.bio, &self.email)
    }
}

impl UpdateProfileRequest {
    /// Whether this request passes every rule; a field left `None` passes.
    pub open spec fn valid(self) -> bool {
        valid_profile_fields(
            match self.username {
                Some(u) => Some(u@),
                None => None,
            },
            match self.display_name {
                Some(d) => Some(d@),
                None => None,
            },
            match self.bio {
                Some(b) => Some(b@),
                None => None,
            },
            match self.email {
                Some(e) => Some(e@),
                None => None,
            },
        )
    }

    /// Checks every rule; the rules are those of [`CreateWalletRequest`].
    pub fn validate(&self) -> (r: Result<(), String>)
        ensures
            r is Ok <==> self.valid(),
    {
        check_profile_fields(&self.username, &self.display_name, &self.bio, &self.email)
    }
}

impl CreateTradeOfferRequest {
    /// Whether this request passes every rule: a positive price in a
    /// supported currency, an expiry between one hour and thirty days when
    /// given, and a message of at most 500 characters when given.
    pub open spec fn valid(self) -> bool {
        &&& self.price > 0
        &&& (self.currency@ == "ICP"@ || self.currency@ == "USD"@)
        &&& match self.expires_in_hours {
            Some(h) => 1 <= h <= 720,
            None => true,
        }
        &&& match self.message {
            Some(m) => m@.len() <= 500,
            None => true,
        }
    }

    /// Checks every rule, with a message naming the first violated one.
    pub fn validate(&self) -> (r: Result<(), String>)
        ensures
            r is Ok <==> self.valid(),
    {
        if self.price == 0 {
            return Err(String::from_str("the offered amount must be positive"));
        }
        if !eq_str(self.currency.as_str(), "ICP") && !eq_str(self.currency.as_str(), "USD") {
            return Err(String::from_str("unsupported currency"));
        }
        match &self.expires_in_hours {
            Some(h) => {
                if *h == 0 || *h > 24 * 30 {
                    return Err(
                        String::from_str("the expiry must lie between one hour and thirty days"),
                    );
                }
            },
            None => {},
        }
        match &self.message {
            Some(m) => {
                if m.as_str().unicode_len() > 500 {
                    return Err(String::from_str("the message exceeds 500 characters"));
                }
            },
            None => {},
        }
        Ok(())
    }
}

// =====================
// Amounts
// =====================

/// The trade commission: 2.5 percent of the amount, rounded down.
pub fn calculate_commission_fee(amount: u64) -> (r: u64)
    ensures
        r == amount / 40,
{
    amount / 40
}

/// A balance in e8s rendered as ICP: the whole ICP, a dot, the e8s
/// remainder padded to eight digits, and the unit.
pub open spec fn icp_text(e8s: u64) -> Seq<char> {
    dec_str((e8s / 100000000) as int) + "."@ + zeros(8 - dec_str((e8s % 100000000) as int).len())
        + dec_str((e8s % 100000000) as int) + " ICP"@
}

/// Renders a balance held in e8s as an ICP amount.
pub fn format_icp_balance(balance_e8s: u64) -> (r: String)
    ensures
        r@ == icp_text(balance_e8s),
{
    let int_part = balance_e8s / 100_000_000;
    let frac_part = balance_e8s % 100_000_000;
    let ghost ip = dec_str(int_part as int);
    let ghost fp = dec_str(frac_part as int);
    proof {
        lemma_dec_str_len(frac_part as int, 8);
        reveal_strlit(".");
        reveal_strlit(" ICP");
    }
    let mut out = u64_dec_chars(int_part);
    out.push('.');
    assert(out@ =~= ip + "."@);
    let frac_chars = u64_dec_chars(frac_part);
    let pad = 8 - frac_chars.len();
    let mut z: usize = 0;
    while z < pad
        invariant
            0 <= z <= pad,
            pad == 8 - fp.len(),
            out@ =~= ip + "."@ + zeros(z as int),
        decreases pad - z,
    {
        out.push('0');
        assert(out@ =~= ip + "."@ + zeros(z + 1));
        z = z + 1;
    }
    let m = frac_chars.len();
    let mut j: usize = 0;
    while j < m
        invariant
            m == fp.len(),
            frac_chars@ == fp,
            pad == 8 - fp.len(),
            0 <= j <= m,
            out@ =~= ip + "."@ + zeros(pad as int) + fp.take(j as int),
        decreases m - j,
    {
        out.push(frac_chars[j]);
        assert(out@ =~= ip + "."@ + zeros(pad as int) + fp.take(j + 1));
        j = j + 1;
    }
    assert(fp.take(m as int) =~= fp);
    out.push(' ');
    out.push('I');
    out.push('C');
    out.push('P');
    assert(out@ =~= icp_text(balance_e8s));
    chars_to_string(&out)
}

/// The index of the first `.` at position `i` or later.
pub open spec fn first_dot_from(s: Seq<char>, i: int) -> Option<int>
    decreases s.len() - i when 0 <= i <= s.len()
{
    if i >= s.len() {
        None
    } else if s[i] == '.' {
        Some(i)
    } else {
        first_dot_from(s, i + 1)
    }
}

/// A fractional digit string cut or zero-padded to eight digits.
pub open spec fn padded_frac(fp: Seq<char>) -> Seq<char> {
    if fp.len() >= 8 {
        fp.take(8)
    } else {
        fp + zeros(8 - fp.len())
    }
}

/// What an ICP amount string is worth in e8s: an all-digit string, or two
/// all-digit strings around one dot, not both empty; fractional digits
/// beyond the eighth are cut off.
pub open spec fn icp_amount_e8s(s: Seq<char>) -> Option<int> {
    match first_dot_from(s, 0) {
        None => if s.len() > 0 && all_dec_digits(s) {
            Some(digits_val(s) * 100000000)
        } else {
            None
        },
        Some(k) => {
            let ip = s.take(k);
            let fp = s.skip(k + 1);
            if s.len() > 1 && all_dec_digits(ip) && all_dec_digits(fp) {
                Some(digits_val(ip) * 100000000 + digits_val(padded_frac(fp)))
            } else {
                None
            }
        },
    }
}

/// Reads the digits `chars[from..to]`, reporting their value capped at the
/// counter's capacity, or `None` on a non-digit.
fn read_digits(chars: &Vec<char>, from: usize, to: usize) -> (r: Option<(u64, bool)>)
    requires
        from <= to <= chars@.len(),
    ensures
        ({
            let s = chars@.subrange(from as int, to as int);
            match r {
                Some(p) => {
                    &&& all_dec_digits(s)
                    &&& !p.1 ==> p.0 == digits_val(s) && digits_val(s) <= u64::MAX
                    &&& p.1 ==> digits_val(s) > u64::MAX
                },
                None => !all_dec_digits(s),
            }
        }),
{
    let ghost s = chars@.subrange(from as int, to as int);
    let mut acc: u64 = 0;
    let mut sat: bool = false;
    let mut i: usize = from;
    while i < to
        invariant
            from <= i <= to <= chars@.len(),
            s == chars@.subrange(from as int, to as int),
            all_dec_digits(s.take(i - from)),
            !sat ==> acc == digits_val(s.take(i - from)) && digits_val(s.take(i - from))
                <= u64::MAX,
            sat ==> digits_val(s.take(i - from)) > u64::MAX,
        decreases to - i,
    {
        let c = chars[i];
        assert(s[i - from] == c);
        if c < '0' || c > '9' {
            assert(!is_dec_digit(s[i - from]));
            return None;
        }
        let d = (c as u32 as u64) - 48;
        assert(d == digit_val(c) && d <= 9);
        let ghost pre = s.take(i - from);
        proof {
            assert(s.take(i - from + 1).drop_last() =~= pre);
            assert(s.take(i - from + 1).last() == c);
        }
        if sat {
            assert(digits_val(s.take(i - from + 1)) == digits_val(pre) * 10 + d);
        } else {
            if acc <= (u64::MAX - d) / 10 {
                assert(acc * 10 + d <= u64::MAX) by {
                    assert(acc * 10 <= ((u64::MAX - d) / 10) * 10);
                    assert(((u64::MAX - d) / 10) * 10 <= u64::MAX - d);
                }
                acc = acc * 10 + d;
            } else {
                assert(acc * 10 + d > u64::MAX) by {
                    assert(acc >= (u64::MAX - d) / 10 + 1);
                    assert(acc * 10 >= ((u64::MAX - d) / 10 + 1) * 10);
                    assert(((u64::MAX - d) / 10) * 10 + 10 > u64::MAX - d);
                }
                sat = true;
            }
        }
        i = i + 1;
    }
    assert(s.take(to - from) =~= s);
    Some((acc, sat))
}

/// Reads an ICP amount into e8s.  Whole and fractional digits around an
/// optional dot are accepted; fractional digits beyond the eighth are cut
/// off, and a value beyond the counter's capacity is capped at it.
pub fn parse_icp_amount(icp_str: &str) -> (r: Result<u64, String>)
    ensures
        ({
            match icp_amount_e8s(icp_str@) {
                Some(v) => r is Ok && r->Ok_0 == if v <= u64::MAX {
                    v
                } else {
                    u64::MAX as int
                },
                None => r is Err,
            }
        }),
{
    let ghost s = icp_str@;
    let chars = str_chars(icp_str);
    let n = chars.len();
    let mut dot: usize = 0;
    let mut seen_dot: bool = false;
    let mut i: usize = 0;
    while !seen_dot && i < n
        invariant
            n == s.len(),
            chars@ == s,
            0 <= i <= n,
            first_dot_from(s, 0) == if seen_dot {
                Some(dot as int)
            } else {
                first_dot_from(s, i as int)
            },
            seen_dot ==> dot < n,
        decreases n - i + if seen_dot {
            0int
        } else {
            1int
        },
    {
        if chars[i] == '.' {
            seen_dot = true;
            dot = i;
        } else {
            i = i + 1;
        }
    }
    if !seen_dot {
        assert(first_dot_from(s, 0) is None);
        if n == 0 {
            return Err(String::from_str("not a valid ICP amount"));
        }
        match read_digits(&chars, 0, n) {
            None => {
                assert(chars@.subrange(0, n as int) =~= s);
                return Err(String::from_str("not a valid ICP amount"));
            },
            Some((acc, sat)) => {
                assert(chars@.subrange(0, n as int) =~= s);
                let ghost v = digits_val(s) * 100000000;
                if sat {
                    assert(v > u64::MAX) by {
                        assert(digits_val(s) >= u64::MAX + 1);
                        assert(digits_val(s) * 100000000 >= (u64::MAX + 1) * 100000000);
                    }
                    return Ok(u64::MAX);
                }
                if acc > u64::MAX / 100_000_000 {
                    assert(v > u64::MAX) by {
                        assert(digits_val(s) >= u64::MAX / 100000000 + 1);
                        assert(digits_val(s) * 100000000 >= (u64::MAX / 100000000 + 1)
                            * 100000000);
                        assert((u64::MAX / 100000000) * 100000000 + 100000000 > u64::MAX);
                    }
                    return Ok(u64::MAX);
                }
                assert(acc * 100000000 <= u64::MAX) by {
                    assert(acc * 100000000 <= (u64::MAX / 100000000) * 100000000);
                    assert((u64::MAX / 100000000) * 100000000 <= u64::MAX);
                }
                return Ok(acc * 100_000_000);
            },
        }
    }
    assert(first_dot_from(s, 0) == Some(dot as int));
    let ghost ip = s.take(dot as int);
    let ghost fp = s.skip(dot + 1);
    if n == 1 {
        return Err(String::from_str("not a valid ICP amount"));
    }
    let int_digits = match read_digits(&chars, 0, dot) {
        None => {
            assert(chars@.subrange(0, dot as int) =~= ip);
            return Err(String::from_str("not a valid ICP amount"));
        },
        Some(p) => p,
    };
    assert(chars@.subrange(0, dot as int) =~= ip);
    match read_digits(&chars, dot + 1, n) {
        None => {
            assert(chars@.subrange(dot + 1, n as int) =~= fp);
            return Err(String::from_str("not a valid ICP amount"));
        },
        Some(_) => {
            assert(chars@.subrange(dot + 1, n as int) =~= fp);
        },
    }
    let ghost pf = padded_frac(fp);
    assert(pf.len() == 8);
    assert(all_dec_digits(pf)) by {
        assert forall|k: int| 0 <= k < 8 implies is_dec_digit(#[trigger] pf[k]) by {
            if k < fp.len() {
                assert(pf[k] == fp[k]);
            } else {
                assert(pf[k] == '0');
            }
        }
    }
    let mut facc: u64 = 0;
    let mut j: usize = 0;
    while j < 8
        invariant
            n == s.len(),
            chars@ == s,
            dot < n,
            fp == s.skip(dot + 1),
            pf == padded_frac(fp),
            all_dec_digits(fp),
            pf.len() == 8,
            0 <= j <= 8,
            facc == digits_val(pf.take(j as int)),
            facc < pow10_small(j as int),
        decreases 8 - j,
    {
        let c = if j < n - (dot + 1) {
            chars[dot + 1 + j]
        } else {
            '0'
        };
        assert(pf[j as int] == c) by {
            if (j as int) < fp.len() {
                assert(pf[j as int] == fp[j as int]);
                assert(fp[j as int] == s[dot + 1 + j]);
            } else {
                assert(pf[j as int] == '0');
            }
        }
        assert(is_dec_digit(c));
        let d = (c as u32 as u64) - 48;
        proof {
            assert(pf.take(j + 1).drop_last() =~= pf.take(j as int));
            assert(pf.take(j + 1).last() == c);
            assert(pow10_small(j + 1) == 10 * pow10_small(j as int));
        }
        facc = facc * 10 + d;
        j = j + 1;
    }
    assert(pf.take(8) =~= pf);
    assert(facc < 100000000);
    let ghost v = digits_val(ip) * 100000000 + digits_val(pf);
    let (acc, sat) = int_digits;
    if sat {
        assert(v > u64::MAX) by {
            assert(digits_val(ip) >= u64::MAX + 1);
            assert(digits_val(ip) * 100000000 >= (u64::MAX + 1) * 100000000);
            assert(digits_val(pf) >= 0) by {
                lemma_digits_val_range(pf, 8);
            }
        }
        return Ok(u64::MAX);
    }
    if acc > u64::MAX / 100_000_000 {
        assert(v > u64::MAX) by {
            assert(digits_val(ip) >= u64::MAX / 100000000 + 1);
            assert(digits_val(ip) * 100000000 >= (u64::MAX / 100000000 + 1) * 100000000);
            assert((u64::MAX / 100000000) * 100000000 + 100000000 > u64::MAX);
            assert(digits_val(pf) >= 0) by {
                lemma_digits_val_range(pf, 8);
            }
        }
        return Ok(u64::MAX);
    }
    assert(acc * 100000000 <= u64::MAX) by {
        assert(acc * 100000000 <= (u64::MAX / 100000000) * 100000000);
        assert((u64::MAX / 100000000) * 100000000 <= u64::MAX);
    }
    let hi = acc * 100_000_000;
    if hi > u64::MAX - facc {
        assert(v > u64::MAX);
        return Ok(u64::MAX);
    }
    Ok(hi + facc)
}

} // verus!

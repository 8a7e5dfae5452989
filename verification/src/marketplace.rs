//! The marketplace request types and their validation and normalization
//! helpers.  The listing store itself lives outside this library; only the
//! computations on plain values are here.

use crate::strutil::{
    blank_seq, chars_to_string, eq_str, lower_of, str_is_blank, str_chars, to_lowercase, trim_seq,
    trim_str, vec_contains_str,
};
use vstd::prelude::*;
use vstd::string::StringExecFns;

verus! {

// =====================
// Types
// =====================

/// The lifecycle states of a listing.
#[derive(Debug, Clone, Copy, PartialEq, Eq, Structural)]
pub enum ListingStatus {
    Active,
    Sold,
    Suspended,
    Deleted,
}

/// The orders a listing search can be sorted by.
#[derive(Debug, Clone, Copy, PartialEq, Eq, Structural)]
pub enum SortBy {
    CreatedAtDesc,
    CreatedAtAsc,
    PriceDesc,
    PriceAsc,
    ViewCountDesc,
    FavoriteCountDesc,
    UpdatedAtDesc,
}

/// The kinds of activity the marketplace records.
#[derive(Debug, Clone, Copy, PartialEq, Eq, Structural)]
pub enum ActivityType {
    ListingCreated,
    ListingUpdated,
    ListingViewed,
    ListingFavorited,
    ListingSold,
    ListingDeleted,
}

/// A request naming one listing, for favorites.
#[derive(Debug, Clone, Copy, PartialEq, Eq, Structural)]
pub struct FavoriteRequest {
    pub listing_id: u64,
}

/// Per-category counters.
#[derive(Debug, Clone, PartialEq, Eq)]
pub struct CategoryStats {
    pub category: String,
    pub count: u64,
    pub avg_price: u64,
}

/// The response to a listing creation.
#[derive(Debug, Clone, Copy, PartialEq, Eq, Structural)]
pub struct CreateListingResponse {
    pub listing_id: u64,
}

/// A success message.
#[derive(Debug, Clone, PartialEq, Eq)]
pub struct SuccessResponse {
    pub message: String,
}

/// A request to create a listing.
pub struct CreateListingRequest {
    pub title: String,
    pub description: String,
    pub price: u64,
    pub currency: String,
    pub data_ids: Vec<u64>,
    pub category: String,
    pub tags: Vec<String>,
    pub preview_data: Option<String>,
}

/// A request to update a listing; `None` fields stay untouched.
pub struct UpdateListingRequest {
    pub listing_id: u64,
    pub title: Option<String>,
    pub description: Option<String>,
    pub price: Option<u64>,
    pub currency: Option<String>,
    pub category: Option<String>,
    pub tags: Option<Vec<String>>,
    pub preview_data: Option<String>,
    pub status: Option<ListingStatus>,
}

// =====================
// Validation
// =====================

/// A well-formed listing title: not all whitespace, at most 200
/// characters.
pub open spec fn valid_title(t: Seq<char>) -> bool {
    !blank_seq(t) && t.len() <= 200
}

/// A well-formed listing description: not all whitespace, at most 10,000
/// characters.
pub open spec fn valid_description(d: Seq<char>) -> bool {
    !blank_seq(d) && d.len() <= 10000
}

/// Well-formed tags: at most 20 of them, each at most 50 characters.
pub open spec fn valid_tags(tags: Seq<Seq<char>>) -> bool {
    tags.len() <= 20 && forall|k: int| 0 <= k < tags.len() ==> (#[trigger] tags[k]).len() <= 50
}

/// Whether every tag passes the length check.
fn check_tags(tags: &Vec<String>) -> (r: bool)
    ensures
        r == valid_tags(tags.deep_view()),
{
    let ghost dv = tags.deep_view();
    let n = tags.len();
    if n > 20 {
        return false;
    }
    let mut i: usize = 0;
    while i < n
        invariant
            dv == tags.deep_view(),
            dv.len() == n,
            n == tags@.len(),
            n <= 20,
            0 <= i <= n,
            forall|k: int| 0 <= k < i ==> (#[trigger] dv[k]).len() <= 50,
        decreases n - i,
    {
        assert(dv[i as int] == tags@[i as int]@);
        if tags[i].as_str().unicode_len() > 50 {
            return false;
        }
        i = i + 1;
    }
    true
}

impl CreateListingRequest {
    /// Whether this request passes every rule: title, description, a
    /// positive price, one to a hundred data ids, a category, and
    /// well-formed tags.
    pub open spec fn valid(self) -> bool {
        &&& valid_title(self.title@)
        &&& valid_description(self.description@)
        &&& self.price > 0
        &&& 1 <= self.data_ids@.len() <= 100
        &&& !blank_seq(self.category@)
        &&& valid_tags(self.tags.deep_view())
    }

    /// Checks every rule, with a message naming the first violated one.
    pub fn validate(&self) -> (r: Result<(), String>)
        ensures
            r is Ok <==> self.valid(),
    {
        if str_is_blank(self.title.as_str()) {
            return Err(String::from_str("the title is required"));
        }
        if self.title.as_str().unicode_len() > 200 {
            return Err(String::from_str("the title exceeds 200 characters"));
        }
        if str_is_blank(self.description.as_str()) {
            return Err(String::from_str("the description is required"));
        }
        if self.description.as_str().unicode_len() > 10000 {
            return Err(String::from_str("the description exceeds 10,000 characters"));
        }
        if self.price == 0 {
            return Err(String::from_str("the price must be positive"));
        }
        if self.data_ids.len() == 0 {
            return Err(String::from_str("at least one data id is required"));
        }
        if self.data_ids.len() > 100 {
            return Err(String::from_str("at most 100 data ids may be listed at once"));
        }
        if str_is_blank(self.category.as_str()) {
            return Err(String::from_str("the category is required"));
        }
        if !check_tags(&self.tags) {
            return Err(String::from_str("at most 20 tags of at most 50 characters each"));
        }
        Ok(())
    }
}

impl UpdateListingRequest {
    /// Whether this request passes every rule; a field left `None` passes.
    pub open spec fn valid(self) -> bool {
        &&& match self.title {
            Some(t) => valid_title(t@),
            None => true,
        }
        &&& match self.description {
            Some(d) => valid_description(d@),
            None => true,
        }
        &&& match self.price {
            Some(p) => p > 0,
            None => true,
        }
        &&& match self.tags {
            Some(tags) => valid_tags(tags.deep_view()),
            None => true,
        }
    }

    /// Checks every rule, with a message naming the first violated one.
    pub fn validate(&self) -> (r: Result<(), String>)
        ensures
            r is Ok <==> self.valid(),
    {
        match &self.title {
            Some(t) => {
                if str_is_blank(t.as_str()) {
                    return Err(String::from_str("the title may not be blank"));
                }
                if t.as_str().unicode_len() > 200 {
                    return Err(String::from_str("the title exceeds 200 characters"));
                }
            },
            None => {},
        }
        match &self.description {
            Some(d) => {
                if str_is_blank(d.as_str()) {
                    return Err(String::from_str("the description may not be blank"));
                }
                if d.as_str().unicode_len() > 10000 {
                    return Err(String::from_str("the description exceeds 10,000 characters"));
                }
            },
            None => {},
        }
        match &self.price {
            Some(p) => {
                if *p == 0 {
                    return Err(String::from_str("the price must be positive"));
                }
            },
            None => {},
        }
        match &self.tags {
            Some(tags) => {
                if !check_tags(tags) {
                    return Err(String::from_str("at most 20 tags of at most 50 characters each"));
                }
            },
            None => {},
        }
        Ok(())
    }
}

/// Checks a price against the bounds of its currency: 0.01 to 10,000 ICP
/// in e8s, or 1.00 to 100,000.00 USD in cents; other currencies are
/// refused.
pub fn validate_price(price: u64, currency: &str) -> (r: Result<(), String>)
    ensures
        r is Ok <==> ((currency@ == "ICP"@ && 1000000 <= price <= 1000000000000) || (currency@
            == "USD"@ && 100 <= price <= 10000000)),
{
    proof {
        assert("ICP"@ != "USD"@) by {
            reveal_strlit("ICP");
            reveal_strlit("USD");
            assert("ICP"@[0] == 'I');
            assert("USD"@[0] == 'U');
        }
    }
    if eq_str(currency, "ICP") {
        if price < 1_000_000 {
            Err(String::from_str("an ICP price must be at least 0.01 ICP"))
        } else if price > 1_000_000_000_000 {
            Err(String::from_str("an ICP price must be at most 10,000 ICP"))
        } else {
            Ok(())
        }
    } else if eq_str(currency, "USD") {
        if price < 100 {
            Err(String::from_str("a USD price must be at least $1.00"))
        } else if price > 100_000_00 {
            Err(String::from_str("a USD price must be at most $100,000.00"))
        } else {
            Ok(())
        }
    } else {
        Err(String::from_str("unsupported currency"))
    }
}

// =====================
// Normalization
// =====================

/// A tag in normal form: trimmed and lower-cased.
pub open spec fn norm_tag(t: Seq<char>) -> Seq<char> {
    lower_of(trim_seq(t))
}

/// The tags in normal form, those empty or over 50 characters dropped,
/// each kept once at its first occurrence.
pub open spec fn normalized_tag_list(tags: Seq<Seq<char>>) -> Seq<Seq<char>>
    decreases tags.len(),
{
    if tags.len() == 0 {
        Seq::empty()
    } else {
        let rest = normalized_tag_list(tags.drop_last());
        let t = norm_tag(tags.last());
        if t.len() == 0 || t.len() > 50 || rest.contains(t) {
            rest
        } else {
            rest.push(t)
        }
    }
}

/// Normalizes tags: trims and lower-cases each, drops the empty and the
/// over-long, keeps each once at its first occurrence, and keeps at most
/// the first 20.
pub fn normalize_tags(tags: Vec<String>) -> (r: Vec<String>)
    ensures
        r.deep_view() == if normalized_tag_list(tags.deep_view()).len() <= 20 {
            normalized_tag_list(tags.deep_view())
        } else {
            normalized_tag_list(tags.deep_view()).take(20)
        },
{
    let ghost dv = tags.deep_view();
    let n = tags.len();
    let mut out: Vec<String> = Vec::new();
    let mut i: usize = 0;
    while i < n
        invariant
            dv == tags.deep_view(),
            dv.len() == n,
            n == tags@.len(),
            0 <= i <= n,
            out.deep_view() == normalized_tag_list(dv.take(i as int)),
        decreases n - i,
    {
        assert(dv[i as int] == tags@[i as int]@);
        let trimmed = trim_str(tags[i].as_str());
        let t = to_lowercase(trimmed.as_str());
        let len = t.as_str().unicode_len();
        proof {
            assert(dv.take(i + 1).drop_last() =~= dv.take(i as int));
            assert(dv.take(i + 1).last() == dv[i as int]);
        }
        if len > 0 && len <= 50 && !vec_contains_str(&out, t.as_str()) {
            let ghost pre = out.deep_view();
            assert(!pre.contains(t@)) by {
                if pre.contains(t@) {
                    let k = choose|k: int| 0 <= k < pre.len() && pre[k] == t@;
                    assert(out@[k]@ == t@);
                }
            }
            out.push(t);
            assert(out.deep_view() =~= pre.push(norm_tag(dv[i as int])));
        } else {
            assert(out.deep_view().contains(t@) ==> exists|k: int|
                0 <= k < out@.len() && (#[trigger] out@[k])@ == t@);
            assert((len > 0 && len <= 50) ==> out.deep_view().contains(t@)) by {
                if len > 0 && len <= 50 {
                    let k = choose|k: int| 0 <= k < out@.len() && (#[trigger] out@[k])@ == t@;
                    assert(out.deep_view()[k] == t@);
                }
            }
        }
        i = i + 1;
    }
    assert(dv.take(n as int) =~= dv);
    if out.len() > 20 {
        out.truncate(20);
        assert(out.deep_view() =~= normalized_tag_list(dv).take(20));
    }
    out
}

/// Normalizes a category: trimmed and lower-cased.
pub fn normalize_category(category: &str) -> (r: String)
    ensures
        r@ == lower_of(trim_seq(category@)),
{
    let trimmed = trim_str(category);
    to_lowercase(trimmed.as_str())
}

// =====================
// Description previews
// =====================

/// `p` cut just before its last space.
pub open spec fn cut_at_last_space(p: Seq<char>) -> Seq<char>
    decreases p.len(),
{
    if p.len() == 0 {
        p
    } else if p.last() == ' ' {
        p.drop_last()
    } else {
        cut_at_last_space(p.drop_last())
    }
}

/// Whether `p` holds a space.
pub open spec fn has_space(p: Seq<char>) -> bool {
    exists|k: int| 0 <= k < p.len() && p[k] == ' '
}

/// The preview of a description: the whole text when it fits in
/// `max_length` characters; otherwise the first `max_length` characters,
/// cut back to the last space when there is one, with a trailing ellipsis.
pub open spec fn preview_of(s: Seq<char>, max_length: int) -> Seq<char> {
    if s.len() <= max_length {
        s
    } else {
        let p = s.take(max_length);
        (if has_space(p) {
            cut_at_last_space(p)
        } else {
            p
        }) + "..."@
    }
}

/// The cut lands just before the last space.
proof fn lemma_cut_at_last_space(p: Seq<char>, j: int)
    requires
        0 <= j < p.len(),
        p[j] == ' ',
        forall|k: int| j < k < p.len() ==> p[k] != ' ',
    ensures
        cut_at_last_space(p) == p.take(j),
    decreases p.len(),
{
    if j == p.len() - 1 {
        assert(p.drop_last() =~= p.take(j));
    } else {
        let rest = p.drop_last();
        assert(forall|k: int| j < k < rest.len() ==> rest[k] != ' ');
        lemma_cut_at_last_space(rest, j);
        assert(rest.take(j) =~= p.take(j));
    }
}

/// Builds the preview of a description.
pub fn generate_description_preview(description: &str, max_length: usize) -> (r: String)
    ensures
        r@ == preview_of(description@, max_length as int),
{
    let n = description.unicode_len();
    if n <= max_length {
        let chars = str_chars(description);
        return chars_to_string(&chars);
    }
    let mut prefix: Vec<char> = Vec::new();
    let mut i: usize = 0;
    while i < max_length
        invariant
            n == description@.len(),
            max_length < n,
            0 <= i <= max_length,
            prefix@ =~= description@.subrange(0, i as int),
        decreases max_length - i,
    {
        prefix.push(description.get_char(i));
        i = i + 1;
    }
    assert(prefix@ =~= description@.take(max_length as int));
    let mut cut: usize = max_length;
    let mut found: bool = false;
    while !found && cut > 0
        invariant
            prefix@ == description@.take(max_length as int),
            prefix@.len() == max_length,
            0 <= cut <= max_length,
            forall|k: int| cut <= k < max_length ==> prefix@[k] != ' ',
            found ==> cut > 0 && prefix@[cut - 1] == ' ',
        decreases cut + if found {
            0int
        } else {
            1int
        },
    {
        if prefix[cut - 1] == ' ' {
            found = true;
        } else {
            cut = cut - 1;
        }
    }
    let mut out: Vec<char> = Vec::new();
    if found {
        proof {
            lemma_cut_at_last_space(prefix@, cut - 1);
        }
        let mut k: usize = 0;
        while k < cut - 1
            invariant
                prefix@.len() == max_length,
                found ==> cut > 0,
                0 < cut <= max_length,
                0 <= k <= cut - 1,
                out@ =~= prefix@.subrange(0, k as int),
            decreases cut - k,
        {
            out.push(prefix[k]);
            k = k + 1;
        }
        assert(out@ =~= prefix@.take(cut - 1));
    } else {
        assert(!has_space(prefix@));
        let mut k: usize = 0;
        while k < max_length
            invariant
                prefix@.len() == max_length,
                0 <= k <= max_length,
                out@ =~= prefix@.subrange(0, k as int),
            decreases max_length - k,
        {
            out.push(prefix[k]);
            k = k + 1;
        }
        assert(out@ =~= prefix@);
    }
    out.push('.');
    out.push('.');
    out.push('.');
    proof {
        reveal_strlit("...");
        assert("..."@ =~= seq!['.', '.', '.']);
        assert(out@ =~= preview_of(description@, max_length as int));
    }
    chars_to_string(&out)
}

} // verus!

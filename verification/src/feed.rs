//! The feed extractor: isolating the media listing that a page embeds, and the
//! token that the login form carries.

use vstd::prelude::*;
use crate::text::{contains, first_occurrence, lemma_first_occurrence_unique, occurs_at};
use crate::text::{find, from_chars, has, slice_chars, to_chars};

verus! {

/// Why a page gave no media listing.
#[derive(Clone, Copy, Debug, PartialEq, Eq, Structural)]
pub enum ParseFailure {
    /// The page does not hold the marker that introduces the listing.
    MarkerMissing,
    /// The text after the marker never closes its outermost bracket.
    Unbalanced,
}

/// Why a fetched listing could not be used.
#[derive(Clone, Copy, Debug, PartialEq, Eq, Structural)]
pub enum FeedError {
    /// The request was answered with the login page: the session has expired.
    AuthExpired,
    /// The page came, but its listing could not be isolated.
    Parse(ParseFailure),
}

/// The text that introduces the embedded listing.
pub open spec fn media_marker() -> Seq<char> {
    "gon.media="@
}

/// The text that introduces the login form's token.
pub open spec fn token_marker() -> Seq<char> {
    "name=\"authenticity_token\" value=\""@
}

/// The text whose presence in a resolved address gives away the login page.
pub open spec fn login_marker() -> Seq<char> {
    "login"@
}

/// `c` opens an object or an array.
pub open spec fn opens(c: char) -> bool {
    c == '{' || c == '['
}

/// `c` closes an object or an array.
pub open spec fn closes(c: char) -> bool {
    c == '}' || c == ']'
}

/// The nesting depth after the characters of `s`: openers minus closers.
pub open spec fn depth(s: Seq<char>) -> int
    decreases s.len(),
{
    if s.len() == 0 {
        0
    } else {
        depth(s.drop_last()) + if opens(s.last()) {
            1int
        } else if closes(s.last()) {
            -1int
        } else {
            0int
        }
    }
}

/// The first `n` characters of `s` end with a closer that brings the depth
/// back to zero.
pub open spec fn closes_group(s: Seq<char>, n: int) -> bool {
    &&& 0 < n <= s.len()
    &&& closes(s[n - 1])
    &&& depth(s.take(n)) == 0
}

/// `n` is the length of the listing that `s` starts with: the shortest prefix
/// that closes its group.
pub open spec fn listing_len(s: Seq<char>, n: int) -> bool {
    &&& closes_group(s, n)
    &&& forall|m: int| 0 < m < n ==> !closes_group(s, m)
}

/// After the first `n` characters of `s` the depth is back at zero, having
/// been positive before.
pub open spec fn returns_to_zero(s: Seq<char>, n: int) -> bool {
    &&& 0 < n <= s.len()
    &&& depth(s.take(n)) == 0
    &&& exists|k: int| 0 <= k < n && depth(s.take(k)) > 0
}

/// `json` is the listing that `page` embeds: the balanced text that follows
/// the leftmost marker.
pub open spec fn is_listing(page: Seq<char>, json: Seq<char>) -> bool {
    exists|i: int| is_listing_at(page, i, json)
}

/// `json` is the listing of `page`, whose leftmost marker stands at `i`.
pub open spec fn is_listing_at(page: Seq<char>, i: int, json: Seq<char>) -> bool {
    &&& first_occurrence(page, media_marker(), i)
    &&& listing_len(page.skip(i + media_marker().len()), json.len() as int)
    &&& json == page.skip(i + media_marker().len()).take(json.len() as int)
}

/// `token` is the value of the login form's token in `page`: what follows the
/// leftmost token marker, up to the next double quote or the end of the page.
pub open spec fn is_token(page: Seq<char>, token: Seq<char>) -> bool {
    exists|i: int| is_token_at(page, i, token)
}

/// `token` is the token of `page`, whose leftmost token marker stands at `i`.
pub open spec fn is_token_at(page: Seq<char>, i: int, token: Seq<char>) -> bool {
    let rest = page.skip(i + token_marker().len());
    &&& first_occurrence(page, token_marker(), i)
    &&& token.len() <= rest.len()
    &&& token == rest.take(token.len() as int)
    &&& forall|k: int| 0 <= k < token.len() ==> token[k] != '"'
    &&& token.len() < rest.len() ==> rest[token.len() as int] == '"'
}

/// The length of the listing that the text of `s` from `start` on begins with.
pub fn scan_listing(s: &Vec<char>, start: usize) -> (r: Option<usize>)
    requires
        start <= s.len(),
    ensures
        match r {
            Some(n) => listing_len(s@.skip(start as int), n as int),
            None => forall|n: int| !closes_group(s@.skip(start as int), n),
        },
{
    let ghost rest = s@.skip(start as int);
    let mut i: usize = start;
    let mut d: i128 = 0;
    assert(rest.take(0) =~= Seq::<char>::empty());
    while i < s.len()
        invariant
            start <= i <= s.len(),
            rest == s@.skip(start as int),
            d == depth(rest.take(i - start)),
            -(i - start) <= d <= i - start,
            forall|m: int| 0 < m <= i - start ==> !closes_group(rest, m),
        decreases s.len() - i,
    {
        let c = s[i];
        proof {
            let longer = rest.take(i - start + 1);
            assert(longer.drop_last() =~= rest.take(i - start));
            assert(longer.last() == c);
        }
        if c == '{' || c == '[' {
            d += 1;
        } else if c == '}' || c == ']' {
            d -= 1;
            if d == 0 {
                return Some(i - start + 1);
            }
        }
        i += 1;
    }
    None
}

/// Isolates the media listing that a page embeds.
///
/// The listing follows the leftmost marker and runs up to the closer that
/// brings the bracket depth back to zero. Brackets are counted character by
/// character, so text of several bytes per character before or inside the
/// listing does not shift it.
pub fn extract_listing(page: &str) -> (r: Result<String, ParseFailure>)
    ensures
        match r {
            Ok(json) => is_listing(page@, json@),
            Err(ParseFailure::MarkerMissing) => !contains(page@, media_marker()),
            Err(ParseFailure::Unbalanced) => contains(page@, media_marker()) && forall|
                json: Seq<char>,
            | !is_listing(page@, json),
        },
{
    let chars = to_chars(page);
    let marker = to_chars("gon.media=");
    match find(&chars, &marker) {
        None => Err(ParseFailure::MarkerMissing),
        Some(i) => {
            assert(i + marker@.len() <= chars.len());
            let start: usize = i + marker.len();
            match scan_listing(&chars, start) {
                None => {
                    proof {
                        assert forall|json: Seq<char>| !is_listing(page@, json) by {
                            if is_listing(page@, json) {
                                let j = choose|j: int| is_listing_at(page@, j, json);
                                lemma_first_occurrence_unique(page@, media_marker(), i as int, j);
                            }
                        }
                    }
                    Err(ParseFailure::Unbalanced)
                },
                Some(n) => {
                    let json = slice_chars(&chars, start, start + n);
                    let out = from_chars(&json);
                    proof {
                        assert(out@ =~= page@.skip(start as int).take(n as int));
                        assert(is_listing_at(page@, i as int, out@));
                    }
                    Ok(out)
                },
            }
        },
    }
}

/// The value of the login form's token, if the page holds the form.
///
/// The value is read from behind the leftmost token marker and ends before
/// the next double quote, or with the page where no quote follows.
pub fn auth_token(login_page: &str) -> (r: Option<String>)
    ensures
        match r {
            Some(token) => is_token(login_page@, token@),
            None => !contains(login_page@, token_marker()),
        },
{
    let chars = to_chars(login_page);
    let marker = to_chars("name=\"authenticity_token\" value=\"");
    match find(&chars, &marker) {
        None => None,
        Some(i) => {
            assert(i + marker@.len() <= chars.len());
            let start: usize = i + marker.len();
            let ghost rest = chars@.skip(start as int);
            let mut end: usize = start;
            while end < chars.len() && chars[end] != '"'
                invariant
                    start <= end <= chars.len(),
                    forall|k: int| start <= k < end ==> chars@[k] != '"',
                decreases chars.len() - end,
            {
                end += 1;
            }
            let token = slice_chars(&chars, start, end);
            let out = from_chars(&token);
            proof {
                assert(out@ =~= rest.take(end - start));
                assert(is_token_at(login_page@, i as int, out@));
            }
            Some(out)
        },
    }
}

/// Whether a resolved address is that of the login page.
pub fn is_login_redirect(address: &str) -> (r: bool)
    ensures
        r == contains(address@, login_marker()),
{
    let chars = to_chars(address);
    let marker = to_chars("login");
    has(&chars, &marker)
}

/// What a fetched listing page yields: the embedded listing, or the reason
/// why there is none.
///
/// A request that ended on the login page reports an expired session, whatever
/// the page holds.
pub fn read_listing(resolved_address: &str, page: &str) -> (r: Result<String, FeedError>)
    ensures
        contains(resolved_address@, login_marker()) ==> r == Err::<String, FeedError>(
            FeedError::AuthExpired,
        ),
        !contains(resolved_address@, login_marker()) ==> match r {
            Ok(json) => is_listing(page@, json@),
            Err(FeedError::AuthExpired) => false,
            Err(FeedError::Parse(ParseFailure::MarkerMissing)) => !contains(
                page@,
                media_marker(),
            ),
            Err(FeedError::Parse(ParseFailure::Unbalanced)) => contains(page@, media_marker())
                && forall|json: Seq<char>| !is_listing(page@, json),
        },
{
    if is_login_redirect(resolved_address) {
        return Err(FeedError::AuthExpired);
    }
    match extract_listing(page) {
        Ok(json) => Ok(json),
        Err(e) => Err(FeedError::Parse(e)),
    }
}

/// One more character changes the depth by what that character counts for.
pub proof fn lemma_depth_step(s: Seq<char>, m: int)
    requires
        0 <= m < s.len(),
    ensures
        depth(s.take(m + 1)) == depth(s.take(m)) + if opens(s[m]) {
            1int
        } else if closes(s[m]) {
            -1int
        } else {
            0int
        },
{
    assert(s.take(m + 1).drop_last() =~= s.take(m));
    assert(s.take(m + 1).last() == s[m]);
}

/// Between a prefix of positive depth and a longer one of depth zero or less,
/// some prefix closes its group.
pub proof fn lemma_depth_crosses_zero(s: Seq<char>, a: int, b: int)
    requires
        0 <= a < b <= s.len(),
        depth(s.take(a)) > 0,
        depth(s.take(b)) <= 0,
    ensures
        exists|m: int| a < m <= b && closes_group(s, m),
    decreases b - a,
{
    lemma_depth_step(s, a);
    if depth(s.take(a + 1)) == 0 {
        assert(closes_group(s, a + 1));
    } else {
        lemma_depth_crosses_zero(s, a + 1, b);
        let m = choose|m: int| a + 1 < m <= b && closes_group(s, m);
        assert(a < m <= b && closes_group(s, m));
    }
}

/// A prefix that closes its group brings the depth back to zero after it was
/// positive.
pub proof fn lemma_group_returns_to_zero(s: Seq<char>, n: int)
    requires
        closes_group(s, n),
    ensures
        returns_to_zero(s, n),
{
    lemma_depth_step(s, n - 1);
    assert(depth(s.take(n - 1)) > 0);
}

/// The listing ends exactly where the depth first returns to zero after
/// having been positive.
pub proof fn lemma_listing_ends_at_first_return(s: Seq<char>, n: int)
    ensures
        listing_len(s, n) <==> (returns_to_zero(s, n) && forall|m: int|
            0 < m < n ==> !returns_to_zero(s, m)),
{
    if listing_len(s, n) {
        lemma_group_returns_to_zero(s, n);
        assert forall|m: int| 0 < m < n implies !returns_to_zero(s, m) by {
            if returns_to_zero(s, m) {
                let k = choose|k: int| 0 <= k < m && depth(s.take(k)) > 0;
                lemma_depth_crosses_zero(s, k, m);
                let c = choose|c: int| k < c <= m && closes_group(s, c);
                assert(!closes_group(s, c));
            }
        }
    }
    if returns_to_zero(s, n) && (forall|m: int| 0 < m < n ==> !returns_to_zero(s, m)) {
        let k = choose|k: int| 0 <= k < n && depth(s.take(k)) > 0;
        lemma_depth_crosses_zero(s, k, n);
        let c = choose|c: int| k < c <= n && closes_group(s, c);
        lemma_group_returns_to_zero(s, c);
        assert(c == n);
        assert forall|m: int| 0 < m < n implies !closes_group(s, m) by {
            if closes_group(s, m) {
                lemma_group_returns_to_zero(s, m);
            }
        }
    }
}

/// A page has at most one listing.
pub proof fn lemma_listing_unique(page: Seq<char>, a: Seq<char>, b: Seq<char>)
    requires
        is_listing(page, a),
        is_listing(page, b),
    ensures
        a == b,
{
    let i = choose|i: int| is_listing_at(page, i, a);
    let j = choose|j: int| is_listing_at(page, j, b);
    lemma_first_occurrence_unique(page, media_marker(), i, j);
}

/// A page has at most one token.
pub proof fn lemma_token_unique(page: Seq<char>, a: Seq<char>, b: Seq<char>)
    requires
        is_token(page, a),
        is_token(page, b),
    ensures
        a == b,
{
    let i = choose|i: int| is_token_at(page, i, a);
    let j = choose|j: int| is_token_at(page, j, b);
    lemma_first_occurrence_unique(page, token_marker(), i, j);
    let rest = page.skip(i + token_marker().len());
    if a.len() < b.len() {
        assert(b[a.len() as int] == rest[a.len() as int]);
    } else if b.len() < a.len() {
        assert(a[b.len() as int] == rest[b.len() as int]);
    }
}

/// What follows the listing does not matter: a page keeps its listing when
/// any text is appended to it.
pub proof fn lemma_listing_ignores_trailing(page: Seq<char>, json: Seq<char>, trailing: Seq<char>)
    requires
        is_listing(page, json),
    ensures
        is_listing(page + trailing, json),
{
    let i = choose|i: int| is_listing_at(page, i, json);
    let longer = page + trailing;
    let m = media_marker();
    assert(longer.subrange(i, i + m.len()) =~= page.subrange(i, i + m.len()));
    assert forall|j: int| 0 <= j < i implies !occurs_at(longer, m, j) by {
        assert(!occurs_at(page, m, j));
        assert(longer.subrange(j, j + m.len()) =~= page.subrange(j, j + m.len()));
    }
    let rest = page.skip(i + m.len());
    let rest2 = longer.skip(i + m.len());
    assert(rest2 =~= rest + trailing);
    let n = json.len() as int;
    assert forall|k: int| 0 < k <= n implies closes_group(rest2, k) == closes_group(rest, k) by {
        assert(rest2.take(k) =~= rest.take(k));
    }
    assert(rest2.take(n) =~= rest.take(n));
    assert(is_listing_at(longer, i, json));
}

/// A page put together from any text, the marker, a listing that closes its
/// outermost bracket with its last character and not before, and any text
/// behind it, has that listing, provided the marker does not stand earlier in
/// the page.
pub proof fn lemma_listing_of_framed_page(
    before: Seq<char>,
    json: Seq<char>,
    trailing: Seq<char>,
)
    requires
        first_occurrence(
            before + media_marker() + json + trailing,
            media_marker(),
            before.len() as int,
        ),
        listing_len(json, json.len() as int),
    ensures
        is_listing(before + media_marker() + json + trailing, json),
{
    let page = before + media_marker() + json + trailing;
    let i = before.len() as int;
    let rest = page.skip(i + media_marker().len());
    let n = json.len() as int;
    assert(rest =~= json + trailing);
    assert forall|k: int| 0 < k <= n implies closes_group(rest, k) == closes_group(json, k) by {
        assert(rest.take(k) =~= json.take(k));
    }
    assert(rest.take(n) =~= json);
    assert(is_listing_at(page, i, json));
}

} // verus!

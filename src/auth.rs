//! Registry requests: when to answer a challenge with a bearer token, and
//! where that token is asked for.

use vstd::prelude::*;

use crate::text::{append_chars, chars_of, same_chars, string_of};

verus! {

/// The pattern of one `key="value"` pair of a challenge.
pub open spec fn pair_pattern() -> Seq<char> {
    "([a-z]+)=\"([^\"]+)\""@
}

/// What `regex::Regex::captures_iter` yields for `pattern` over `text`: for
/// each match in order, its first and second groups. None where the pattern
/// does not compile.
pub uninterp spec fn capture_pairs(pattern: Seq<char>, text: Seq<char>) -> Option<
    Seq<(Seq<char>, Seq<char>)>,
>;

/// The characters of each pair of strings.
pub open spec fn pairs_view(v: Vec<(String, String)>) -> Seq<(Seq<char>, Seq<char>)> {
    Seq::new(v@.len(), |i: int| (v@[i].0@, v@[i].1@))
}

/// Relies on `regex::Regex::new`, `regex::Regex::captures_iter` and
/// `regex::Captures::get`: the first two groups of every match, in order (an
/// absent group as an empty string), or None where the pattern does not
/// compile.
#[verifier::external_body]
fn regex_pairs(pattern: &str, text: &str) -> (r: Option<Vec<(String, String)>>)
    ensures
        match r {
            Some(v) => capture_pairs(pattern@, text@) == Some(pairs_view(v)),
            None => capture_pairs(pattern@, text@) is None,
        },
{
    let re = regex::Regex::new(pattern).ok()?;
    let group = |c: &regex::Captures, i: usize| c.get(i).map_or(String::new(), |m| m.as_str().to_owned());
    Some(re.captures_iter(text).map(|c| (group(&c, 1), group(&c, 2))).collect())
}

/// The value of the last `realm` pair.
pub open spec fn realm_of(pairs: Seq<(Seq<char>, Seq<char>)>) -> Option<Seq<char>>
    decreases pairs.len(),
{
    if pairs.len() == 0 {
        None
    } else if pairs.last().0 == "realm"@ {
        Some(pairs.last().1)
    } else {
        realm_of(pairs.drop_last())
    }
}

/// The pairs other than `realm`, as `k=v` joined by `&`, in order.
pub open spec fn query_of(pairs: Seq<(Seq<char>, Seq<char>)>) -> Seq<char>
    decreases pairs.len(),
{
    if pairs.len() == 0 {
        Seq::empty()
    } else {
        let q = query_of(pairs.drop_last());
        let (k, v) = pairs.last();
        if k == "realm"@ {
            q
        } else if q.len() == 0 {
            k + "="@ + v
        } else {
            q + "&"@ + k + "="@ + v
        }
    }
}

/// Where a token is asked for, given a challenge's pairs: the realm, `?`,
/// and the other pairs as query parameters. None without a realm.
pub open spec fn token_url_of(pairs: Seq<(Seq<char>, Seq<char>)>) -> Option<Seq<char>> {
    match realm_of(pairs) {
        Some(r) => Some(r + "?"@ + query_of(pairs)),
        None => None,
    }
}

/// Where to ask for a token, given the pairs found in a challenge.
pub fn token_url_from(pairs: &Vec<(String, String)>) -> (r: Option<String>)
    ensures
        match token_url_of(pairs_view(*pairs)) {
            Some(u) => r matches Some(s) && s@ == u,
            None => r is None,
        },
{
    let ghost ps = pairs_view(*pairs);
    let realm_word = chars_of("realm");
    let mut realm: Option<Vec<char>> = None;
    let mut query: Vec<char> = Vec::new();
    let mut i: usize = 0;
    while i < pairs.len()
        invariant
            i <= pairs@.len(),
            ps == pairs_view(*pairs),
            realm_word@ == "realm"@,
            query@ == query_of(ps.subrange(0, i as int)),
            match realm_of(ps.subrange(0, i as int)) {
                Some(x) => realm matches Some(v) && v@ == x,
                None => realm is None,
            },
        decreases pairs@.len() - i,
    {
        let k = chars_of(pairs[i].0.as_str());
        let v = chars_of(pairs[i].1.as_str());
        assert(ps.subrange(0, i + 1).drop_last() == ps.subrange(0, i as int));
        assert(ps.subrange(0, i + 1).last() == (k@, v@));
        if same_chars(k.as_slice(), realm_word.as_slice()) {
            realm = Some(v);
        } else {
            if query.len() > 0 {
                append_chars(&mut query, chars_of("&").as_slice());
            }
            append_chars(&mut query, k.as_slice());
            append_chars(&mut query, chars_of("=").as_slice());
            append_chars(&mut query, v.as_slice());
        }
        i = i + 1;
    }
    assert(ps.subrange(0, i as int) == ps);
    match realm {
        Some(mut url) => {
            append_chars(&mut url, chars_of("?").as_slice());
            append_chars(&mut url, query.as_slice());
            Some(string_of(url.as_slice()))
        },
        None => None,
    }
}

/// Where to ask for a bearer token, given the `Www-Authenticate` header of a
/// refused request; None where it names no realm.
pub fn token_url(challenge: &str) -> (r: Option<String>)
    ensures
        match capture_pairs(pair_pattern(), challenge@) {
            Some(ps) => match token_url_of(ps) {
                Some(u) => r matches Some(s) && s@ == u,
                None => r is None,
            },
            None => r is None,
        },
{
    let pattern = "([a-z]+)=\"([^\"]+)\"";
    match regex_pairs(pattern, challenge) {
        Some(pairs) => token_url_from(&pairs),
        None => None,
    }
}

/// The `Authorization` value for a token.
pub fn bearer(token: &str) -> (r: String)
    ensures
        r@ == "Bearer "@ + token@,
{
    let mut out = chars_of("Bearer ");
    append_chars(&mut out, chars_of(token).as_slice());
    string_of(out.as_slice())
}

/// What to do after a registry answered a request.
#[derive(Clone, Debug, PartialEq, Eq)]
pub enum Next {
    /// The answer is the one wanted.
    Done,
    /// Ask for a token with the challenge, then send the request once more
    /// with it.
    Authenticate(String),
    /// Give up with the status.
    Fail(u16),
}

/// Decides, from the status of an answer, whether the request already
/// carried an `Authorization` header, and the answer's `Www-Authenticate`
/// header: 200 is done; 401 to a request without a token and with a
/// challenge asks for a token; anything else fails.
pub fn after_response(status: u16, authorized: bool, challenge: Option<String>) -> (r: Next)
    ensures
        status == 200 ==> r == Next::Done,
        status != 200 && status == 401 && !authorized && challenge is Some ==> (r matches Next::Authenticate(c)
            && c@ == challenge->0@),
        status != 200 && !(status == 401 && !authorized && challenge is Some) ==> r == Next::Fail(
            status,
        ),
{
    if status == 200 {
        return Next::Done;
    }
    if status == 401 && !authorized {
        if let Some(c) = challenge {
            return Next::Authenticate(c);
        }
    }
    Next::Fail(status)
}

} // verus!

//! The decisions of the transparent proxy.
//!
//! A request that is no reserved management route is authenticated, its cost is
//! estimated, and it is forwarded to an upstream Helius endpoint under one of the
//! pool's keys — rewriting only the `api-key` query parameter. A rate-limited or
//! unreachable key is passed over for the next one, up to `gateway.max_retries`
//! distinct keys.

use vstd::prelude::*;

use crate::config::GatewayConfig;
use crate::credits::{
    borrowed_texts, calls_class, calls_cost, primary_class, request_cost, texts, CostTable,
    MethodClass, Parsed,
};
use crate::error::ProxyError;
use crate::json::{integer_at, json_integer_at};
use crate::ratelimit::backoff;
use crate::stats::Stats;
use crate::text::{
    after_prefix, ascii_lower, chars_of, equal_ignoring_case, same_ignoring_case, same_text, trim,
    trimmed,
};
use crate::upstream::{
    a_ready_key_is_enough, a_selected_key_is_fit, a_tripped_key_cools_down, comes_up,
    eligible, one_key_changes_the_sum, soonest_secs, total_remaining, Pool, Upstream,
};

verus! {

/// The name-value pairs that a query string holds, as `form_urlencoded` decodes them.
pub uninterp spec fn query_pairs(query: Seq<char>) -> Seq<(Seq<char>, Seq<char>)>;

/// Some pairs, by their characters.
pub open spec fn pair_texts(pairs: Seq<(String, String)>) -> Seq<(Seq<char>, Seq<char>)> {
    pairs.map_values(|p: (String, String)| (p.0@, p.1@))
}

/// Where `c` first occurs in `s` from `from` on, or the end of `s`.
pub open spec fn find_char(s: Seq<char>, c: char, from: int) -> int
    decreases s.len() - from,
{
    if from >= s.len() {
        s.len() as int
    } else if s[from] == c {
        from
    } else {
        find_char(s, c, from + 1)
    }
}

/// What stands before the first `=` of a part of a query.
pub open spec fn name_text(part: Seq<char>) -> Seq<char> {
    part.take(find_char(part, '=', 0))
}

/// Whether decoding leaves a text as it is: nothing in it is escaped.
pub open spec fn unescaped(text: Seq<char>) -> bool {
    !text.contains('%') && !text.contains('+')
}

/// `url::form_urlencoded::parse`, collected. The contract names the pairs, which the query
/// alone decides. A query that is not empty and holds no `&` gives one pair, and where nothing
/// is escaped in what stands before its first `=`, that is the pair's name.
#[verifier::external_body]
fn parse_query(query: &str) -> (pairs: Vec<(String, String)>)
    ensures
        pair_texts(pairs@) == query_pairs(query@),
        query@.len() > 0 && !query@.contains('&') ==> pairs@.len() == 1,
        query@.len() > 0 && !query@.contains('&') && unescaped(name_text(query@))
            ==> pairs@[0].0@ == name_text(query@),
{
    url::form_urlencoded::parse(query.as_bytes()).into_owned().collect()
}

/// Whether some pairs present that api-key.
pub open spec fn presents_key(pairs: Seq<(Seq<char>, Seq<char>)>, expected: Seq<char>) -> bool {
    pairs.contains(("api-key"@, expected))
}

/// Whether the credentials of a request are those of the gateway: the api-key as a query
/// parameter, in `x-api-key:`, or in `Authorization: Bearer`.
pub open spec fn authorized(
    expected: Seq<char>,
    pairs: Seq<(Seq<char>, Seq<char>)>,
    x_api_key: Option<Seq<char>>,
    authorization: Option<Seq<char>>,
) -> bool {
    ||| presents_key(pairs, expected)
    ||| x_api_key == Some(expected)
    ||| authorization matches Some(value) && "Bearer "@.is_prefix_of(value) && trimmed(
        value.skip("Bearer "@.len() as int),
    ) == expected
}

/// An optional text, by its characters.
pub open spec fn opt_chars(text: Option<&str>) -> Option<Seq<char>> {
    match text {
        Some(t) => Some(t@),
        None => None,
    }
}

/// The pairs of a query, none where there is no query.
pub open spec fn pairs_of(query: Option<&str>) -> Seq<(Seq<char>, Seq<char>)> {
    match query {
        Some(q) => query_pairs(q@),
        None => Seq::empty(),
    }
}

/// Whether these credentials are those of the gateway.
pub fn credentials_match(
    expected: &str,
    pairs: &Vec<(String, String)>,
    x_api_key: Option<&str>,
    authorization: Option<&str>,
) -> (yes: bool)
    ensures
        yes == authorized(
            expected@,
            pair_texts(pairs@),
            opt_chars(x_api_key),
            opt_chars(authorization),
        ),
{
    let ghost list = pair_texts(pairs@);
    let mut i: usize = 0;
    while i < pairs.len()
        invariant
            i <= pairs@.len(),
            list == pair_texts(pairs@),
            forall|j: int| 0 <= j < i ==> #[trigger] list[j] != ("api-key"@, expected@),
        decreases pairs@.len() - i,
    {
        assert(list[i as int] == (pairs@[i as int].0@, pairs@[i as int].1@));
        if same_text(pairs[i].0.as_str(), "api-key") && same_text(pairs[i].1.as_str(), expected) {
            assert(list.contains(("api-key"@, expected@)));
            return true;
        }
        i += 1;
    }
    assert(!presents_key(list, expected@));
    if let Some(value) = x_api_key {
        if same_text(value, expected) {
            return true;
        }
    }
    if let Some(value) = authorization {
        if let Some(token) = after_prefix(value, "Bearer ") {
            if same_text(trim(token), expected) {
                return true;
            }
        }
    }
    false
}

/// Validate the gateway api-key, supplied as `?api-key=`, `x-api-key:`, or
/// `Authorization: Bearer`.
pub fn check_gateway_auth(
    expected: &str,
    query: Option<&str>,
    x_api_key: Option<&str>,
    authorization: Option<&str>,
) -> (checked: Result<(), ProxyError>)
    ensures
        checked == (if authorized(
            expected@,
            pairs_of(query),
            opt_chars(x_api_key),
            opt_chars(authorization),
        ) {
            Ok(())
        } else {
            Err(ProxyError::Unauthorized)
        }),
{
    let pairs = match query {
        Some(q) => parse_query(q),
        None => Vec::new(),
    };
    assert(pair_texts(pairs@) =~= pairs_of(query));
    if credentials_match(expected, &pairs, x_api_key, authorization) {
        Ok(())
    } else {
        Err(ProxyError::Unauthorized)
    }
}

/// Whether a request is let in, and why not.
pub open spec fn entry_check(
    gateway: &GatewayConfig,
    pairs: Seq<(Seq<char>, Seq<char>)>,
    x_api_key: Option<Seq<char>>,
    authorization: Option<Seq<char>>,
    body_len: usize,
) -> Result<(), ProxyError> {
    if !authorized(gateway.api_key@, pairs, x_api_key, authorization) {
        Err(ProxyError::Unauthorized)
    } else if body_len > gateway.max_body_bytes {
        Err(ProxyError::PayloadTooLarge)
    } else {
        Ok(())
    }
}

/// Let a request in: first its credentials are checked, then the size of its body.
pub fn let_in(
    gateway: &GatewayConfig,
    query: Option<&str>,
    x_api_key: Option<&str>,
    authorization: Option<&str>,
    body_len: usize,
) -> (checked: Result<(), ProxyError>)
    ensures
        checked == entry_check(
            gateway,
            pairs_of(query),
            opt_chars(x_api_key),
            opt_chars(authorization),
            body_len,
        ),
{
    match check_gateway_auth(gateway.api_key.as_str(), query, x_api_key, authorization) {
        Ok(_) => {},
        Err(e) => {
            return Err(e);
        },
    }
    if body_len > gateway.max_body_bytes {
        return Err(ProxyError::PayloadTooLarge);
    }
    Ok(())
}

/// Whether a header is meaningful for a single hop only (RFC 7230 §6.1), or is `host`,
/// which the client of the upstream sets.
pub open spec fn hop_by_hop(name: Seq<char>) -> bool {
    ||| equal_ignoring_case(name, "connection"@)
    ||| equal_ignoring_case(name, "keep-alive"@)
    ||| equal_ignoring_case(name, "proxy-authenticate"@)
    ||| equal_ignoring_case(name, "proxy-authorization"@)
    ||| equal_ignoring_case(name, "te"@)
    ||| equal_ignoring_case(name, "trailer"@)
    ||| equal_ignoring_case(name, "transfer-encoding"@)
    ||| equal_ignoring_case(name, "upgrade"@)
    ||| equal_ignoring_case(name, "host"@)
}

/// Whether a header carries the gateway's own credentials.
pub open spec fn gateway_auth(name: Seq<char>) -> bool {
    equal_ignoring_case(name, "x-api-key"@) || equal_ignoring_case(name, "authorization"@)
}

/// Whether a header must not be forwarded hop-to-hop.
pub fn is_hop_by_hop(name: &str) -> (yes: bool)
    ensures
        yes == hop_by_hop(name@),
{
    same_ignoring_case(name, "connection") || same_ignoring_case(name, "keep-alive")
        || same_ignoring_case(name, "proxy-authenticate") || same_ignoring_case(
        name,
        "proxy-authorization",
    ) || same_ignoring_case(name, "te") || same_ignoring_case(name, "trailer")
        || same_ignoring_case(name, "transfer-encoding") || same_ignoring_case(name, "upgrade")
        || same_ignoring_case(name, "host")
}

/// The gateway's own auth header must not leak to the upstream.
pub fn is_gateway_auth_header(name: &str) -> (yes: bool)
    ensures
        yes == gateway_auth(name@),
{
    same_ignoring_case(name, "x-api-key") || same_ignoring_case(name, "authorization")
}

/// Whether a request header goes on to the upstream.
pub fn forwards_header(name: &str) -> (yes: bool)
    ensures
        yes == (!hop_by_hop(name@) && !gateway_auth(name@)),
{
    !is_hop_by_hop(name) && !is_gateway_auth_header(name)
}

/// The parts of a query from `from` on, which `&` separates.
pub open spec fn parts_from(query: Seq<char>, from: int) -> Seq<Seq<char>>
    decreases query.len() - from,
{
    let cut = find_char(query, '&', from);
    if from < 0 || cut >= query.len() || cut < from {
        seq![query.subrange(from, query.len() as int)]
    } else {
        seq![query.subrange(from, cut)] + parts_from(query, cut + 1)
    }
}

/// The parts of a query, which `&` separates; an empty query has none.
pub open spec fn query_parts(query: Seq<char>) -> Seq<Seq<char>> {
    if query.len() == 0 {
        Seq::empty()
    } else {
        parts_from(query, 0)
    }
}

/// Takes a query apart wherever there is a `&`.
fn split_query(query: &str) -> (parts: Vec<&str>)
    ensures
        borrowed_texts(parts@) == query_parts(query@),
        forall|i: int| 0 <= i < parts@.len() ==> !(#[trigger] parts@[i])@.contains('&'),
{
    let chars = chars_of(query);
    let n = chars.len();
    let ghost q = query@;
    let mut parts: Vec<&str> = Vec::new();
    if n == 0 {
        assert(borrowed_texts(parts@) =~= query_parts(q));
        return parts;
    }
    let mut from: usize = 0;
    let mut i: usize = 0;
    assert(borrowed_texts(parts@) + parts_from(q, 0) =~= query_parts(q));
    while i < n
        invariant
            n == q.len(),
            n > 0,
            q == query@,
            chars@ == q,
            from <= i <= n,
            find_char(q, '&', from as int) == find_char(q, '&', i as int),
            query_parts(q) == borrowed_texts(parts@) + parts_from(q, from as int),
            forall|j: int| from <= j < i ==> #[trigger] q[j] != '&',
            forall|j: int| 0 <= j < parts@.len() ==> !(#[trigger] parts@[j])@.contains('&'),
        decreases n - i,
    {
        if chars[i] == '&' {
            let ghost before = borrowed_texts(parts@);
            let part = query.substring_char(from, i);
            parts.push(part);
            proof {
                let piece = q.subrange(from as int, i as int);
                assert(borrowed_texts(parts@) =~= before.push(piece));
                assert(parts_from(q, from as int) == seq![piece] + parts_from(q, i + 1));
                assert(borrowed_texts(parts@) + parts_from(q, i + 1) =~= before + (seq![piece]
                    + parts_from(q, i + 1)));
            }
            from = i + 1;
        }
        i += 1;
    }
    let ghost before = borrowed_texts(parts@);
    let part = query.substring_char(from, n);
    parts.push(part);
    assert(borrowed_texts(parts@) =~= before + seq![q.subrange(from as int, n as int)]);
    parts
}

/// The name of the parameter that a part of a query sets, decoded.
pub open spec fn decoded_name(part: Seq<char>) -> Seq<char> {
    if part.len() == 0 {
        Seq::empty()
    } else if unescaped(name_text(part)) {
        name_text(part)
    } else {
        query_pairs(part)[0].0
    }
}

/// The names of the parameters that some parts of a query set.
pub open spec fn decoded_names(parts: Seq<Seq<char>>) -> Seq<Seq<char>> {
    parts.map_values(|p: Seq<char>| decoded_name(p))
}

fn name_of(part: &str) -> (name: String)
    requires
        !part@.contains('&'),
    ensures
        name@ == decoded_name(part@),
{
    let pairs = parse_query(part);
    if part.unicode_len() == 0 || pairs.len() == 0 {
        return String::new();
    }
    assert(pair_texts(pairs@)[0] == (pairs@[0].0@, pairs@[0].1@));
    pairs[0].0.clone()
}

/// Where a name first is `api-key`, or the end of the list.
pub open spec fn first_key(names: Seq<Seq<char>>) -> int
    decreases names.len(),
{
    if names.len() == 0 {
        0
    } else if names[0] == "api-key"@ {
        0
    } else {
        1 + first_key(names.skip(1))
    }
}

/// The parts from `from` to `to` that set something else than the api-key.
pub open spec fn other_parts(
    parts: Seq<Seq<char>>,
    names: Seq<Seq<char>>,
    from: int,
    to: int,
) -> Seq<Seq<char>>
    decreases to - from,
{
    if to <= from {
        Seq::empty()
    } else if names[to - 1] == "api-key"@ {
        other_parts(parts, names, from, to - 1)
    } else {
        other_parts(parts, names, from, to - 1).push(parts[to - 1])
    }
}

/// The parts of a query with the api-key replaced: `key_part` stands where the first part was
/// that sets the api-key, or at the end where there was none; further such parts are left out,
/// and every other part is kept as it is, in its place.
pub open spec fn with_key(
    parts: Seq<Seq<char>>,
    names: Seq<Seq<char>>,
    key_part: Seq<char>,
) -> Seq<Seq<char>> {
    let at = first_key(names);
    if at < parts.len() {
        parts.take(at).push(key_part) + other_parts(parts, names, at + 1, parts.len() as int)
    } else {
        parts.push(key_part)
    }
}

/// Some parts, with `&` between them.
pub open spec fn joined(parts: Seq<Seq<char>>) -> Seq<char>
    decreases parts.len(),
{
    if parts.len() == 0 {
        Seq::empty()
    } else if parts.len() == 1 {
        parts[0]
    } else {
        joined(parts.drop_last()) + "&"@ + parts.last()
    }
}

proof fn lemma_first_key(names: Seq<Seq<char>>, k: int)
    requires
        0 <= k <= names.len(),
        forall|j: int| 0 <= j < k ==> #[trigger] names[j] != "api-key"@,
        k < names.len() ==> names[k] == "api-key"@,
    ensures
        first_key(names) == k,
    decreases k,
{
    if k > 0 {
        assert(names[0] != "api-key"@);
        let rest = names.skip(1);
        assert forall|j: int| 0 <= j < k - 1 implies #[trigger] rest[j] != "api-key"@ by {
            assert(rest[j] == names[j + 1]);
        }
        lemma_first_key(rest, k - 1);
    }
}

fn join(parts: &Vec<&str>) -> (text: String)
    requires
        parts@.len() > 0,
    ensures
        text@ == joined(borrowed_texts(parts@)),
{
    let ghost list = borrowed_texts(parts@);
    let mut text = parts[0].to_string();
    let mut i: usize = 1;
    assert(joined(list.take(1)) == list[0]);
    while i < parts.len()
        invariant
            1 <= i <= parts@.len(),
            list == borrowed_texts(parts@),
            text@ == joined(list.take(i as int)),
        decreases parts@.len() - i,
    {
        assert(list.take(i + 1).drop_last() == list.take(i as int));
        text = text.concat("&").concat(parts[i]);
        i += 1;
    }
    assert(list.take(i as int) == list);
    text
}

/// A query of those parts, which set the parameters of those names, with `key_part` as the
/// only part that sets the api-key.
pub fn replace_key(parts: &Vec<&str>, names: &Vec<String>, key_part: &str) -> (query: String)
    requires
        names@.len() == parts@.len(),
    ensures
        query@ == joined(with_key(borrowed_texts(parts@), texts(names@), key_part@)),
{
    let ghost list = borrowed_texts(parts@);
    let ghost all = texts(names@);
    let n = parts.len();
    let mut kept: Vec<&str> = Vec::new();
    let mut replaced: bool = false;
    let ghost mut at: int = 0;
    assert(borrowed_texts(kept@) =~= list.take(0));
    let mut i: usize = 0;
    while i < n
        invariant
            i <= n,
            n == parts@.len(),
            n == names@.len(),
            list == borrowed_texts(parts@),
            all == texts(names@),
            !replaced ==> {
                &&& borrowed_texts(kept@) == list.take(i as int)
                &&& forall|j: int| 0 <= j < i ==> #[trigger] all[j] != "api-key"@
            },
            replaced ==> {
                &&& 0 <= at < i
                &&& at == first_key(all)
                &&& borrowed_texts(kept@) == list.take(at).push(key_part@) + other_parts(
                    list,
                    all,
                    at + 1,
                    i as int,
                )
            },
        decreases n - i,
    {
        let ghost before = borrowed_texts(kept@);
        assert(all[i as int] == names@[i as int]@);
        assert(list[i as int] == parts@[i as int]@);
        if !same_text(names[i].as_str(), "api-key") {
            kept.push(parts[i]);
            proof {
                assert(borrowed_texts(kept@) =~= before.push(list[i as int]));
                if replaced {
                    let tail = other_parts(list, all, at + 1, i as int);
                    assert(before.push(list[i as int]) =~= list.take(at).push(key_part@)
                        + tail.push(list[i as int]));
                } else {
                    assert(list.take(i + 1) =~= list.take(i as int).push(list[i as int]));
                }
            }
        } else if !replaced {
            replaced = true;
            kept.push(key_part);
            proof {
                at = i as int;
                lemma_first_key(all, at);
                assert(borrowed_texts(kept@) =~= before.push(key_part@));
                assert(other_parts(list, all, at + 1, i + 1) =~= Seq::<Seq<char>>::empty());
                assert(before.push(key_part@) =~= list.take(at).push(key_part@)
                    + Seq::<Seq<char>>::empty());
            }
        }
        i += 1;
    }
    if !replaced {
        let ghost before = borrowed_texts(kept@);
        kept.push(key_part);
        proof {
            lemma_first_key(all, n as int);
            assert(list.take(n as int) =~= list);
            assert(borrowed_texts(kept@) =~= before.push(key_part@));
        }
    }
    assert(borrowed_texts(kept@) =~= with_key(list, all, key_part@));
    assert(kept@.len() == borrowed_texts(kept@).len());
    join(&kept)
}

/// The part of a query that sets a parameter, as `form_urlencoded` encodes it.
pub uninterp spec fn encoded_pair(name: Seq<char>, value: Seq<char>) -> Seq<char>;

/// Whether encoding leaves a text as it is: it holds ASCII letters, digits, asterisks,
/// hyphens, dots and underscores only.
pub open spec fn plain_value(text: Seq<char>) -> bool {
    forall|i: int|
        0 <= i < text.len() ==> {
            let c = #[trigger] text[i];
            c == '*' || c == '-' || c == '.' || c == '_' || 'a' <= c <= 'z' || 'A' <= c <= 'Z'
                || '0' <= c <= '9'
        }
}

/// `url::form_urlencoded::Serializer::append_pair` into an empty string. The contract names
/// the text, which the arguments alone decide. It decodes to the pair, and a plain name and a
/// plain value stand in it as they are, with `=` between them.
#[verifier::external_body]
fn encode_pair(name: &str, value: &str) -> (part: String)
    ensures
        part@ == encoded_pair(name@, value@),
        query_pairs(part@) == seq![(name@, value@)],
        plain_value(name@) && plain_value(value@) ==> part@ == name@ + "="@ + value@,
{
    url::form_urlencoded::Serializer::new(String::new()).append_pair(name, value).finish()
}

/// The part of a query that presents `key`.
pub open spec fn key_text(key: Seq<char>) -> Seq<char> {
    if plain_value(key) {
        "api-key="@ + key
    } else {
        encoded_pair("api-key"@, key)
    }
}

/// The part of a query that presents `key`.
pub(crate) fn key_part(key: &str) -> (part: String)
    ensures
        part@ == key_text(key@),
        query_pairs(part@) == seq![("api-key"@, key@)],
{
    let part = encode_pair("api-key", key);
    proof {
        reveal_strlit("api-key");
        reveal_strlit("=");
        reveal_strlit("api-key=");
        assert("api-key="@ =~= "api-key"@ + "="@);
    }
    part
}

/// The query under which a request is forwarded: the incoming one, byte for byte, but for
/// the api-key.
pub open spec fn rewritten_query_text(
    query: Option<Seq<char>>,
    upstream_key: Seq<char>,
) -> Seq<char> {
    let parts = match query {
        Some(q) => query_parts(q),
        None => Seq::empty(),
    };
    joined(with_key(parts, decoded_names(parts), key_text(upstream_key)))
}

/// The query under which a request is forwarded: the incoming one, in which the first
/// parameter named `api-key` presents the upstream's key. Further ones are left out, and
/// where there is none, the key comes last. All the rest is copied.
pub fn rewritten_query(query: Option<&str>, upstream_key: &str) -> (out: String)
    ensures
        out@ == rewritten_query_text(opt_chars(query), upstream_key@),
        query_pairs(key_text(upstream_key@)) == seq![("api-key"@, upstream_key@)],
{
    let parts = match query {
        Some(q) => split_query(q),
        None => Vec::new(),
    };
    let ghost list = borrowed_texts(parts@);
    proof {
        if query is None {
            assert(list =~= Seq::<Seq<char>>::empty());
        }
    }
    let mut names: Vec<String> = Vec::new();
    let mut i: usize = 0;
    while i < parts.len()
        invariant
            i <= parts@.len(),
            names@.len() == i,
            forall|j: int| 0 <= j < parts@.len() ==> !(#[trigger] parts@[j])@.contains('&'),
            forall|j: int| 0 <= j < i ==> (#[trigger] names@[j])@ == decoded_name(parts@[j]@),
        decreases parts@.len() - i,
    {
        names.push(name_of(parts[i]));
        i += 1;
    }
    assert(texts(names@) =~= decoded_names(list));
    let part = key_part(upstream_key);
    replace_key(&parts, &names, part.as_str())
}

/// A URL taken apart: what stands before its path, its path, and what stands behind its query.
pub uninterp spec fn url_split(url: Seq<char>) -> Option<(Seq<char>, Seq<char>, Seq<char>)>;

/// Whether a text is the address of a web server and no more: `http://` or `https://`, then a
/// host of lower-case ASCII letters and dots that begins and ends with a letter.
pub open spec fn plain_base(text: Seq<char>) -> bool {
    exists|host: Seq<char>| #[trigger] plain_host(host) && (text == "http://"@ + host || text
        == "https://"@ + host)
}

/// Whether a host is made of lower-case ASCII letters and dots, and begins and ends with a
/// letter.
pub open spec fn plain_host(host: Seq<char>) -> bool {
    &&& 0 < host.len() < 0x1_0000
    &&& host[0] != '.'
    &&& host.last() != '.'
    &&& forall|i: int|
        0 <= i < host.len() ==> 'a' <= #[trigger] host[i] <= 'z' || host[i] == '.'
}

/// What `url_split` gives, by its characters.
pub open spec fn split_texts(split: Option<(String, String, String)>) -> Option<
    (Seq<char>, Seq<char>, Seq<char>),
> {
    match split {
        Some((front, path, rest)) => Some((front@, path@, rest@)),
        None => None,
    }
}

/// `url::Url::parse`, and slices of the result by `url::Position`: up to `BeforePath`, from
/// there to `AfterPath`, and from `AfterQuery` on. The contract names the three texts, which the
/// argument alone decides; there are none where it is no URL. A plain base is a URL that is
/// all front, with `/` for a path and nothing behind it.
#[verifier::external_body]
pub(crate) fn split_url(base: &str) -> (split: Option<(String, String, String)>)
    ensures
        split_texts(split) == url_split(base@),
        plain_base(base@) ==> split_texts(split) == Some((base@, "/"@, Seq::<char>::empty())),
{
    let url = url::Url::parse(base).ok()?;
    let front = url[..url::Position::BeforePath].to_string();
    let path = url[url::Position::BeforePath..url::Position::AfterPath].to_string();
    Some((front, path, url[url::Position::AfterQuery..].to_string()))
}

/// A path that begins with a slash: the path itself, or the path behind a slash.
pub open spec fn rooted(path: Seq<char>) -> Seq<char> {
    if path.len() > 0 && path[0] == '/' {
        path
    } else {
        "/"@ + path
    }
}

/// The URL of a request behind `front`: the path and the query as they came in, but for the
/// api-key.
pub open spec fn forwarded_url(
    front: Seq<char>,
    path: Seq<char>,
    query: Option<Seq<char>>,
    upstream_key: Seq<char>,
) -> Seq<char> {
    front + rooted(path) + "?"@ + rewritten_query_text(query, upstream_key)
}

/// The URL of a request behind `front`, which is a scheme and a host.
pub fn url_behind(front: &str, path: &str, query: Option<&str>, upstream_key: &str) -> (url: String)
    ensures
        url@ == forwarded_url(front@, path@, opt_chars(query), upstream_key@),
{
    proof {
        reveal_strlit("/");
    }
    let base = if after_prefix(path, "/").is_some() {
        assert(path@.subrange(0, 1)[0] == '/');
        front.to_string().concat(path)
    } else {
        assert(path@.len() > 0 && path@[0] == '/' ==> "/"@.is_prefix_of(path@));
        front.to_string().concat("/").concat(path)
    };
    let rewritten = rewritten_query(query, upstream_key);
    let url = base.concat("?").concat(rewritten.as_str());
    assert(url@ =~= forwarded_url(front@, path@, opt_chars(query), upstream_key@));
    url
}

/// Build the upstream URL: base host + incoming path + incoming query with the
/// `api-key` parameter rewritten to the chosen upstream key. There is none where the
/// base is no URL.
pub fn build_upstream_url(
    base: &str,
    path: &str,
    query: Option<&str>,
    upstream_key: &str,
) -> (url: Option<String>)
    ensures
        match (url, url_split(base@)) {
            (Some(u), Some((front, _, _))) => u@ == forwarded_url(
                front,
                path@,
                opt_chars(query),
                upstream_key@,
            ),
            (None, None) => true,
            _ => false,
        },
        plain_base(base@) ==> (url matches Some(u) && u@ == forwarded_url(
            base@,
            path@,
            opt_chars(query),
            upstream_key@,
        )),
{
    match split_url(base) {
        Some((front, _, _)) => Some(url_behind(front.as_str(), path, query, upstream_key)),
        None => None,
    }
}

/// Whether requests can be forwarded to this base at all: whether it is a URL.
pub fn is_base_url(base: &str) -> (yes: bool)
    ensures
        yes == url_split(base@) is Some,
        plain_base(base@) ==> yes,
{
    split_url(base).is_some()
}

/// Of a query, only the api-key is rewritten. Where one part sets it, that part alone changes;
/// where none does, one part is added behind the others. In any case a part of the result is
/// the upstream's own, or one of the client's that sets something else, and every one of those
/// is there.
pub proof fn only_the_api_key_is_rewritten(
    parts: Seq<Seq<char>>,
    names: Seq<Seq<char>>,
    key_part: Seq<char>,
    i: int,
)
    requires
        names.len() == parts.len(),
        0 <= i < parts.len(),
    ensures
        names[i] == "api-key"@ && (forall|j: int|
            0 <= j < names.len() && j != i ==> #[trigger] names[j] != "api-key"@) ==> with_key(
            parts,
            names,
            key_part,
        ) == parts.update(i, key_part),
        (forall|j: int| 0 <= j < names.len() ==> #[trigger] names[j] != "api-key"@) ==> with_key(
            parts,
            names,
            key_part,
        ) == parts.push(key_part),
        names[i] != "api-key"@ ==> with_key(parts, names, key_part).contains(parts[i]),
        with_key(parts, names, key_part).contains(key_part),
        forall|part: Seq<char>| #[trigger]
            with_key(parts, names, key_part).contains(part) ==> part == key_part || exists|j: int|
                0 <= j < parts.len() && names[j] != "api-key"@ && part == #[trigger] parts[j],
{
    let n = parts.len() as int;
    let at = first_key(names);
    let all = with_key(parts, names, key_part);
    lemma_first_key_is_first(names);
    if at < n {
        let tail = other_parts(parts, names, at + 1, n);
        lemma_other_parts(parts, names, at + 1, n);
        assert(all[at] == key_part);
        if names[i] == "api-key"@ && (forall|j: int|
            0 <= j < names.len() && j != i ==> #[trigger] names[j] != "api-key"@) {
            assert(at == i);
            lemma_all_others(parts, names, at + 1, n);
            assert(all =~= parts.update(i, key_part));
        }
        if names[i] != "api-key"@ {
            if i < at {
                assert(all[i] == parts[i]);
            } else {
                assert(tail.contains(parts[i]));
                let m = choose|m: int| 0 <= m < tail.len() && tail[m] == parts[i];
                assert(all[at + 1 + m] == parts[i]);
            }
        }
        assert forall|part: Seq<char>| #[trigger] all.contains(part) implies part == key_part
            || exists|j: int|
            0 <= j < parts.len() && names[j] != "api-key"@ && part == #[trigger] parts[j] by {
            let m = choose|m: int| 0 <= m < all.len() && all[m] == part;
            if m < at {
                assert(part == parts[m]);
            } else if m > at {
                assert(tail[m - at - 1] == part);
                assert(tail.contains(part));
            }
        }
    } else {
        assert(all[n] == key_part);
        assert(all[i] == parts[i]);
        assert forall|part: Seq<char>| #[trigger] all.contains(part) implies part == key_part
            || exists|j: int|
            0 <= j < parts.len() && names[j] != "api-key"@ && part == #[trigger] parts[j] by {
            let m = choose|m: int| 0 <= m < all.len() && all[m] == part;
            if m < n {
                assert(part == parts[m]);
            }
        }
    }
}

proof fn lemma_first_key_is_first(names: Seq<Seq<char>>)
    ensures
        0 <= first_key(names) <= names.len(),
        first_key(names) < names.len() ==> names[first_key(names)] == "api-key"@,
        forall|j: int| 0 <= j < first_key(names) ==> #[trigger] names[j] != "api-key"@,
    decreases names.len(),
{
    if names.len() > 0 && names[0] != "api-key"@ {
        let rest = names.skip(1);
        lemma_first_key_is_first(rest);
        assert forall|j: int| 0 <= j < first_key(names) implies #[trigger] names[j] != "api-key"@ by {
            if j > 0 {
                assert(rest[j - 1] == names[j]);
            }
        }
    }
}

proof fn lemma_other_parts(parts: Seq<Seq<char>>, names: Seq<Seq<char>>, from: int, to: int)
    requires
        0 <= from,
        to <= parts.len(),
    ensures
        forall|part: Seq<char>| #[trigger]
            other_parts(parts, names, from, to).contains(part) <==> exists|j: int|
                from <= j < to && names[j] != "api-key"@ && part == #[trigger] parts[j],
    decreases to - from,
{
    if to > from {
        lemma_other_parts(parts, names, from, to - 1);
        let before = other_parts(parts, names, from, to - 1);
        let here = parts[to - 1];
        assert forall|part: Seq<char>| #[trigger]
            other_parts(parts, names, from, to).contains(part) <==> exists|j: int|
                from <= j < to && names[j] != "api-key"@ && part == #[trigger] parts[j] by {
            let more = before.push(here);
            if before.contains(part) {
                let m = choose|m: int| 0 <= m < before.len() && before[m] == part;
                assert(more[m] == part);
            }
            assert(more[before.len() as int] == here);
            if more.contains(part) && part != here {
                let m = choose|m: int| 0 <= m < more.len() && more[m] == part;
                assert(before[m] == part);
            }
        }
    }
}

proof fn lemma_all_others(parts: Seq<Seq<char>>, names: Seq<Seq<char>>, from: int, to: int)
    requires
        0 <= from <= to <= parts.len(),
        forall|j: int| from <= j < to ==> #[trigger] names[j] != "api-key"@,
    ensures
        other_parts(parts, names, from, to) == parts.subrange(from, to),
    decreases to - from,
{
    if to > from {
        lemma_all_others(parts, names, from, to - 1);
        assert(names[to - 1] != "api-key"@);
        assert(parts.subrange(from, to) =~= parts.subrange(from, to - 1).push(parts[to - 1]));
    } else {
        assert(parts.subrange(from, to) =~= Seq::<Seq<char>>::empty());
    }
}

/// Whether an answer says that the key is rate-limited: by its HTTP status, or by the code of
/// the JSON-RPC error in its body.
pub open spec fn rate_limited(status: u16, code: Option<i64>) -> bool {
    status == 429 || code == Some(-32005i64)
}

/// Whether an answer with that status and that JSON-RPC error code says that the key is
/// rate-limited.
pub fn signals_rate_limit(status: u16, code: Option<i64>) -> (yes: bool)
    ensures
        yes == rate_limited(status, code),
        yes <==> status == 429 || (code matches Some(c) && c == -32005),
{
    status == 429 || match code {
        Some(c) => c == -32005,
        None => false,
    }
}

/// Whether an upstream's answer says that the key is rate-limited.
pub fn is_rate_limited(status: u16, body: &[u8]) -> (yes: bool)
    ensures
        yes == rate_limited(status, json_integer_at(body@, "/error/code"@)),
        yes <==> status == 429 || (json_integer_at(body@, "/error/code"@) matches Some(c) && c
            == -32005),
{
    signals_rate_limit(status, integer_at(body, "/error/code"))
}

/// What came of forwarding a request to a key.
#[derive(Debug)]
pub enum Answer {
    /// An answer to relay.
    Serviced,
    /// HTTP 429, or JSON-RPC -32005.
    RateLimited,
    /// No answer: the reason.
    Unreachable(String),
}

/// What an answer of that status with that body is.
pub fn judge(status: u16, body: &[u8]) -> (answer: Answer)
    ensures
        answer == (if rate_limited(status, json_integer_at(body@, "/error/code"@)) {
            Answer::RateLimited
        } else {
            Answer::Serviced
        }),
        answer is RateLimited <==> status == 429 || (json_integer_at(
            body@,
            "/error/code"@,
        ) matches Some(c) && c == -32005),
        answer is Serviced <==> status != 429 && !(json_integer_at(
            body@,
            "/error/code"@,
        ) matches Some(c) && c == -32005),
{
    if is_rate_limited(status, body) {
        Answer::RateLimited
    } else {
        Answer::Serviced
    }
}

/// A try that did not bring an answer to relay.
#[derive(Debug)]
pub enum Failure {
    RateLimited,
    Unreachable(String),
}

/// Whether there were tries, and none of them reached its upstream.
pub open spec fn none_reached(failures: Seq<Failure>) -> bool {
    failures.len() > 0 && forall|i: int|
        0 <= i < failures.len() ==> (#[trigger] failures[i]) is Unreachable
}

/// Whether `error` is what a request ends with after those failures, with the keys in that
/// state: a bad gateway, for the last reason, if nothing was reached on all the tries, and
/// otherwise that all upstreams are exhausted, for as long as the soonest cooldown lasts.
pub open spec fn ends_with(
    error: ProxyError,
    failures: Seq<Failure>,
    ups: Seq<Upstream>,
    now_ms: u64,
) -> bool {
    match error {
        ProxyError::BadGateway(reason) => none_reached(failures) && (failures.last() matches
            Failure::Unreachable(last) && reason@ == last@),
        ProxyError::AllUpstreamsExhausted { retry_after_secs } => !none_reached(failures)
            && retry_after_secs == soonest_secs(ups, now_ms),
        _ => false,
    }
}

/// What is next for a request.
#[derive(Debug)]
pub enum Step {
    /// Forward it to the key at this index.
    Try(usize),
    /// Answer it with this error.
    GiveUp(ProxyError),
}

/// What is to be done with an upstream's answer.
#[derive(Debug, Clone, Copy, PartialEq, Eq, Structural)]
pub enum Verdict {
    /// Hand it on to the client.
    Relay,
    /// Drop it and go on to the next key.
    Retry,
}

/// A request on its way: what it asks for, and which keys it has tried.
#[derive(Debug)]
pub struct Exchange {
    pub class: MethodClass,
    pub cost: u64,
    /// Distinct keys to try.
    pub max_tries: u32,
    /// The keys tried so far, by index.
    pub tried: Vec<usize>,
    /// What came of the tries that are over, in their order.
    pub failures: Vec<Failure>,
}

/// What a key becomes when a request to it ends that way.
pub open spec fn settled(up: Upstream, answer: Answer, cost: u64, now_ms: u64) -> Upstream {
    match answer {
        Answer::Serviced => up.idler().charged(cost).recovered().counted_ok(),
        Answer::RateLimited => up.idler().tripped(now_ms).counted_rate_limited(),
        Answer::Unreachable(_) => up.idler().counted_error(),
    }
}

/// Some failures, with the one that this answer is, if it is one.
pub open spec fn with_failure(
    before: Seq<Failure>,
    after: Seq<Failure>,
    answer: Answer,
) -> bool {
    match answer {
        Answer::Serviced => after == before,
        Answer::RateLimited => after == before.push(Failure::RateLimited),
        Answer::Unreachable(reason) => after == before.push(Failure::Unreachable(reason)),
    }
}

/// The statistics after a request has ended with that error.
pub open spec fn noted(stats: Stats, error: ProxyError) -> Stats {
    match error {
        ProxyError::AllUpstreamsExhausted { .. } => Stats {
            all_exhausted: stats.all_exhausted.wrapping_add(1),
            ..stats
        },
        _ => stats,
    }
}

/// The key that a step goes to, if it goes to one.
pub open spec fn chosen(step: Step) -> Option<usize> {
    match step {
        Step::Try(i) => Some(i),
        Step::GiveUp(_) => None,
    }
}

impl Exchange {
    /// The tries are of distinct keys of a pool of `n`, and no more than allowed.
    pub open spec fn well_formed(&self, n: int) -> bool {
        &&& self.tried@.no_duplicates()
        &&& forall|i: int| 0 <= i < self.tried@.len() ==> (#[trigger] self.tried@[i]) < n
        &&& self.tried@.len() <= self.max_tries
    }

    /// Whether this request may try one more key.
    pub open spec fn may_try(&self) -> bool {
        self.tried@.len() < self.max_tries
    }

    /// What becomes of this request, the keys and the statistics with that step.
    pub open spec fn advanced(
        &self,
        ups: Seq<Upstream>,
        stats: Stats,
        after: Exchange,
        after_ups: Seq<Upstream>,
        after_stats: Stats,
        now_ms: u64,
        step: Step,
    ) -> bool {
        match step {
            Step::Try(i) => {
                &&& after == (Exchange { tried: after.tried, ..*self })
                &&& after.tried@ == self.tried@.push(i)
                &&& after_ups == ups.update(i as int, ups[i as int].busier())
                &&& after_stats == stats
            },
            Step::GiveUp(error) => {
                &&& after == *self
                &&& after_ups == ups
                &&& ends_with(error, self.failures@, ups, now_ms)
                &&& after_stats == noted(stats, error)
            },
        }
    }

    /// What the next step comes to: while this request may try one more key, one is selected
    /// that it has not tried yet, and the request goes there; without such a key, or without
    /// another try, it ends.
    pub open spec fn stepped(
        &self,
        pool: Pool,
        stats: Stats,
        after: Exchange,
        after_pool: Pool,
        after_stats: Stats,
        now_ms: u64,
        step: Step,
    ) -> bool {
        if self.may_try() {
            &&& after_pool.cursor == pool.next_turn()
            &&& exists|mid: Seq<Upstream>, k: int| #[trigger]
                pool.selected(
                    mid,
                    self.class,
                    self.cost,
                    self.tried@,
                    now_ms,
                    k,
                    chosen(step),
                ) && self.advanced(
                    mid,
                    stats,
                    after,
                    after_pool.upstreams@,
                    after_stats,
                    now_ms,
                    step,
                )
        } else {
            &&& step is GiveUp
            &&& after_pool == pool
            &&& self.advanced(
                pool.upstreams@,
                stats,
                after,
                pool.upstreams@,
                after_stats,
                now_ms,
                step,
            )
        }
    }

    /// A request that has tried nothing yet: its class and its cost are those of its calls.
    pub fn begin(parsed: &Parsed, costs: &CostTable, gateway: &GatewayConfig) -> (exchange: Self)
        ensures
            exchange.class == calls_class(parsed@),
            exchange.cost == calls_cost(parsed@, costs) % 0x1_0000_0000_0000_0000,
            exchange.max_tries == gateway.max_retries,
            exchange.tried@ == Seq::<usize>::empty(),
            exchange.failures@ == Seq::<Failure>::empty(),
            forall|n: int| #[trigger] exchange.well_formed(n),
    {
        Exchange {
            class: primary_class(parsed),
            cost: request_cost(parsed, costs),
            max_tries: gateway.max_retries,
            tried: Vec::new(),
            failures: Vec::new(),
        }
    }

    fn nothing_reached(&self) -> (yes: bool)
        ensures
            yes == none_reached(self.failures@),
    {
        let mut i: usize = 0;
        while i < self.failures.len()
            invariant
                i <= self.failures@.len(),
                forall|j: int|
                    0 <= j < i ==> (#[trigger] self.failures@[j]) is Unreachable,
            decreases self.failures@.len() - i,
        {
            match &self.failures[i] {
                Failure::Unreachable(_) => {},
                Failure::RateLimited => {
                    return false;
                },
            }
            i += 1;
        }
        self.failures.len() > 0
    }

    /// The error that this request ends with, if it ends now.
    pub fn final_error(&self, pool: &Pool, now_ms: u64) -> (error: ProxyError)
        ensures
            ends_with(error, self.failures@, pool.upstreams@, now_ms),
    {
        let n = self.failures.len();
        if self.nothing_reached() {
            if let Failure::Unreachable(reason) = &self.failures[n - 1] {
                return ProxyError::BadGateway(reason.clone());
            }
        }
        ProxyError::AllUpstreamsExhausted { retry_after_secs: pool.soonest_cooldown_secs(now_ms) }
    }

    /// What is next for this request, given the key that was selected for it, if any.
    pub fn proceed(
        &mut self,
        choice: Option<usize>,
        pool: &mut Pool,
        stats: &mut Stats,
        now_ms: u64,
    ) -> (step: Step)
        requires
            choice matches Some(i) ==> i < old(pool).upstreams@.len(),
        ensures
            chosen(step) == choice,
            final(pool).cursor == old(pool).cursor,
            old(self).advanced(
                old(pool).upstreams@,
                *old(stats),
                *final(self),
                final(pool).upstreams@,
                *final(stats),
                now_ms,
                step,
            ),
            choice is None ==> *final(pool) == *old(pool),
    {
        match choice {
            Some(i) => {
                self.tried.push(i);
                pool.upstreams[i].request_started();
                Step::Try(i)
            },
            None => {
                let error = self.final_error(pool, now_ms);
                if let ProxyError::AllUpstreamsExhausted { .. } = &error {
                    stats.record_exhausted();
                }
                Step::GiveUp(error)
            },
        }
    }

    /// What is next for this request: the next key that can take it, as long as it may try
    /// one more, or else the error that it ends with.
    pub fn next_step(&mut self, pool: &mut Pool, stats: &mut Stats, now_ms: u64) -> (step: Step)
        requires
            old(self).well_formed(old(pool).upstreams@.len() as int),
        ensures
            final(self).well_formed(final(pool).upstreams@.len() as int),
            final(pool).upstreams@.len() == old(pool).upstreams@.len(),
            step matches Step::Try(i) ==> i < final(pool).upstreams@.len(),
            old(self).stepped(
                *old(pool),
                *old(stats),
                *final(self),
                *final(pool),
                *final(stats),
                now_ms,
                step,
            ),
            old(self).tried@.len() >= old(self).max_tries ==> step is GiveUp,
            step matches Step::Try(i) ==> {
                &&& final(self).tried@ == old(self).tried@.push(i)
                &&& !old(self).tried@.contains(i)
                &&& old(pool).upstreams@[i as int].enabled
                &&& old(pool).upstreams@[i as int].cooldown_until <= now_ms
            },
            step is GiveUp ==> final(self).tried@ == old(self).tried@,
    {
        let ghost before = *pool;
        let choice: Option<usize> = if self.tried.len() < self.max_tries as usize {
            let found = match pool.select(self.class, self.cost, self.tried.as_slice(), now_ms) {
                Some((i, _)) => Some(i),
                None => None,
            };
            proof {
                let k = choose|k: int| #[trigger]
                    before.selected(
                        pool.upstreams@,
                        self.class,
                        self.cost,
                        self.tried@,
                        now_ms,
                        k,
                        found,
                    );
                if let Some(i) = found {
                    a_selected_key_is_fit(
                        before,
                        pool.upstreams@,
                        self.class,
                        self.cost,
                        self.tried@,
                        now_ms,
                        k,
                        i,
                    );
                }
            }
            found
        } else {
            None
        };
        self.proceed(choice, pool, stats, now_ms)
    }

    /// Settles a try: what came of forwarding this request to the key at `i`. A serviced
    /// request is charged and its answer relayed; a rate-limited key is put on cooldown; in
    /// that case and where there was no answer, the request goes on.
    pub fn settle(&mut self, i: usize, answer: Answer, pool: &mut Pool, now_ms: u64) -> (verdict:
        Verdict)
        requires
            i < old(pool).upstreams@.len(),
        ensures
            verdict == (if answer is Serviced {
                Verdict::Relay
            } else {
                Verdict::Retry
            }),
            *final(self) == (Exchange { failures: final(self).failures, ..*old(self) }),
            with_failure(old(self).failures@, final(self).failures@, answer),
            final(pool).upstreams@ == old(pool).upstreams@.update(
                i as int,
                settled(old(pool).upstreams@[i as int], answer, old(self).cost, now_ms),
            ),
            final(pool).cursor == old(pool).cursor,
            answer is Serviced ==> {
                &&& verdict is Relay
                &&& final(self).failures@ == old(self).failures@
                &&& final(pool).upstreams@[i as int].cooldown_until
                    == old(pool).upstreams@[i as int].cooldown_until
                &&& final(pool).upstreams@[i as int].backoff_step == 0
            },
            !(answer is Serviced) ==> {
                &&& verdict is Retry
                &&& final(self).failures@.len() == old(self).failures@.len() + 1
                &&& final(pool).upstreams@[i as int].credits_used
                    == old(pool).upstreams@[i as int].credits_used
            },
    {
        pool.upstreams[i].request_ended();
        match answer {
            Answer::Serviced => {
                pool.upstreams[i].add_credits(self.cost);
                pool.upstreams[i].note_success();
                pool.upstreams[i].record_ok();
                Verdict::Relay
            },
            Answer::RateLimited => {
                pool.upstreams[i].trip_cooldown(now_ms);
                pool.upstreams[i].record_rate_limited();
                self.failures.push(Failure::RateLimited);
                Verdict::Retry
            },
            Answer::Unreachable(reason) => {
                pool.upstreams[i].record_error();
                self.failures.push(Failure::Unreachable(reason));
                Verdict::Retry
            },
        }
    }
}

/// Credits are charged for a serviced request, and for nothing else; and only a rate-limited
/// answer puts a key on cooldown.
pub proof fn only_a_serviced_request_is_charged(
    up: Upstream,
    answer: Answer,
    cost: u64,
    now_ms: u64,
)
    ensures
        settled(up, answer, cost, now_ms).credits_used == (if answer is Serviced {
            up.credits_used.wrapping_add(cost)
        } else {
            up.credits_used
        }),
        settled(up, answer, cost, now_ms).credits_total == (if answer is Serviced {
            up.credits_total.wrapping_add(cost)
        } else {
            up.credits_total
        }),
        !(answer is RateLimited) ==> settled(up, answer, cost, now_ms).cooldown_until
            == up.cooldown_until,
{
}

/// A serviced request takes its cost off what the keys have left together, and a failed try
/// takes nothing.
pub proof fn a_request_is_paid_once(
    ups: Seq<Upstream>,
    i: int,
    answer: Answer,
    cost: u64,
    now_ms: u64,
)
    requires
        0 <= i < ups.len(),
        answer is Serviced ==> ups[i].affords(cost) && ups[i].credits_used + cost <= u64::MAX,
    ensures
        total_remaining(ups.update(i, settled(ups[i], answer, cost, now_ms))) == (if answer
            is Serviced {
            total_remaining(ups) - cost
        } else {
            total_remaining(ups) as int
        }),
{
    one_key_changes_the_sum(ups, i, settled(ups[i], answer, cost, now_ms));
}

/// A try counts as in flight until it is settled, and no longer.
pub proof fn a_settled_try_is_not_in_flight(
    up: Upstream,
    answer: Answer,
    cost: u64,
    now_ms: u64,
)
    ensures
        settled(up.busier(), answer, cost, now_ms).in_flight == up.in_flight,
{
}

/// A key that answered that it is rate-limited is not available again before its backoff has
/// passed.
pub proof fn a_rate_limited_key_is_left_alone(up: Upstream, cost: u64, now_ms: u64, later: u64)
    requires
        now_ms + backoff(up.backoff_step as nat, now_ms as int) <= u64::MAX,
        later < now_ms + backoff(up.backoff_step as nat, now_ms as int),
    ensures
        !settled(up, Answer::RateLimited, cost, now_ms).available(cost, later),
{
    a_tripped_key_cools_down(up, now_ms);
}

/// A request tries no key twice, no more keys than it may, and no more than there are.
pub proof fn a_request_tries_distinct_keys(exchange: Exchange, n: int)
    requires
        exchange.well_formed(n),
        n >= 0,
    ensures
        exchange.tried@.no_duplicates(),
        exchange.tried@.len() <= exchange.max_tries,
        exchange.tried@.len() <= n,
{
    let tried = exchange.tried@;
    tried.unique_seq_to_set();
    let keys = tried.map_values(|i: usize| i as int);
    assert(keys.no_duplicates()) by {
        assert forall|a: int, b: int|
            0 <= a < keys.len() && 0 <= b < keys.len() && a != b implies keys[a] != keys[b] by {
            assert(tried[a] != tried[b]);
        }
    }
    keys.unique_seq_to_set();
    vstd::set_lib::lemma_int_range(0, n);
    assert(keys.to_set().subset_of(vstd::set_lib::set_int_range(0, n))) by {
        assert forall|k: int| keys.to_set().contains(k) implies vstd::set_lib::set_int_range(
            0,
            n,
        ).contains(k) by {
            let a = choose|a: int| 0 <= a < keys.len() && keys[a] == k;
            assert(tried[a] < n);
        }
    }
    vstd::set_lib::lemma_len_subset(keys.to_set(), vstd::set_lib::set_int_range(0, n));
}

/// A request goes only to a key that is enabled, within its monthly cap, off cooldown and not
/// tried before; and no credits move until the answer is in.
pub proof fn a_request_goes_to_a_fit_key(
    exchange: Exchange,
    pool: Pool,
    stats: Stats,
    after: Exchange,
    after_pool: Pool,
    after_stats: Stats,
    now_ms: u64,
    i: usize,
)
    requires
        exchange.stepped(pool, stats, after, after_pool, after_stats, now_ms, Step::Try(i)),
    ensures
        exchange.may_try(),
        i < pool.upstreams@.len(),
        !exchange.tried@.contains(i),
        pool.upstreams@[i as int].available(exchange.cost, now_ms),
        after_pool.upstreams@.len() == pool.upstreams@.len(),
        forall|j: int|
            0 <= j < pool.upstreams@.len() ==> (#[trigger] after_pool.upstreams@[j]).credits_used
                == pool.upstreams@[j].credits_used,
{
    let (mid, k) = choose|mid: Seq<Upstream>, k: int| #[trigger]
        pool.selected(
            mid,
            exchange.class,
            exchange.cost,
            exchange.tried@,
            now_ms,
            k,
            Some(i),
        ) && exchange.advanced(
            mid,
            stats,
            after,
            after_pool.upstreams@,
            after_stats,
            now_ms,
            Step::Try(i),
        );
    a_selected_key_is_fit(
        pool,
        mid,
        exchange.class,
        exchange.cost,
        exchange.tried@,
        now_ms,
        k,
        i,
    );
    assert forall|j: int| 0 <= j < pool.upstreams@.len() implies (
    #[trigger] after_pool.upstreams@[j]).credits_used == pool.upstreams@[j].credits_used by {
        assert(mid[j].same_but_buckets(&pool.upstreams@[j]));
    }
}

/// While a request may try one more key, it does not give up if some key that comes up, and
/// that it has not tried, can take it and has a token for it for sure.
pub proof fn a_request_is_not_given_up_early(
    exchange: Exchange,
    pool: Pool,
    stats: Stats,
    after: Exchange,
    after_pool: Pool,
    after_stats: Stats,
    now_ms: u64,
    step: Step,
    ready: int,
)
    requires
        exchange.stepped(pool, stats, after, after_pool, after_stats, now_ms, step),
        exchange.may_try(),
        comes_up(pool.cursor, ready, pool.upstreams@.len() as int),
        eligible(pool.upstreams@, ready, exchange.cost, exchange.tried@, now_ms),
        pool.upstreams@[ready].limiters.must_grant(exchange.class),
    ensures
        step is Try,
{
    let (mid, k) = choose|mid: Seq<Upstream>, k: int| #[trigger]
        pool.selected(
            mid,
            exchange.class,
            exchange.cost,
            exchange.tried@,
            now_ms,
            k,
            chosen(step),
        ) && exchange.advanced(
            mid,
            stats,
            after,
            after_pool.upstreams@,
            after_stats,
            now_ms,
            step,
        );
    a_ready_key_is_enough(
        pool,
        mid,
        exchange.class,
        exchange.cost,
        exchange.tried@,
        now_ms,
        k,
        chosen(step),
        ready,
    );
}

/// A request without the gateway's key is refused with 401, whatever else it holds; one with
/// the key and too large a body with 413; and no other is refused.
pub proof fn a_refused_request_is_answered(
    gateway: &GatewayConfig,
    pairs: Seq<(Seq<char>, Seq<char>)>,
    x_api_key: Option<Seq<char>>,
    authorization: Option<Seq<char>>,
    body_len: usize,
)
    ensures
        match entry_check(gateway, pairs, x_api_key, authorization, body_len) {
            Ok(_) => authorized(gateway.api_key@, pairs, x_api_key, authorization) && body_len
                <= gateway.max_body_bytes,
            Err(error) => if authorized(gateway.api_key@, pairs, x_api_key, authorization) {
                &&& body_len > gateway.max_body_bytes
                &&& error.http_status() == 413
                &&& error.json_rpc_code() == -32600
            } else {
                &&& error.http_status() == 401
                &&& error.json_rpc_code() == -32001
            },
        },
{
}

/// A request that cannot be served is answered: with 502 if nothing was reached on any try,
/// and otherwise with 429, the JSON-RPC code for too many requests, and the time when the
/// soonest key leaves its cooldown.
pub proof fn an_unserved_request_is_answered(
    error: ProxyError,
    failures: Seq<Failure>,
    ups: Seq<Upstream>,
    now_ms: u64,
)
    requires
        ends_with(error, failures, ups, now_ms),
    ensures
        none_reached(failures) ==> error.http_status() == 502 && error.retry_after() is None,
        !none_reached(failures) ==> {
            &&& error.http_status() == 429
            &&& error.json_rpc_code() == -32005
            &&& error.retry_after() == soonest_secs(ups, now_ms)
        },
        (exists|i: int| 0 <= i < failures.len() && (#[trigger] failures[i]) is RateLimited)
            ==> error.http_status() == 429,
{
}

/// Writing a header in another case does not get it past the gateway: whether it is withheld
/// from the upstream does not depend on the case of its letters.
pub proof fn case_does_not_let_a_header_through(name: Seq<char>, other: Seq<char>)
    requires
        equal_ignoring_case(name, other),
    ensures
        gateway_auth(name) == gateway_auth(other),
        hop_by_hop(name) == hop_by_hop(other),
{
    lemma_case(name, other, "connection"@);
    lemma_case(name, other, "keep-alive"@);
    lemma_case(name, other, "proxy-authenticate"@);
    lemma_case(name, other, "proxy-authorization"@);
    lemma_case(name, other, "te"@);
    lemma_case(name, other, "trailer"@);
    lemma_case(name, other, "transfer-encoding"@);
    lemma_case(name, other, "upgrade"@);
    lemma_case(name, other, "host"@);
    lemma_case(name, other, "x-api-key"@);
    lemma_case(name, other, "authorization"@);
}

proof fn lemma_case(a: Seq<char>, b: Seq<char>, c: Seq<char>)
    requires
        equal_ignoring_case(a, b),
    ensures
        equal_ignoring_case(a, c) == equal_ignoring_case(b, c),
{
    if equal_ignoring_case(a, c) {
        assert forall|i: int| 0 <= i < b.len() implies ascii_lower(#[trigger] b[i]) == ascii_lower(
            c[i],
        ) by {
            assert(ascii_lower(a[i]) == ascii_lower(b[i]));
        }
    }
    if equal_ignoring_case(b, c) {
        assert forall|i: int| 0 <= i < a.len() implies ascii_lower(#[trigger] a[i]) == ascii_lower(
            c[i],
        ) by {
            assert(ascii_lower(a[i]) == ascii_lower(b[i]));
            assert(ascii_lower(b[i]) == ascii_lower(c[i]));
        }
    }
}

} // verus!

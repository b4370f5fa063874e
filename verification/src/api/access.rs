//! Who may call the API, and how often.

use axum::http::HeaderMap;
use vstd::hash_map::StringHashMap;
use vstd::prelude::*;
use vstd::utf8::is_ascii_chars;

use crate::api::headers::{get_text, header_fields, header_text, is_visible, opt_view};
use crate::api::metrics::{fresh_metrics, Metrics};
use crate::api::rate_limit::{
    consumed, full_bucket, grants, in_order, law_grants_bounded, run, BucketModel, TokenBucket,
    TOKEN,
};
use crate::text::{
    before_char, cut_before, has_prefix, starts_with, strip_prefix, stripped, substring, to_chars,
    trim, trim_text,
};

verus! {

/// The body of an answer that refuses a request.
#[derive(Debug, PartialEq, Eq)]
pub struct ErrorResponse {
    pub error: String,
    pub request_id: Option<String>,
}

/// An answer that refuses a request: its HTTP status and its body.
#[derive(Debug, PartialEq, Eq)]
pub struct Rejection {
    pub status: u16,
    pub body: ErrorResponse,
}

/// What a `Rejection` holds.
#[verifier::ext_equal]
pub struct RejectionModel {
    pub status: u16,
    pub error: Seq<char>,
    pub request_id: Option<Seq<char>>,
}

impl View for Rejection {
    type V = RejectionModel;

    open spec fn view(&self) -> RejectionModel {
        RejectionModel {
            status: self.status,
            error: self.body.error@,
            request_id: opt_view(self.body.request_id),
        }
    }
}

/// The answer with a status and a message, for a request that has no identifier yet.
pub open spec fn refusal(status: u16, error: Seq<char>) -> RejectionModel {
    RejectionModel { status, error, request_id: None }
}

fn reject(status: u16, error: &str) -> (r: Rejection)
    ensures
        r@ == refusal(status, error@),
{
    Rejection { status, body: ErrorResponse { error: error.to_string(), request_id: None } }
}

/// What the server knows: the languages that it has a template for, the keys that
/// it accepts, the token buckets of its callers, and its metrics.
pub struct AppState {
    pub templates: Vec<String>,
    pub api_keys: Vec<String>,
    pub rate_limiters: StringHashMap<TokenBucket>,
    pub metrics: Metrics,
}

impl AppState {
    /// A server that has not had a request yet.
    pub fn new(templates: Vec<String>, api_keys: Vec<String>) -> (r: Self)
        ensures
            r.templates == templates,
            r.api_keys == api_keys,
            buckets_of(r.rate_limiters) == Map::<Seq<char>, BucketModel>::empty(),
            r.metrics@ == fresh_metrics(),
    {
        let r = AppState {
            templates,
            api_keys,
            rate_limiters: StringHashMap::new(),
            metrics: Metrics::new(),
        };
        assert(buckets_of(r.rate_limiters) =~= Map::<Seq<char>, BucketModel>::empty());
        r
    }
}

/// The token buckets by the name of their caller.
pub open spec fn buckets_of(limiters: StringHashMap<TokenBucket>) -> Map<Seq<char>, BucketModel> {
    limiters@.map_values(|b: TokenBucket| b@)
}

/// Whether a text is one of the given strings.
pub open spec fn listed(strings: Seq<String>, s: Seq<char>) -> bool {
    exists|i: int| 0 <= i < strings.len() && (#[trigger] strings[i])@ == s
}

/// Whether a text is one of the given strings.
pub fn is_listed(strings: &Vec<String>, s: &str) -> (r: bool)
    ensures
        r == listed(strings@, s@),
{
    let key: String = s.to_string();
    let mut i: usize = 0;
    while i < strings.len()
        invariant
            i <= strings@.len(),
            key@ == s@,
            forall|j: int| 0 <= j < i ==> (#[trigger] strings@[j])@ != s@,
        decreases strings@.len() - i,
    {
        if strings[i] == key {
            return true;
        }
        i += 1;
    }
    false
}

/// The key in an `Authorization` header.
pub open spec fn bearer_token(authorization: Option<Seq<char>>) -> Option<Seq<char>> {
    match authorization {
        Some(v) => stripped(v, "Bearer "@),
        None => None,
    }
}

/// The key in an `Authorization` header, given its text.
pub fn bearer_key(authorization: Option<String>) -> (r: Option<String>)
    ensures
        opt_view(r) == bearer_token(opt_view(authorization)),
{
    match authorization {
        Some(v) => strip_prefix(v.as_str(), "Bearer "),
        None => None,
    }
}

/// The key that a request carries.
pub fn extract_api_key(headers: &HeaderMap) -> (r: Option<String>)
    ensures
        opt_view(r) == bearer_token(header_text(header_fields(*headers), "authorization"@)),
{
    proof {
        reveal_strlit("authorization");
    }
    bearer_key(get_text(headers, "authorization"))
}

/// Who a request with the given key comes from: anybody where the server has no
/// keys, else the holder of a key that it has.
pub open spec fn authenticated(api_keys: Seq<String>, key: Option<Seq<char>>) -> Result<
    Seq<char>,
    RejectionModel,
> {
    if api_keys.len() == 0 {
        Ok("anonymous"@)
    } else {
        match key {
            Some(k) => if listed(api_keys, k) {
                Ok(k)
            } else {
                Err(refusal(401, "Invalid API key"@))
            },
            None => Err(refusal(401, "Missing Authorization header"@)),
        }
    }
}

/// A result with its parts as their views.
pub open spec fn text_result(r: Result<String, Rejection>) -> Result<Seq<char>, RejectionModel> {
    match r {
        Ok(s) => Ok(s@),
        Err(e) => Err(e@),
    }
}

/// Decides whether a request with the given key is let in.
pub fn check_key(api_keys: &Vec<String>, key: Option<String>) -> (r: Result<String, Rejection>)
    ensures
        text_result(r) == authenticated(api_keys@, opt_view(key)),
{
    if api_keys.len() == 0 {
        return Ok("anonymous".to_string());
    }
    match key {
        Some(k) => if is_listed(api_keys, k.as_str()) {
            Ok(k)
        } else {
            Err(reject(401, "Invalid API key"))
        },
        None => Err(reject(401, "Missing Authorization header")),
    }
}

/// Decides whether a request is let in, and whose it is.
pub fn check_auth(state: &AppState, headers: &HeaderMap) -> (r: Result<String, Rejection>)
    ensures
        text_result(r) == authenticated(
            state.api_keys@,
            bearer_token(header_text(header_fields(*headers), "authorization"@)),
        ),
{
    check_key(&state.api_keys, extract_api_key(headers))
}

/// The address of a caller: the one that a proxy gives, in its own header or first
/// in the forwarding chain, else the one that the connection comes from.
pub open spec fn caller_address(
    connecting: Option<Seq<char>>,
    forwarded: Option<Seq<char>>,
    socket_ip: Seq<char>,
) -> Seq<char> {
    let direct = match connecting {
        Some(v) => trim(v),
        None => seq![],
    };
    let first = match forwarded {
        Some(v) => trim(before_char(v, ',')),
        None => seq![],
    };
    if direct.len() > 0 {
        direct
    } else if first.len() > 0 {
        first
    } else {
        socket_ip
    }
}

/// The address of a caller, given the texts of the headers that may name it.
pub fn client_ip(
    connecting: Option<String>,
    forwarded: Option<String>,
    socket_ip: &str,
) -> (r: String)
    ensures
        r@ == caller_address(opt_view(connecting), opt_view(forwarded), socket_ip@),
{
    if let Some(v) = connecting {
        let ip = trim_text(v.as_str());
        if !ip.as_str().is_empty() {
            return ip;
        }
    }
    if let Some(v) = forwarded {
        let first = cut_before(v.as_str(), ',');
        let ip = trim_text(first.as_str());
        if !ip.as_str().is_empty() {
            return ip;
        }
    }
    socket_ip.to_string()
}

/// The address of a caller, given the headers of the request and the address that
/// the connection comes from.
pub open spec fn request_address(fields: Map<Seq<char>, Seq<u8>>, socket_ip: Seq<char>) -> Seq<
    char,
> {
    caller_address(
        header_text(fields, "cf-connecting-ip"@),
        header_text(fields, "x-forwarded-for"@),
        socket_ip,
    )
}

/// The address of a caller, given the headers of the request and the address that
/// the connection comes from.
pub fn extract_client_ip(headers: &HeaderMap, socket_ip: &str) -> (r: String)
    ensures
        r@ == request_address(header_fields(*headers), socket_ip@),
{
    proof {
        reveal_strlit("cf-connecting-ip");
        reveal_strlit("x-forwarded-for");
    }
    client_ip(
        get_text(headers, "cf-connecting-ip"),
        get_text(headers, "x-forwarded-for"),
        socket_ip,
    )
}

/// Whether a key is one that is handed out for trying the service.
pub open spec fn is_demo(key: Seq<char>) -> bool {
    has_prefix(key, "zb_demo_"@)
}

/// The bucket that a request draws from: one for each key, but for demo keys one
/// for each address.
pub open spec fn bucket_name(key: Seq<char>, ip: Seq<char>) -> Seq<char> {
    if is_demo(key) {
        "demo:"@ + ip
    } else {
        key
    }
}

/// The bucket of a caller that is seen for the first time: 10 requests and 10 a
/// minute with a demo key, else 100 requests and 100 a second.
pub open spec fn first_bucket(key: Seq<char>, now: u64) -> BucketModel {
    if is_demo(key) {
        full_bucket(10, 600, now)
    } else {
        full_bucket(6000, 6000, now)
    }
}

/// The bucket that a request finds.
pub open spec fn found_bucket(
    buckets: Map<Seq<char>, BucketModel>,
    key: Seq<char>,
    ip: Seq<char>,
    now: u64,
) -> BucketModel {
    if buckets.contains_key(bucket_name(key, ip)) {
        buckets[bucket_name(key, ip)]
    } else {
        first_bucket(key, now)
    }
}

/// The answer to a request that comes too soon.
pub open spec fn too_many(key: Seq<char>) -> RejectionModel {
    if is_demo(key) {
        refusal(429, "Rate limit exceeded (10 req/min for demo keys)"@)
    } else {
        refusal(429, "Rate limit exceeded (100 req/s)"@)
    }
}

/// Whether a request is within its caller's rate.
pub open spec fn rate_verdict(
    buckets: Map<Seq<char>, BucketModel>,
    key: Seq<char>,
    ip: Seq<char>,
    now: u64,
) -> Result<(), RejectionModel> {
    if grants(found_bucket(buckets, key, ip, now), now as nat) {
        Ok(())
    } else {
        Err(too_many(key))
    }
}

/// The buckets after a request.
pub open spec fn rate_after(
    buckets: Map<Seq<char>, BucketModel>,
    key: Seq<char>,
    ip: Seq<char>,
    now: u64,
) -> Map<Seq<char>, BucketModel> {
    buckets.insert(
        bucket_name(key, ip),
        consumed(found_bucket(buckets, key, ip, now), now as nat),
    )
}

/// A result with its error as its view.
pub open spec fn unit_result(r: Result<(), Rejection>) -> Result<(), RejectionModel> {
    match r {
        Ok(_) => Ok(()),
        Err(e) => Err(e@),
    }
}

/// Takes a token for a request out of its caller's bucket. The address counts for
/// demo keys only.
pub fn draw_token(
    limiters: &mut StringHashMap<TokenBucket>,
    key: &str,
    ip: &str,
    now: u64,
) -> (r: Result<(), Rejection>)
    ensures
        unit_result(r) == rate_verdict(buckets_of(*old(limiters)), key@, ip@, now),
        buckets_of(*final(limiters)) == rate_after(buckets_of(*old(limiters)), key@, ip@, now),
{
    let demo: bool = starts_with(key, "zb_demo_");
    let name: String = if demo {
        let prefix: String = "demo:".to_string();
        prefix.concat(ip)
    } else {
        key.to_string()
    };
    let mut bucket: TokenBucket = match limiters.get(name.as_str()) {
        Some(b) => *b,
        None => if demo {
            TokenBucket::with_capacity(10, 600, now)
        } else {
            TokenBucket::with_capacity(6000, 6000, now)
        },
    };
    let granted: bool = bucket.try_consume(now);
    limiters.insert(name, bucket);
    proof {
        assert(buckets_of(*limiters) =~= rate_after(buckets_of(*old(limiters)), key@, ip@, now));
    }
    if granted {
        Ok(())
    } else if demo {
        Err(reject(429, "Rate limit exceeded (10 req/min for demo keys)"))
    } else {
        Err(reject(429, "Rate limit exceeded (100 req/s)"))
    }
}

/// Decides whether a request comes too soon. Without keys there is no limit.
pub fn check_rate_limit(
    state: &mut AppState,
    key: &str,
    headers: &HeaderMap,
    socket_ip: &str,
    now: u64,
) -> (r: Result<(), Rejection>)
    ensures
        final(state).templates == old(state).templates,
        final(state).api_keys == old(state).api_keys,
        final(state).metrics == old(state).metrics,
        old(state).api_keys@.len() == 0 ==> r is Ok && final(state).rate_limiters == old(
            state,
        ).rate_limiters,
        old(state).api_keys@.len() > 0 ==> {
            let ip = request_address(header_fields(*headers), socket_ip@);
            &&& unit_result(r) == rate_verdict(buckets_of(old(state).rate_limiters), key@, ip, now)
            &&& buckets_of(final(state).rate_limiters) == rate_after(
                buckets_of(old(state).rate_limiters),
                key@,
                ip,
                now,
            )
        },
{
    if state.api_keys.len() == 0 {
        return Ok(());
    }
    let ip = extract_client_ip(headers, socket_ip);
    draw_token(&mut state.rate_limiters, key, ip.as_str(), now)
}

/// A key as it may be shown: its first and its last four characters, where it has
/// more than eight.
pub open spec fn masked(key: Seq<char>) -> Seq<char> {
    if key.len() > 8 {
        key.take(4) + "..."@ + key.skip(key.len() - 4)
    } else {
        "***"@
    }
}

/// A key as it may be shown.
pub fn mask_key(key: &str) -> (r: String)
    requires
        is_ascii_chars(key@),
    ensures
        r@ == masked(key@),
{
    let chars = to_chars(key);
    let n: usize = chars.len();
    if n > 8 {
        let tail = substring(&chars, n - 4, n);
        let mut r = substring(&chars, 0, 4);
        r.append("...");
        r.append(tail.as_str());
        assert(key@.subrange(0, 4) =~= key@.take(4));
        assert(key@.subrange(n - 4, n as int) =~= key@.skip(n - 4));
        r
    } else {
        "***".to_string()
    }
}

/// A caller whose request was let in.
#[derive(Debug, PartialEq, Eq)]
pub struct Caller {
    pub api_key: String,
    pub client_ip: String,
    pub masked_key: String,
}

/// What the server answers a request before it runs anything: the caller that it
/// comes from, or why it is refused.
pub open spec fn admission(
    api_keys: Seq<String>,
    buckets: Map<Seq<char>, BucketModel>,
    fields: Map<Seq<char>, Seq<u8>>,
    socket_ip: Seq<char>,
    now: u64,
) -> Result<Seq<char>, RejectionModel> {
    let ip = request_address(fields, socket_ip);
    match authenticated(api_keys, bearer_token(header_text(fields, "authorization"@))) {
        Err(e) => Err(e),
        Ok(key) => if api_keys.len() == 0 {
            Ok(key)
        } else {
            match rate_verdict(buckets, key, ip, now) {
                Ok(_) => Ok(key),
                Err(e) => Err(e),
            }
        },
    }
}

/// The buckets after the server has decided on a request.
pub open spec fn buckets_after(
    api_keys: Seq<String>,
    buckets: Map<Seq<char>, BucketModel>,
    fields: Map<Seq<char>, Seq<u8>>,
    socket_ip: Seq<char>,
    now: u64,
) -> Map<Seq<char>, BucketModel> {
    let ip = request_address(fields, socket_ip);
    match authenticated(api_keys, bearer_token(header_text(fields, "authorization"@))) {
        Ok(key) => if api_keys.len() == 0 {
            buckets
        } else {
            rate_after(buckets, key, ip, now)
        },
        Err(_) => buckets,
    }
}

proof fn lemma_key_ascii(fields: Map<Seq<char>, Seq<u8>>)
    ensures
        bearer_token(header_text(fields, "authorization"@)) matches Some(k) ==> is_ascii_chars(k),
        is_ascii_chars("anonymous"@),
{
    reveal_strlit("anonymous");
    if let Some(v) = header_text(fields, "authorization"@) {
        assert forall|i: int| 0 <= i < v.len() implies (#[trigger] v[i]) as int <= 0x7f by {
            assert(is_visible(fields["authorization"@][i]));
        }
        assert(is_ascii_chars(v));
    }
}

/// Decides whether a request may run code, and says who it comes from.
pub fn authorize(state: &mut AppState, headers: &HeaderMap, socket_ip: &str, now: u64) -> (r:
    Result<Caller, Rejection>)
    ensures
        final(state).templates == old(state).templates,
        final(state).api_keys == old(state).api_keys,
        final(state).metrics == old(state).metrics,
        buckets_of(final(state).rate_limiters) == buckets_after(
            old(state).api_keys@,
            buckets_of(old(state).rate_limiters),
            header_fields(*headers),
            socket_ip@,
            now,
        ),
        ({
            let verdict = admission(
                old(state).api_keys@,
                buckets_of(old(state).rate_limiters),
                header_fields(*headers),
                socket_ip@,
                now,
            );
            match r {
                Ok(c) => {
                    &&& verdict == Ok::<Seq<char>, RejectionModel>(c.api_key@)
                    &&& c.client_ip@ == request_address(header_fields(*headers), socket_ip@)
                    &&& c.masked_key@ == masked(c.api_key@)
                },
                Err(e) => verdict == Err::<Seq<char>, RejectionModel>(e@),
            }
        }),
{
    let api_key: String = match check_auth(state, headers) {
        Ok(k) => k,
        Err(e) => return Err(e),
    };
    match check_rate_limit(state, api_key.as_str(), headers, socket_ip, now) {
        Ok(_) => {},
        Err(e) => return Err(e),
    }
    proof {
        lemma_key_ascii(header_fields(*headers));
    }
    let client_ip = extract_client_ip(headers, socket_ip);
    let masked_key = mask_key(api_key.as_str());
    Ok(Caller { api_key, client_ip, masked_key })
}

/// Without keys every request is let in; with keys, one that carries none of them
/// is answered with status 401 and takes no token.
pub proof fn law_keys_required(
    api_keys: Seq<String>,
    buckets: Map<Seq<char>, BucketModel>,
    fields: Map<Seq<char>, Seq<u8>>,
    socket_ip: Seq<char>,
    now: u64,
)
    ensures
        api_keys.len() == 0 ==> admission(api_keys, buckets, fields, socket_ip, now) is Ok,
        ({
            let key = bearer_token(header_text(fields, "authorization"@));
            let known = key matches Some(k) && listed(api_keys, k);
            api_keys.len() > 0 && !known ==> {
                &&& admission(api_keys, buckets, fields, socket_ip, now) matches Err(e)
                &&& e.status == 401
                &&& buckets_after(api_keys, buckets, fields, socket_ip, now) == buckets
            }
        }),
{
}

/// With a known key, a request is refused with status 429 if and only if its bucket
/// has no token.
pub proof fn law_too_many_requests(
    api_keys: Seq<String>,
    buckets: Map<Seq<char>, BucketModel>,
    fields: Map<Seq<char>, Seq<u8>>,
    socket_ip: Seq<char>,
    now: u64,
    key: Seq<char>,
)
    requires
        listed(api_keys, key),
        bearer_token(header_text(fields, "authorization"@)) == Some(key),
    ensures
        ({
            let ip = request_address(fields, socket_ip);
            let verdict = admission(api_keys, buckets, fields, socket_ip, now);
            if grants(found_bucket(buckets, key, ip, now), now as nat) {
                verdict == Ok::<Seq<char>, RejectionModel>(key)
            } else {
                verdict matches Err(e) && e.status == 429
            }
        }),
{
}

/// A request leaves the buckets of all other callers as they were.
pub proof fn law_callers_apart(
    buckets: Map<Seq<char>, BucketModel>,
    key: Seq<char>,
    ip: Seq<char>,
    now: u64,
    other_key: Seq<char>,
    other_ip: Seq<char>,
    later: u64,
)
    requires
        bucket_name(other_key, other_ip) != bucket_name(key, ip),
    ensures
        found_bucket(rate_after(buckets, key, ip, now), other_key, other_ip, later)
            == found_bucket(buckets, other_key, other_ip, later),
{
}

/// A request that asks for a token.
pub struct Draw {
    pub key: Seq<char>,
    pub ip: Seq<char>,
    pub now: u64,
}

/// The buckets of a fresh server after the given requests.
pub open spec fn after_draws(draws: Seq<Draw>) -> Map<Seq<char>, BucketModel>
    decreases draws.len(),
{
    if draws.len() == 0 {
        Map::empty()
    } else {
        let d = draws.last();
        rate_after(after_draws(draws.drop_last()), d.key, d.ip, d.now)
    }
}

/// How many of the given requests to a fresh server that draw from a bucket get a
/// token.
pub open spec fn draws_granted(draws: Seq<Draw>, name: Seq<char>) -> nat
    decreases draws.len(),
{
    if draws.len() == 0 {
        0
    } else {
        let d = draws.last();
        let before = draws_granted(draws.drop_last(), name);
        if bucket_name(d.key, d.ip) == name && rate_verdict(
            after_draws(draws.drop_last()),
            d.key,
            d.ip,
            d.now,
        ) is Ok {
            before + 1
        } else {
            before
        }
    }
}

/// When the given requests draw from a bucket.
pub open spec fn draw_times(draws: Seq<Draw>, name: Seq<char>) -> Seq<nat>
    decreases draws.len(),
{
    if draws.len() == 0 {
        seq![]
    } else if bucket_name(draws.last().key, draws.last().ip) == name {
        draw_times(draws.drop_last(), name).push(draws.last().now as nat)
    } else {
        draw_times(draws.drop_last(), name)
    }
}

/// Whether requests come one after the other.
pub open spec fn draws_in_order(draws: Seq<Draw>) -> bool {
    forall|i: int, j: int|
        0 <= i <= j < draws.len() ==> (#[trigger] draws[i]).now <= (#[trigger] draws[j]).now
}

/// Whether all requests that draw from a bucket do so with keys of one kind.
pub open spec fn one_kind(draws: Seq<Draw>, name: Seq<char>, demo: bool) -> bool {
    forall|i: int|
        0 <= i < draws.len() && bucket_name((#[trigger] draws[i]).key, draws[i].ip) == name
            ==> is_demo(draws[i].key) == demo
}

/// The first bucket for keys of a kind.
pub open spec fn bucket_of_kind(demo: bool, now: u64) -> BucketModel {
    if demo {
        full_bucket(10, 600, now)
    } else {
        full_bucket(6000, 6000, now)
    }
}

proof fn lemma_draws(draws: Seq<Draw>, name: Seq<char>, demo: bool)
    requires
        draws_in_order(draws),
        one_kind(draws, name, demo),
    ensures
        ({
            let times = draw_times(draws, name);
            let buckets = after_draws(draws);
            if times.len() == 0 {
                !buckets.contains_key(name) && draws_granted(draws, name) == 0
            } else {
                &&& times[0] <= u64::MAX
                &&& buckets.contains_key(name)
                &&& times.last() <= draws.last().now
                &&& in_order(times[0], times)
                &&& run(bucket_of_kind(demo, times[0] as u64), times) == (
                    buckets[name],
                    draws_granted(draws, name),
                )
            }
        }),
    decreases draws.len(),
{
    if draws.len() > 0 {
        let front = draws.drop_last();
        let d = draws.last();
        assert(draws_in_order(front)) by {
            assert forall|i: int, j: int| 0 <= i <= j < front.len() implies (#[trigger] front[i]).now
                <= (#[trigger] front[j]).now by {
                assert(draws[i].now <= draws[j].now);
            }
        }
        assert(one_kind(front, name, demo)) by {
            assert forall|i: int|
                0 <= i < front.len() && bucket_name((#[trigger] front[i]).key, front[i].ip)
                    == name implies is_demo(front[i].key) == demo by {
                assert(draws[i] == front[i]);
            }
        }
        lemma_draws(front, name, demo);
        let before = draw_times(front, name);
        let times = draw_times(draws, name);
        if before.len() > 0 {
            assert(draws[front.len() - 1].now <= draws[draws.len() - 1].now);
        }
        if bucket_name(d.key, d.ip) == name {
            assert(draws[draws.len() - 1] == d);
            assert(times.drop_last() =~= before);
            assert(times.last() == d.now);
            if before.len() == 0 {
                reveal_with_fuel(run, 2);
                assert(in_order(times[0], times));
            } else {
                assert(times[0] == before[0]);
                assert forall|i: int| 0 <= i < times.len() implies (if i == 0 {
                    times[0]
                } else {
                    times[i - 1]
                }) <= #[trigger] times[i] by {
                    if i < before.len() {
                        assert(times[i] == before[i]);
                    }
                }
            }
        }
    }
}

proof fn lemma_per_second(n: int, span: int, capacity: int, rate: int)
    requires
        n * TOKEN <= capacity + span * rate,
        capacity == 6_000_000_000_000,
        rate == 6000,
    ensures
        n * 1_000_000_000 <= 100 * 1_000_000_000 + 100 * span,
{
    assert(span * rate == 6000 * span) by (nonlinear_arith)
        requires
            rate == 6000,
    ;
    assert(n * TOKEN == 60_000_000_000 * n) by (nonlinear_arith);
}

proof fn lemma_per_minute(n: int, span: int, capacity: int, rate: int)
    requires
        n * TOKEN <= capacity + span * rate,
        capacity == 600_000_000_000,
        rate == 10,
    ensures
        n * 60_000_000_000 <= 10 * 60_000_000_000 + 10 * span,
{
    assert(span * rate == 10 * span) by (nonlinear_arith)
        requires
            rate == 10,
    ;
    assert(n * TOKEN == 60_000_000_000 * n) by (nonlinear_arith);
}

/// However many callers there are, one key gets no more than 100 requests, and 100
/// more for each second since its first.
pub proof fn law_key_rate(draws: Seq<Draw>, key: Seq<char>)
    requires
        !is_demo(key),
        draws_in_order(draws),
        one_kind(draws, key, false),
        draw_times(draws, key).len() > 0,
    ensures
        draws_granted(draws, key) * 1_000_000_000 <= 100 * 1_000_000_000 + 100 * (draw_times(
            draws,
            key,
        ).last() - draw_times(draws, key)[0]),
{
    let times = draw_times(draws, key);
    let n = draws_granted(draws, key);
    let span = times.last() - times[0];
    lemma_draws(draws, key, false);
    let b = bucket_of_kind(false, times[0] as u64);
    law_grants_bounded(b, times);
    assert(n * TOKEN <= b.capacity + span * b.rate);
    lemma_per_second(n as int, span, b.capacity as int, b.rate as int);
}

/// However many callers there are, one address gets no more than 10 requests with
/// demo keys, and 10 more for each minute since its first.
pub proof fn law_demo_rate(draws: Seq<Draw>, ip: Seq<char>)
    requires
        draws_in_order(draws),
        one_kind(draws, "demo:"@ + ip, true),
        draw_times(draws, "demo:"@ + ip).len() > 0,
    ensures
        draws_granted(draws, "demo:"@ + ip) * 60_000_000_000 <= 10 * 60_000_000_000 + 10 * (
        draw_times(draws, "demo:"@ + ip).last() - draw_times(draws, "demo:"@ + ip)[0]),
{
    let name = "demo:"@ + ip;
    let times = draw_times(draws, name);
    let n = draws_granted(draws, name);
    let span = times.last() - times[0];
    lemma_draws(draws, name, true);
    let b = bucket_of_kind(true, times[0] as u64);
    law_grants_bounded(b, times);
    assert(n * TOKEN <= b.capacity + span * b.rate);
    lemma_per_minute(n as int, span, b.capacity as int, b.rate as int);
}

/// Of a key of more than eight characters, the masked form gives away neither the
/// length nor any character but the first and the last four.
pub proof fn law_mask_hides(a: Seq<char>, b: Seq<char>)
    requires
        a.len() > 8,
        b.len() > 8,
        a.take(4) == b.take(4),
        a.skip(a.len() - 4) == b.skip(b.len() - 4),
    ensures
        masked(a) == masked(b),
        masked(a).len() == 11,
{
    reveal_strlit("...");
}

} // verus!

//! Who is let in, under which address and at which rate, from the headers of a request.

use vstd::prelude::*;

use crate::api::access::{
    admission, authenticated, bearer_token, bucket_name, buckets_after, caller_address,
    first_bucket, found_bucket, is_demo, listed, masked, rate_after, rate_verdict,
    request_address, RejectionModel,
};
use crate::api::headers::{header_text, visible_text};
use crate::api::rate_limit::{
    consumed, grants, law_burst_after_pause, law_full_bucket_burst, law_tokens_conserved,
    not_overfull, run, BucketModel, TOKEN,
};
use crate::text::{before_char, has_prefix, trim};
use crate::text_laws::{
    blank, lacks, law_find_char, law_find_no_char, law_stripped, law_trim_exact, tight,
};

verus! {

/// Whether a text is made of visible ASCII characters, spaces and tabs.
pub open spec fn plain_ascii(t: Seq<char>) -> bool {
    forall|i: int| 0 <= i < t.len() ==> ' ' <= #[trigger] t[i] <= '~' || t[i] == '\t'
}

/// The bytes of an ASCII text.
pub open spec fn ascii_bytes(t: Seq<char>) -> Seq<u8> {
    t.map_values(|c: char| c as u8)
}

/// The text of a header is what its bytes spell.
pub proof fn law_header_text(fields: Map<Seq<char>, Seq<u8>>, name: Seq<char>, t: Seq<char>)
    requires
        plain_ascii(t),
        fields.contains_key(name),
        fields[name] == ascii_bytes(t),
    ensures
        header_text(fields, name) == Some(t),
{
    let b = ascii_bytes(t);
    assert forall|i: int| 0 <= i < b.len() implies 32 <= #[trigger] b[i] < 127 || b[i] == 9 by {
        assert(' ' <= t[i] <= '~' || t[i] == '\t');
    }
    assert forall|i: int| 0 <= i < t.len() implies b[i] as char == t[i] by {
        assert(' ' <= t[i] <= '~' || t[i] == '\t');
    }
    assert(visible_text(b).unwrap() =~= t);
}

/// A header with any other byte has no text, and neither has one that is not there.
pub proof fn law_no_header_text(fields: Map<Seq<char>, Seq<u8>>, name: Seq<char>, i: int)
    ensures
        !fields.contains_key(name) ==> header_text(fields, name) is None,
        fields.contains_key(name) && 0 <= i < fields[name].len() && (fields[name][i] >= 127
            || fields[name][i] < 32 && fields[name][i] != 9) ==> header_text(fields, name) is None,
{
}

/// The key in an authorization is what follows "Bearer ", and only there is one.
pub proof fn law_bearer(key: Seq<char>, other: Seq<char>)
    ensures
        bearer_token(Some("Bearer "@ + key)) == Some(key),
        !has_prefix(other, "Bearer "@) ==> bearer_token(Some(other)) is None,
        bearer_token(None) is None,
{
    law_stripped("Bearer "@, key);
}

/// Every key of the server is accepted, and no other text.
pub proof fn law_every_key_listed(api_keys: Seq<String>, i: int, other: Seq<char>)
    requires
        0 <= i < api_keys.len(),
        forall|j: int| 0 <= j < api_keys.len() ==> (#[trigger] api_keys[j])@ != other,
    ensures
        authenticated(api_keys, Some(api_keys[i]@)) == Ok::<Seq<char>, RejectionModel>(
            api_keys[i]@,
        ),
        authenticated(api_keys, Some(other)) matches Err(e) && e.status == 401,
        authenticated(api_keys, None) matches Err(e) && e.status == 401,
{
}

/// A request that carries any of the server's keys is let in under it, as long as its
/// bucket has a token; the token is taken.
pub proof fn law_key_admitted(
    api_keys: Seq<String>,
    i: int,
    buckets: Map<Seq<char>, BucketModel>,
    fields: Map<Seq<char>, Seq<u8>>,
    socket_ip: Seq<char>,
    now: u64,
)
    requires
        0 <= i < api_keys.len(),
        plain_ascii(api_keys[i]@),
        fields.contains_key("authorization"@),
        fields["authorization"@] == ascii_bytes("Bearer "@ + api_keys[i]@),
    ensures
        ({
            let key = api_keys[i]@;
            let ip = request_address(fields, socket_ip);
            let b = found_bucket(buckets, key, ip, now);
            &&& grants(b, now as nat) <==> admission(api_keys, buckets, fields, socket_ip, now)
                == Ok::<Seq<char>, RejectionModel>(key)
            &&& !grants(b, now as nat) ==> (admission(
                api_keys,
                buckets,
                fields,
                socket_ip,
                now,
            ) matches Err(e) && e.status == 429)
            &&& buckets_after(api_keys, buckets, fields, socket_ip, now) == buckets.insert(
                if is_demo(key) {
                    "demo:"@ + ip
                } else {
                    key
                },
                consumed(b, now as nat),
            )
        }),
{
    reveal_strlit("Bearer ");
    let key = api_keys[i]@;
    let t = "Bearer "@ + key;
    assert forall|j: int| 0 <= j < t.len() implies ' ' <= #[trigger] t[j] <= '~' || t[j]
        == '\t' by {
        if j >= 7 {
            assert(t[j] == key[j - 7]);
        }
    }
    law_header_text(fields, "authorization"@, t);
    law_bearer(key, key);
    assert(listed(api_keys, key));
}

/// A demo key is one that starts with "zb_demo_".
pub proof fn law_demo_keys(rest: Seq<char>, key: Seq<char>)
    ensures
        is_demo("zb_demo_"@ + rest),
        is_demo(key) ==> key == "zb_demo_"@ + key.skip(8),
{
    law_stripped("zb_demo_"@, rest);
    reveal_strlit("zb_demo_");
    if is_demo(key) {
        assert(key =~= key.subrange(0, 8) + key.skip(8));
    }
}

/// Demo keys share a bucket if and only if they come from the same address. Any other
/// key has a bucket of its own, wherever it comes from.
pub proof fn law_buckets_shared(a: Seq<char>, b: Seq<char>, ip: Seq<char>, other_ip: Seq<char>)
    ensures
        is_demo(a) && is_demo(b) ==> (bucket_name(a, ip) == bucket_name(b, other_ip) <==> ip
            == other_ip),
        !is_demo(a) && !is_demo(b) ==> (bucket_name(a, ip) == bucket_name(b, other_ip) <==> a
            == b),
{
    let p = "demo:"@;
    if p + ip == p + other_ip {
        law_stripped(p, ip);
        law_stripped(p, other_ip);
        assert(ip =~= (p + ip).skip(p.len() as int));
        assert(other_ip =~= (p + other_ip).skip(p.len() as int));
    }
}

/// The next request of a caller finds the bucket as its last one left it.
pub proof fn law_same_caller(
    buckets: Map<Seq<char>, BucketModel>,
    key: Seq<char>,
    ip: Seq<char>,
    now: u64,
    later: u64,
)
    ensures
        found_bucket(rate_after(buckets, key, ip, now), key, ip, later) == consumed(
            found_bucket(buckets, key, ip, now),
            now as nat,
        ),
{
}

/// A caller that is seen for the first time has 100 requests granted at once, or 10 with
/// a demo key.
pub proof fn law_first_burst(
    buckets: Map<Seq<char>, BucketModel>,
    key: Seq<char>,
    ip: Seq<char>,
    now: u64,
    times: Seq<nat>,
)
    requires
        !buckets.contains_key(bucket_name(key, ip)),
        times.len() <= if is_demo(key) {
            10int
        } else {
            100
        },
    ensures
        run(found_bucket(buckets, key, ip, now), times).1 == times.len(),
{
    let b = found_bucket(buckets, key, ip, now);
    assert(times.len() * TOKEN == 60_000_000_000 * times.len()) by (nonlinear_arith);
    law_full_bucket_burst(b, times);
}

/// After a pause, a caller has a request granted for every hundredth of a second of it,
/// up to 100 at once; with a demo key for every six seconds, up to 10.
pub proof fn law_burst_returns(
    b: BucketModel,
    key: Seq<char>,
    start: u64,
    now: nat,
    times: Seq<nat>,
)
    requires
        b.rate == first_bucket(key, start).rate,
        b.capacity == first_bucket(key, start).capacity,
        not_overfull(b),
        b.last_refill <= now,
        forall|i: int| 0 <= i < times.len() ==> #[trigger] times[i] == now,
        if is_demo(key) {
            times.len() <= 10 && times.len() * 6_000_000_000 <= now - b.last_refill
        } else {
            times.len() <= 100 && times.len() * 10_000_000 <= now - b.last_refill
        },
    ensures
        run(b, times).1 == times.len(),
{
    let n = times.len() as int;
    let span = now - b.last_refill;
    assert(n * TOKEN == 60_000_000_000 * n) by (nonlinear_arith);
    if is_demo(key) {
        assert(span * b.rate == 10 * span) by (nonlinear_arith)
            requires
                b.rate == 10,
        ;
    } else {
        assert(span * b.rate == 6000 * span) by (nonlinear_arith)
            requires
                b.rate == 6000,
        ;
    }
    law_burst_after_pause(b, now, times);
}

/// A caller's address is the one that the proxy names, without the space around
/// it.
pub proof fn law_connecting_address(
    before: Seq<char>,
    ip: Seq<char>,
    after: Seq<char>,
    forwarded: Option<Seq<char>>,
    socket_ip: Seq<char>,
)
    requires
        blank(before),
        blank(after),
        tight(ip),
        ip.len() > 0,
    ensures
        caller_address(Some(before + ip + after), forwarded, socket_ip) == ip,
{
    law_trim_exact(before, ip, after);
}

/// Without one, a caller's address is the first of those that the request was forwarded
/// for, without the space around it.
pub proof fn law_forwarded_address(
    connecting: Option<Seq<char>>,
    before: Seq<char>,
    ip: Seq<char>,
    after: Seq<char>,
    rest: Seq<char>,
    socket_ip: Seq<char>,
)
    requires
        connecting matches Some(v) ==> blank(v),
        blank(before),
        blank(after),
        tight(ip),
        ip.len() > 0,
        lacks(ip, ','),
    ensures
        caller_address(connecting, Some(before + ip + after + seq![','] + rest), socket_ip) == ip,
        caller_address(connecting, Some(before + ip + after), socket_ip) == ip,
{
    lemma_blank_trimmed(connecting);
    let first = before + ip + after;
    assert forall|i: int| 0 <= i < first.len() implies #[trigger] first[i] != ',' by {
        if i < before.len() {
            assert(first[i] == before[i]);
        } else if i < before.len() + ip.len() {
            assert(first[i] == ip[i - before.len()]);
        } else {
            assert(first[i] == after[i - before.len() - ip.len()]);
        }
    }
    law_find_char(first, ',', rest);
    law_find_no_char(first, ',');
    law_trim_exact(before, ip, after);
}

/// Without either, a caller's address is that of the connection.
pub proof fn law_socket_address(
    connecting: Option<Seq<char>>,
    forwarded: Option<Seq<char>>,
    socket_ip: Seq<char>,
)
    requires
        connecting matches Some(v) ==> blank(v),
        forwarded matches Some(v) ==> blank(before_char(v, ',')),
    ensures
        caller_address(connecting, forwarded, socket_ip) == socket_ip,
{
    lemma_blank_trimmed(connecting);
    if let Some(v) = forwarded {
        lemma_blank_trimmed(Some(before_char(v, ',')));
    }
}

proof fn lemma_blank_trimmed(s: Option<Seq<char>>)
    requires
        s matches Some(v) ==> blank(v),
    ensures
        s matches Some(v) ==> trim(v).len() == 0,
{
    if let Some(v) = s {
        let none = Seq::<char>::empty();
        law_trim_exact(v, none, none);
        assert(v + none + none =~= v);
    }
}

/// The address of a request is taken from the header of the proxy and from that of the
/// forwarding, and from no other.
pub proof fn law_address_headers(
    fields: Map<Seq<char>, Seq<u8>>,
    others: Map<Seq<char>, Seq<u8>>,
    socket_ip: Seq<char>,
)
    requires
        header_text(fields, "cf-connecting-ip"@) == header_text(others, "cf-connecting-ip"@),
        header_text(fields, "x-forwarded-for"@) == header_text(others, "x-forwarded-for"@),
    ensures
        request_address(fields, socket_ip) == request_address(others, socket_ip),
        request_address(fields, socket_ip) == caller_address(
            header_text(fields, "cf-connecting-ip"@),
            header_text(fields, "x-forwarded-for"@),
            socket_ip,
        ),
{
}

/// A key that is shown has its first and its last four characters, where it has more
/// than these; of a shorter one nothing is shown.
pub proof fn law_mask_shows(a: Seq<char>, hidden: Seq<char>, b: Seq<char>, short: Seq<char>)
    requires
        a.len() == 4,
        b.len() == 4,
        hidden.len() > 0,
        short.len() <= 8,
    ensures
        masked(a + hidden + b) == a + "..."@ + b,
        masked(short) == "***"@,
{
    let key = a + hidden + b;
    assert(key.take(4) =~= a);
    assert(key.skip(key.len() - 4) =~= b);
}

/// A server without keys lets every request in, as that of an anonymous caller, and counts
/// none of them.
pub proof fn law_open_server(
    buckets: Map<Seq<char>, BucketModel>,
    fields: Map<Seq<char>, Seq<u8>>,
    socket_ip: Seq<char>,
    now: u64,
)
    ensures
        admission(seq![], buckets, fields, socket_ip, now) == Ok::<Seq<char>, RejectionModel>(
            "anonymous"@,
        ),
        buckets_after(seq![], buckets, fields, socket_ip, now) == buckets,
{
}

/// What a request that is refused is told.
pub proof fn law_refusals(
    api_keys: Seq<String>,
    unknown: Seq<char>,
    buckets: Map<Seq<char>, BucketModel>,
    key: Seq<char>,
    ip: Seq<char>,
    now: u64,
)
    requires
        api_keys.len() > 0,
        forall|j: int| 0 <= j < api_keys.len() ==> (#[trigger] api_keys[j])@ != unknown,
        !grants(found_bucket(buckets, key, ip, now), now as nat),
    ensures
        authenticated(api_keys, None) matches Err(e) && e.status == 401 && e.error
            == "Missing Authorization header"@ && e.request_id is None,
        authenticated(api_keys, Some(unknown)) matches Err(e) && e.status == 401 && e.error
            == "Invalid API key"@ && e.request_id is None,
        rate_verdict(buckets, key, ip, now) matches Err(e) && e.status == 429 && e.error == (
        if is_demo(key) {
            "Rate limit exceeded (10 req/min for demo keys)"@
        } else {
            "Rate limit exceeded (100 req/s)"@
        }) && e.request_id is None,
{
}

/// A request takes exactly one token out of its caller's bucket where it is granted, and
/// none where it is not.
pub proof fn law_one_token_each(
    buckets: Map<Seq<char>, BucketModel>,
    key: Seq<char>,
    ip: Seq<char>,
    now: u64,
)
    requires
        found_bucket(buckets, key, ip, now).last_refill == now,
        not_overfull(found_bucket(buckets, key, ip, now)),
    ensures
        ({
            let before = found_bucket(buckets, key, ip, now);
            let after = rate_after(buckets, key, ip, now)[bucket_name(key, ip)];
            if rate_verdict(buckets, key, ip, now) is Ok {
                after.tokens + TOKEN == before.tokens
            } else {
                after.tokens == before.tokens && before.tokens < TOKEN
            }
        }),
{
    let b = found_bucket(buckets, key, ip, now);
    law_tokens_conserved(b, now as nat);
    assert((now - b.last_refill) * b.rate == 0) by (nonlinear_arith)
        requires
            now == b.last_refill,
    ;
}

} // verus!

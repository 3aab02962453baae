//! Host normalization and URL construction for provider endpoints: scheme
//! stripping, local-address detection, HTTP and WebSocket URL assembly.

use vstd::prelude::*;
use crate::text::{
    chars_to_string, chars_eq, find_char, push_all, push_str_chars, seq_starts_with, starts_with,
    str_to_chars, subvec,
};

verus! {

/// The characters of `"http://"`.
pub open spec fn http_prefix() -> Seq<char> {
    seq!['h', 't', 't', 'p', ':', '/', '/']
}

/// The characters of `"https://"`.
pub open spec fn https_prefix() -> Seq<char> {
    seq!['h', 't', 't', 'p', 's', ':', '/', '/']
}

/// The characters of `"://"`.
pub open spec fn scheme_marker() -> Seq<char> {
    seq![':', '/', '/']
}

/// `s` with every leading repetition of `p` removed.
pub open spec fn strip_all_prefix(s: Seq<char>, p: Seq<char>) -> Seq<char>
    decreases s.len(),
{
    if p.len() > 0 && seq_starts_with(s, p) {
        strip_all_prefix(s.skip(p.len() as int), p)
    } else {
        s
    }
}

/// `s` with every trailing `c` removed.
pub open spec fn trim_end_char(s: Seq<char>, c: char) -> Seq<char>
    decreases s.len(),
{
    if s.len() > 0 && s.last() == c {
        trim_end_char(s.drop_last(), c)
    } else {
        s
    }
}

/// `s` with every leading `c` removed.
pub open spec fn trim_start_char(s: Seq<char>, c: char) -> Seq<char>
    decreases s.len(),
{
    if s.len() > 0 && s.first() == c {
        trim_start_char(s.skip(1), c)
    } else {
        s
    }
}

/// Does `s` contain `p` as a contiguous subsequence?
pub open spec fn contains_seq(s: Seq<char>, p: Seq<char>) -> bool {
    exists|i: int| 0 <= i <= s.len() - p.len() && #[trigger] s.subrange(i, i + p.len()) == p
}

/// The prefix of `s` before its first `c`, or all of `s`.
pub open spec fn prefix_before(s: Seq<char>, c: char) -> Seq<char> {
    if exists|i: int| 0 <= i < s.len() && s[i] == c {
        let i = choose|i: int|
            0 <= i < s.len() && s[i] == c && forall|j: int| 0 <= j < i ==> #[trigger] s[j] != c;
        s.subrange(0, i)
    } else {
        s
    }
}

/// A host's normalized key: scheme prefixes stripped, trailing slashes
/// removed.
pub open spec fn spec_normalize_host(s: Seq<char>) -> Seq<char> {
    trim_end_char(strip_all_prefix(strip_all_prefix(s, http_prefix()), https_prefix()), '/')
}

/// Is this host (scheme and port removed) a local or private address?
pub open spec fn spec_is_local(host_part: Seq<char>) -> bool {
    ||| host_part == seq!['l', 'o', 'c', 'a', 'l', 'h', 'o', 's', 't']
    ||| host_part == seq!['1', '2', '7', '.', '0', '.', '0', '.', '1']
    ||| host_part == seq!['0', '.', '0', '.', '0', '.', '0']
    ||| seq_starts_with(host_part, seq!['1', '9', '2', '.', '1', '6', '8', '.'])
    ||| seq_starts_with(host_part, seq!['1', '0', '.'])
}

fn http_prefix_vec() -> (r: Vec<char>)
    ensures
        r@ == http_prefix(),
{
    let r = str_to_chars("http://");
    proof {
        reveal_strlit("http://");
        assert(r@ =~= http_prefix());
    }
    r
}

fn https_prefix_vec() -> (r: Vec<char>)
    ensures
        r@ == https_prefix(),
{
    let r = str_to_chars("https://");
    proof {
        reveal_strlit("https://");
        assert(r@ =~= https_prefix());
    }
    r
}

/// Removes every leading repetition of `p` from `v`.
fn strip_all_prefix_vec(v: Vec<char>, p: &Vec<char>) -> (r: Vec<char>)
    requires
        p@.len() > 0,
    ensures
        r@ == strip_all_prefix(v@, p@),
    decreases v@.len(),
{
    if starts_with(&v, p) {
        let rest = subvec(&v, p.len(), v.len());
        proof {
            assert(rest@ =~= v@.skip(p@.len() as int));
        }
        strip_all_prefix_vec(rest, p)
    } else {
        v
    }
}

/// Removes every trailing `c` from `v`.
pub fn trim_end_char_vec(v: Vec<char>, c: char) -> (r: Vec<char>)
    ensures
        r@ == trim_end_char(v@, c),
{
    let mut v = v;
    let ghost orig = v@;
    while v.len() > 0 && v[v.len() - 1] == c
        invariant
            trim_end_char(v@, c) == trim_end_char(orig, c),
        decreases v@.len(),
    {
        let ghost pre = v@;
        v.pop();
        proof {
            assert(v@ =~= pre.drop_last());
        }
    }
    v
}

/// Removes every leading `c` from `v`.
fn trim_start_char_vec(v: Vec<char>, c: char) -> (r: Vec<char>)
    ensures
        r@ == trim_start_char(v@, c),
{
    proof {
        assert(v@.skip(0) =~= v@);
    }
    let mut i: usize = 0;
    while i < v.len() && v[i] == c
        invariant
            i <= v@.len(),
            trim_start_char(v@.skip(i as int), c) == trim_start_char(v@, c),
        decreases v@.len() - i,
    {
        proof {
            assert(v@.skip(i as int).len() > 0 && v@.skip(i as int).first() == c);
            assert(v@.skip(i as int).skip(1) =~= v@.skip(i + 1));
        }
        i = i + 1;
    }
    let r = subvec(&v, i, v.len());
    proof {
        assert(r@ =~= v@.skip(i as int));
        if i < v@.len() {
            assert(v@.skip(i as int).first() != c);
        }
    }
    r
}

/// Does `v` contain `p` as a contiguous subsequence?
fn contains_seq_vec(v: &Vec<char>, p: &Vec<char>) -> (r: bool)
    ensures
        r == contains_seq(v@, p@),
{
    if p.len() > v.len() {
        proof {
            assert(!contains_seq(v@, p@));
        }
        return false;
    }
    if p.len() == 0 {
        proof {
            assert(v@.subrange(0, 0 + p@.len() as int) =~= p@);
            assert(contains_seq(v@, p@));
        }
        return true;
    }
    let mut i: usize = 0;
    while i <= v.len() - p.len()
        invariant
            0 < p@.len() <= v@.len(),
            i <= v@.len() - p@.len() + 1,
            forall|k: int| 0 <= k < i ==> #[trigger] v@.subrange(k, k + p@.len()) != p@,
        decreases v@.len() - p@.len() - i + 1,
    {
        let window = subvec(v, i, i + p.len());
        if chars_eq(&window, p) {
            proof {
                assert(v@.subrange(i as int, i as int + p@.len()) == p@);
            }
            return true;
        }
        i = i + 1;
    }
    false
}

/// The prefix of `v` before its first `c`.
pub fn prefix_before_vec(v: &Vec<char>, c: char) -> (r: Vec<char>)
    ensures
        r@ == prefix_before(v@, c),
{
    match find_char(v, 0, c) {
        Some(i) => {
            let r = subvec(v, 0, i);
            proof {
                let w = choose|w: int|
                    0 <= w < v@.len() && v@[w] == c && forall|j: int| 0 <= j < w ==> #[trigger] v@[j]
                        != c;
                assert(v@[i as int] == c);
                assert(w == i);
            }
            r
        },
        None => {
            let r = subvec(v, 0, v.len());
            proof {
                assert(r@ =~= v@);
            }
            r
        },
    }
}

/// Is `host_part` a local or private address?
fn is_local_part(host_part: &Vec<char>) -> (r: bool)
    ensures
        r == spec_is_local(host_part@),
{
    let localhost = str_to_chars("localhost");
    let loopback = str_to_chars("127.0.0.1");
    let wildcard = str_to_chars("0.0.0.0");
    let lan = str_to_chars("192.168.");
    let ten = str_to_chars("10.");
    proof {
        reveal_strlit("localhost");
        reveal_strlit("127.0.0.1");
        reveal_strlit("0.0.0.0");
        reveal_strlit("192.168.");
        reveal_strlit("10.");
        assert(localhost@ =~= seq!['l', 'o', 'c', 'a', 'l', 'h', 'o', 's', 't']);
        assert(loopback@ =~= seq!['1', '2', '7', '.', '0', '.', '0', '.', '1']);
        assert(wildcard@ =~= seq!['0', '.', '0', '.', '0', '.', '0']);
        assert(lan@ =~= seq!['1', '9', '2', '.', '1', '6', '8', '.']);
        assert(ten@ =~= seq!['1', '0', '.']);
    }
    chars_eq(host_part, &localhost) || chars_eq(host_part, &loopback) || chars_eq(
        host_part,
        &wildcard,
    ) || starts_with(host_part, &lan) || starts_with(host_part, &ten)
}

/// The characters of `"ws://"`.
pub open spec fn ws_prefix() -> Seq<char> {
    seq!['w', 's', ':', '/', '/']
}

/// The characters of `"wss://"`.
pub open spec fn wss_prefix() -> Seq<char> {
    seq!['w', 's', 's', ':', '/', '/']
}

/// Is `c` ASCII whitespace?
pub open spec fn is_space(c: char) -> bool {
    c == ' ' || c == '\t' || c == '\n' || c == '\r'
}

/// Is `s` entirely whitespace (or empty)?
pub open spec fn all_spaces(s: Seq<char>) -> bool {
    forall|i: int| 0 <= i < s.len() ==> is_space(#[trigger] s[i])
}

/// The base HTTP origin for a provider domain: kept as given when it names
/// a scheme, otherwise prefixed `http://` for local addresses and
/// `https://` for public ones; empty for a blank domain.
pub open spec fn spec_api_base_url(d: Seq<char>) -> Seq<char> {
    if all_spaces(d) {
        Seq::<char>::empty()
    } else if contains_seq(d, scheme_marker()) {
        trim_end_char(d, '/')
    } else if spec_is_local(prefix_before(d, ':')) {
        http_prefix() + trim_end_char(d, '/')
    } else {
        https_prefix() + trim_end_char(d, '/')
    }
}

/// An absolute URL for `p` against the provider domain `d`; absolute
/// inputs pass through unchanged.
pub open spec fn spec_api_url(d: Seq<char>, p: Seq<char>) -> Seq<char> {
    if seq_starts_with(p, http_prefix()) || seq_starts_with(p, https_prefix()) {
        p
    } else {
        let base = spec_api_base_url(d);
        if base.len() == 0 {
            if p.len() > 0 && p.first() == '/' {
                p
            } else {
                seq!['/'] + p
            }
        } else {
            trim_end_char(base, '/') + seq!['/'] + trim_start_char(p, '/')
        }
    }
}

/// An absolute URL for `p` against `host` when one is given and differs
/// from the current domain, else against the current domain.
pub open spec fn spec_api_url_for_host(
    cur: Seq<char>,
    host: Option<Seq<char>>,
    p: Seq<char>,
) -> Seq<char> {
    let h = if host is Some {
        host->0
    } else {
        Seq::<char>::empty()
    };
    let nh = spec_normalize_host(h);
    if h.len() == 0 || nh == spec_normalize_host(cur) {
        spec_api_url(cur, p)
    } else {
        let base = if contains_seq(h, scheme_marker()) {
            trim_end_char(h, '/')
        } else if spec_is_local(prefix_before(nh, ':')) {
            http_prefix() + nh
        } else {
            https_prefix() + nh
        };
        trim_end_char(base, '/') + seq!['/'] + trim_start_char(p, '/')
    }
}

/// `url` with its HTTP scheme replaced by the matching WebSocket scheme;
/// a relative `url` is appended to the domain's WebSocket origin.
pub open spec fn spec_http_to_ws(url: Seq<char>, domain: Seq<char>) -> Seq<char> {
    if seq_starts_with(url, https_prefix()) {
        wss_prefix() + url.skip(8)
    } else if seq_starts_with(url, http_prefix()) {
        ws_prefix() + url.skip(7)
    } else {
        let origin = spec_api_base_url(domain);
        let ws_origin = if seq_starts_with(origin, https_prefix()) {
            wss_prefix() + origin.skip(8)
        } else if seq_starts_with(origin, http_prefix()) {
            ws_prefix() + origin.skip(7)
        } else {
            origin
        };
        trim_end_char(ws_origin, '/') + (if url.len() > 0 && url.first() == '/' {
            url
        } else {
            seq!['/'] + url
        })
    }
}

fn ws_prefix_vec() -> (r: Vec<char>)
    ensures
        r@ == ws_prefix(),
{
    let r = str_to_chars("ws://");
    proof {
        reveal_strlit("ws://");
        assert(r@ =~= ws_prefix());
    }
    r
}

fn wss_prefix_vec() -> (r: Vec<char>)
    ensures
        r@ == wss_prefix(),
{
    let r = str_to_chars("wss://");
    proof {
        reveal_strlit("wss://");
        assert(r@ =~= wss_prefix());
    }
    r
}

fn scheme_marker_vec() -> (r: Vec<char>)
    ensures
        r@ == scheme_marker(),
{
    let r = str_to_chars("://");
    proof {
        reveal_strlit("://");
        assert(r@ =~= scheme_marker());
    }
    r
}

fn all_spaces_vec(v: &Vec<char>) -> (r: bool)
    ensures
        r == all_spaces(v@),
{
    let mut i: usize = 0;
    while i < v.len()
        invariant
            i <= v@.len(),
            forall|j: int| 0 <= j < i ==> is_space(#[trigger] v@[j]),
        decreases v@.len() - i,
    {
        let c = v[i];
        if !(c == ' ' || c == '\t' || c == '\n' || c == '\r') {
            return false;
        }
        i = i + 1;
    }
    true
}

/// `spec_api_base_url` on vectors of characters.
fn api_base_url_vec(d: &Vec<char>) -> (r: Vec<char>)
    ensures
        r@ == spec_api_base_url(d@),
{
    if all_spaces_vec(d) {
        return Vec::new();
    }
    let marker = scheme_marker_vec();
    let trimmed = trim_end_char_vec(d.clone(), '/');
    if contains_seq_vec(d, &marker) {
        return trimmed;
    }
    let part = prefix_before_vec(d, ':');
    let mut r: Vec<char> = if is_local_part(&part) {
        http_prefix_vec()
    } else {
        https_prefix_vec()
    };
    push_all(&mut r, &trimmed);
    r
}

/// `spec_api_url` on vectors of characters.
fn api_url_vec(d: &Vec<char>, p: &Vec<char>) -> (r: Vec<char>)
    ensures
        r@ == spec_api_url(d@, p@),
{
    let http = http_prefix_vec();
    let https = https_prefix_vec();
    if starts_with(p, &http) || starts_with(p, &https) {
        return p.clone();
    }
    let base = api_base_url_vec(d);
    if base.len() == 0 {
        if p.len() > 0 && p[0] == '/' {
            return p.clone();
        }
        let mut r: Vec<char> = Vec::new();
        r.push('/');
        push_all(&mut r, p);
        proof {
            assert(r@ =~= seq!['/'] + p@);
        }
        return r;
    }
    let mut r = trim_end_char_vec(base, '/');
    r.push('/');
    let tail = trim_start_char_vec(p.clone(), '/');
    push_all(&mut r, &tail);
    proof {
        assert(r@ =~= trim_end_char(spec_api_base_url(d@), '/') + seq!['/'] + trim_start_char(
            p@,
            '/',
        ));
    }
    r
}

/// `spec_http_to_ws` on vectors of characters.
fn http_to_ws_vec(url: &Vec<char>, domain: &Vec<char>) -> (r: Vec<char>)
    ensures
        r@ == spec_http_to_ws(url@, domain@),
{
    let http = http_prefix_vec();
    let https = https_prefix_vec();
    if starts_with(url, &https) {
        let mut r = wss_prefix_vec();
        let rest = subvec(url, 8, url.len());
        push_all(&mut r, &rest);
        proof {
            assert(rest@ =~= url@.skip(8));
        }
        return r;
    }
    if starts_with(url, &http) {
        let mut r = ws_prefix_vec();
        let rest = subvec(url, 7, url.len());
        push_all(&mut r, &rest);
        proof {
            assert(rest@ =~= url@.skip(7));
        }
        return r;
    }
    let origin = api_base_url_vec(domain);
    let ws_origin: Vec<char> = if starts_with(&origin, &https) {
        let mut o = wss_prefix_vec();
        let rest = subvec(&origin, 8, origin.len());
        push_all(&mut o, &rest);
        proof {
            assert(rest@ =~= origin@.skip(8));
        }
        o
    } else if starts_with(&origin, &http) {
        let mut o = ws_prefix_vec();
        let rest = subvec(&origin, 7, origin.len());
        push_all(&mut o, &rest);
        proof {
            assert(rest@ =~= origin@.skip(7));
        }
        o
    } else {
        origin
    };
    let mut r = trim_end_char_vec(ws_origin, '/');
    if url.len() > 0 && url[0] == '/' {
        push_all(&mut r, url);
    } else {
        r.push('/');
        push_all(&mut r, url);
        proof {
            assert(r@ =~= trim_end_char(
                spec_http_to_ws_origin(spec_api_base_url(domain@)),
                '/',
            ) + (seq!['/'] + url@));
        }
    }
    r
}

/// The WebSocket origin that `spec_http_to_ws` derives from an HTTP origin.
pub open spec fn spec_http_to_ws_origin(origin: Seq<char>) -> Seq<char> {
    if seq_starts_with(origin, https_prefix()) {
        wss_prefix() + origin.skip(8)
    } else if seq_starts_with(origin, http_prefix()) {
        ws_prefix() + origin.skip(7)
    } else {
        origin
    }
}

/// The base HTTP origin for a provider domain.
pub fn api_base_url(domain: &str) -> (r: String)
    ensures
        r@ == spec_api_base_url(domain@),
{
    let d = str_to_chars(domain);
    let v = api_base_url_vec(&d);
    chars_to_string(&v)
}

/// An absolute URL for `path` against the provider domain.
pub fn api_url(domain: &str, path: &str) -> (r: String)
    ensures
        r@ == spec_api_url(domain@, path@),
{
    let d = str_to_chars(domain);
    let p = str_to_chars(path);
    let v = api_url_vec(&d, &p);
    chars_to_string(&v)
}

/// An absolute URL for `path` against `host` when given and different from
/// the current domain, else against the current domain.
pub fn api_url_for_host(current_domain: &str, host: Option<&str>, path: &str) -> (r: String)
    ensures
        r@ == spec_api_url_for_host(
            current_domain@,
            match host {
                Some(h) => Some(h@),
                None => None,
            },
            path@,
        ),
{
    let h: Vec<char> = match host {
        Some(h) => str_to_chars(h),
        None => Vec::new(),
    };
    let cur = str_to_chars(current_domain);
    let p = str_to_chars(path);
    let http = http_prefix_vec();
    let https = https_prefix_vec();
    let nh = trim_end_char_vec(
        strip_all_prefix_vec(strip_all_prefix_vec(h.clone(), &http), &https),
        '/',
    );
    let nc = trim_end_char_vec(
        strip_all_prefix_vec(strip_all_prefix_vec(cur.clone(), &http), &https),
        '/',
    );
    if h.len() == 0 || chars_eq(&nh, &nc) {
        let v = api_url_vec(&cur, &p);
        return chars_to_string(&v);
    }
    let marker = scheme_marker_vec();
    let base: Vec<char> = if contains_seq_vec(&h, &marker) {
        trim_end_char_vec(h, '/')
    } else {
        let part = prefix_before_vec(&nh, ':');
        let mut b: Vec<char> = if is_local_part(&part) {
            http_prefix_vec()
        } else {
            https_prefix_vec()
        };
        push_all(&mut b, &nh);
        b
    };
    let mut r = trim_end_char_vec(base, '/');
    r.push('/');
    let tail = trim_start_char_vec(p, '/');
    push_all(&mut r, &tail);
    proof {
        assert(r@ =~= spec_api_url_for_host(
            current_domain@,
            match host {
                Some(h2) => Some(h2@),
                None => None,
            },
            path@,
        ));
    }
    chars_to_string(&r)
}

/// `url` with its HTTP scheme replaced by the matching WebSocket scheme.
pub fn http_to_ws(url: &str, domain: &str) -> (r: String)
    ensures
        r@ == spec_http_to_ws(url@, domain@),
{
    let u = str_to_chars(url);
    let d = str_to_chars(domain);
    let v = http_to_ws_vec(&u, &d);
    chars_to_string(&v)
}

/// The WebSocket URL for `path` against the provider domain.
pub fn ws_url(domain: &str, path: &str) -> (r: String)
    ensures
        r@ == spec_http_to_ws(spec_api_url(domain@, path@), domain@),
{
    let d = str_to_chars(domain);
    let p = str_to_chars(path);
    let u = api_url_vec(&d, &p);
    let v = http_to_ws_vec(&u, &d);
    chars_to_string(&v)
}

/// The WebSocket URL for `path` against `host`, falling back to the
/// current domain.
pub fn ws_url_for_host(current_domain: &str, host: Option<&str>, path: &str) -> (r: String)
    ensures
        r@ == spec_http_to_ws(
            spec_api_url_for_host(
                current_domain@,
                match host {
                    Some(h) => Some(h@),
                    None => None,
                },
                path@,
            ),
            current_domain@,
        ),
{
    let u = api_url_for_host(current_domain, host, path);
    http_to_ws(u.as_str(), current_domain)
}

/// Strips scheme prefixes and trailing slashes from a host, yielding the
/// key under which connections are registered.
pub fn normalize_host(host: &str) -> (r: String)
    ensures
        r@ == spec_normalize_host(host@),
{
    let v = str_to_chars(host);
    let http = http_prefix_vec();
    let https = https_prefix_vec();
    let stripped = strip_all_prefix_vec(strip_all_prefix_vec(v, &http), &https);
    let trimmed = trim_end_char_vec(stripped, '/');
    chars_to_string(&trimmed)
}

/// Strips the scheme from a domain for use in an OFSCP actor identity.
pub fn normalize_domain(domain: &str) -> (r: String)
    ensures
        r@ == spec_normalize_host(domain@),
{
    normalize_host(domain)
}

/// Stripping a prefix that is not there changes nothing.
proof fn lemma_strip_all_noop(s: Seq<char>, p: Seq<char>)
    requires
        !seq_starts_with(s, p),
    ensures
        strip_all_prefix(s, p) == s,
{
}

/// What `trim_end_char` returns never ends in the trimmed character.
proof fn lemma_trim_end_no_tail(s: Seq<char>, c: char)
    ensures
        trim_end_char(s, c).len() == 0 || trim_end_char(s, c).last() != c,
    decreases s.len(),
{
    if s.len() > 0 && s.last() == c {
        lemma_trim_end_no_tail(s.drop_last(), c);
    }
}

/// Host normalization is idempotent: once a key carries no scheme prefix,
/// normalizing it again changes nothing.
pub proof fn lemma_normalize_host_idempotent(s: Seq<char>)
    requires
        !seq_starts_with(spec_normalize_host(s), http_prefix()),
        !seq_starts_with(spec_normalize_host(s), https_prefix()),
    ensures
        spec_normalize_host(spec_normalize_host(s)) == spec_normalize_host(s),
{
    let r = spec_normalize_host(s);
    lemma_strip_all_noop(r, http_prefix());
    lemma_strip_all_noop(r, https_prefix());
    lemma_trim_end_no_tail(strip_all_prefix(strip_all_prefix(s, http_prefix()), https_prefix()), '/');
}

/// Host normalization is scheme-insensitive: a host that carries no scheme
/// prefix of its own keys the same with or without one prepended.
pub proof fn lemma_normalize_host_scheme_insensitive(h: Seq<char>)
    requires
        !seq_starts_with(h, http_prefix()),
        !seq_starts_with(h, https_prefix()),
    ensures
        spec_normalize_host(http_prefix() + h) == spec_normalize_host(h),
        spec_normalize_host(https_prefix() + h) == spec_normalize_host(h),
{
    lemma_strip_all_noop(h, http_prefix());
    lemma_strip_all_noop(h, https_prefix());
    let hp = http_prefix() + h;
    assert(seq_starts_with(hp, http_prefix())) by {
        assert(hp.subrange(0, 7) =~= http_prefix());
    }
    assert(hp.skip(7) =~= h);
    assert(strip_all_prefix(hp, http_prefix()) == strip_all_prefix(h, http_prefix()));
    let sp = https_prefix() + h;
    assert(!seq_starts_with(sp, http_prefix())) by {
        assert(sp[4] == 's');
        if seq_starts_with(sp, http_prefix()) {
            assert(sp.subrange(0, 7)[4] == ':');
        }
    }
    lemma_strip_all_noop(sp, http_prefix());
    assert(seq_starts_with(sp, https_prefix())) by {
        assert(sp.subrange(0, 8) =~= https_prefix());
    }
    assert(sp.skip(8) =~= h);
    assert(strip_all_prefix(sp, https_prefix()) == strip_all_prefix(h, https_prefix()));
}

/// Host normalization is trailing-slash-insensitive, as long as appending
/// the slash does not complete a scheme prefix.
pub proof fn lemma_normalize_host_slash_insensitive(h: Seq<char>)
    requires
        !seq_starts_with(h, http_prefix()),
        !seq_starts_with(h, https_prefix()),
        !seq_starts_with(h.push('/'), http_prefix()),
        !seq_starts_with(h.push('/'), https_prefix()),
    ensures
        spec_normalize_host(h.push('/')) == spec_normalize_host(h),
{
    lemma_strip_all_noop(h, http_prefix());
    lemma_strip_all_noop(h, https_prefix());
    lemma_strip_all_noop(h.push('/'), http_prefix());
    lemma_strip_all_noop(h.push('/'), https_prefix());
    assert(h.push('/').last() == '/');
    assert(h.push('/').drop_last() =~= h);
}

/// Is this `host[:port]` a local or private address?
pub fn is_local_address(host: &str) -> (r: bool)
    ensures
        r == spec_is_local(prefix_before(host@, ':')),
{
    let v = str_to_chars(host);
    let part = prefix_before_vec(&v, ':');
    is_local_part(&part)
}

} // verus!

//! The OFSCP request-signing scheme: canonical string construction,
//! Ed25519 signing of HTTP requests and WebSocket handshakes, and the
//! symmetric verification used by the server side of the same scheme.

use vstd::prelude::*;
use crate::crypto::{
    base64_decode, base64_decoded, base64_encode, base64_of, ed25519_derive_public,
    ed25519_public_key_of, ed25519_sign, ed25519_signature_of, ed25519_verifies, ed25519_verify,
    generate_signing_key, hex_encode, hex_of, now_rfc3339, percent_encode, percent_encoded,
    sha256, sha256_of,
};
use crate::text::{
    chars_to_string, push_str_chars, seq_starts_with, spec_split, starts_with, str_to_chars,
    subvec, trim_spaces, trim_spaces_vec,
};
use crate::urls::{prefix_before, trim_end_char};

verus! {

/// A device key pair: base64-encoded Ed25519 keys plus the key id the
/// provider assigned at registration. Until the provider acknowledges the
/// key (`key_id` present), the pair must not sign anything.
#[derive(Clone, Debug, PartialEq)]
pub struct KeyPair {
    pub public_key: String,
    pub private_key: String,
    pub key_id: Option<String>,
}

/// The three signed-header values attached to an HTTP request.
#[derive(Clone, Debug, PartialEq)]
pub struct SignedHeaders {
    pub actor: String,
    pub key_id: String,
    pub timestamp: String,
    pub signature: String,
}

/// The signing-key bytes of a key pair, if its base64 private key decodes
/// to exactly 32 bytes.
pub open spec fn spec_private_key(keys: KeyPair) -> Option<Seq<u8>> {
    match base64_decoded(keys.private_key@) {
        Some(k) => if k.len() == 32 {
            Some(k)
        } else {
            None
        },
        None => None,
    }
}

/// May this key pair sign? It must carry a provider-acknowledged key id
/// and a well-formed private key.
pub open spec fn spec_can_sign(keys: KeyPair) -> bool {
    keys.key_id is Some && spec_private_key(keys) is Some
}

/// The actor identity string `@handle@domain`.
pub open spec fn spec_actor(handle: Seq<char>, domain: Seq<char>) -> Seq<char> {
    seq!['@'] + handle + seq!['@'] + domain
}

/// The canonical string that is signed:
/// `METHOD \n PATH \n TIMESTAMP \n hex(sha256(BODY))`.
pub open spec fn spec_signature_base(
    method: Seq<char>,
    path: Seq<char>,
    timestamp: Seq<char>,
    body: Seq<u8>,
) -> Seq<char> {
    method + seq!['\n'] + path + seq!['\n'] + timestamp + seq!['\n'] + hex_of(sha256_of(body))
}

/// The base64 signature a key produces over a canonical string.
pub open spec fn spec_signature_b64(key: Seq<u8>, base: Seq<char>) -> Seq<char> {
    base64_of(ed25519_signature_of(key, vstd::utf8::encode_utf8(base)))
}

/// Builds the canonical signing string shared by HTTP requests and
/// WebSocket handshakes.
pub fn construct_signature_base(method: &str, path: &str, timestamp: &str, body: &[u8]) -> (r:
    String)
    ensures
        r@ == spec_signature_base(method@, path@, timestamp@, body@),
{
    let digest = sha256(body);
    let digest_hex = hex_encode(digest.as_slice());
    let mut v = str_to_chars(method);
    v.push('\n');
    push_str_chars(&mut v, path);
    v.push('\n');
    push_str_chars(&mut v, timestamp);
    v.push('\n');
    push_str_chars(&mut v, digest_hex.as_str());
    proof {
        assert(v@ =~= spec_signature_base(method@, path@, timestamp@, body@));
    }
    chars_to_string(&v)
}

/// Builds the actor identity string `@handle@domain`.
pub fn make_actor(handle: &str, domain: &str) -> (r: String)
    ensures
        r@ == spec_actor(handle@, domain@),
{
    let mut v: Vec<char> = Vec::new();
    v.push('@');
    push_str_chars(&mut v, handle);
    v.push('@');
    push_str_chars(&mut v, domain);
    proof {
        assert(v@ =~= spec_actor(handle@, domain@));
    }
    chars_to_string(&v)
}

/// Signs an HTTP request against a fixed timestamp. Produces headers
/// exactly when the key pair may sign; the signature covers the canonical
/// string for this method, path, timestamp and body, and verifies under
/// the key's public counterpart.
pub fn sign_request_at(
    method: &str,
    path: &str,
    body: &[u8],
    keys: &KeyPair,
    handle: &str,
    domain: &str,
    timestamp: &str,
) -> (r: Option<SignedHeaders>)
    ensures
        r is Some <==> spec_can_sign(*keys),
        r matches Some(h) ==> {
            let key = spec_private_key(*keys)->0;
            let base = spec_signature_base(method@, path@, timestamp@, body@);
            &&& h.actor@ == spec_actor(handle@, domain@)
            &&& keys.key_id matches Some(kid) && h.key_id@ == kid@
            &&& h.timestamp@ == timestamp@
            &&& h.signature@ == spec_signature_b64(key, base)
            &&& ed25519_verifies(
                ed25519_public_key_of(key),
                vstd::utf8::encode_utf8(base),
                ed25519_signature_of(key, vstd::utf8::encode_utf8(base)),
            )
        },
{
    let key_id: String = match &keys.key_id {
        Some(k) => k.clone(),
        None => {
            return None;
        },
    };
    let priv_bytes: Vec<u8> = match base64_decode(keys.private_key.as_str()) {
        Some(v) => {
            if v.len() != 32 {
                return None;
            }
            v
        },
        None => {
            return None;
        },
    };
    let canonical = construct_signature_base(method, path, timestamp, body);
    let signature = ed25519_sign(priv_bytes.as_slice(), canonical.as_str().as_bytes());
    let sig_b64 = base64_encode(signature.as_slice());
    Some(
        SignedHeaders {
            actor: make_actor(handle, domain),
            key_id,
            timestamp: timestamp.to_owned(),
            signature: sig_b64,
        },
    )
}

/// Signs an HTTP request with a fresh timestamp taken at call time.
pub fn sign_request(
    method: &str,
    path: &str,
    body: &[u8],
    keys: &KeyPair,
    handle: &str,
    domain: &str,
) -> (r: Option<SignedHeaders>)
    ensures
        r is Some <==> spec_can_sign(*keys),
        r matches Some(h) ==> {
            let key = spec_private_key(*keys)->0;
            let base = spec_signature_base(method@, path@, h.timestamp@, body@);
            &&& h.actor@ == spec_actor(handle@, domain@)
            &&& keys.key_id matches Some(kid) && h.key_id@ == kid@
            &&& h.signature@ == spec_signature_b64(key, base)
        },
{
    let timestamp = now_rfc3339();
    sign_request_at(method, path, body, keys, handle, domain, timestamp.as_str())
}

/// A key pair that a provider has not acknowledged never signs.
pub proof fn lemma_unacknowledged_key_never_signs(keys: KeyPair)
    requires
        keys.key_id is None,
    ensures
        !spec_can_sign(keys),
{
}

/// Verifies a base64 Ed25519 signature over `message` under a base64
/// public key: the server side of the identical canonical scheme.
pub fn verify_signature(public_key_base64: &str, signature_base64: &str, message: &[u8]) -> (r:
    Result<(), String>)
    ensures
        r is Ok <==> {
            &&& base64_decoded(signature_base64@) matches Some(sig)
            &&& sig.len() == 64
            &&& base64_decoded(public_key_base64@) matches Some(pk)
            &&& pk.len() == 32
            &&& ed25519_verifies(pk, message@, sig)
        },
{
    let sig = match base64_decode(signature_base64) {
        Some(v) => v,
        None => {
            return Err("Invalid base64 signature".to_owned());
        },
    };
    let pk = match base64_decode(public_key_base64) {
        Some(v) => v,
        None => {
            return Err("Invalid base64 public key".to_owned());
        },
    };
    if sig.len() != 64 {
        return Err("Invalid signature length".to_owned());
    }
    if pk.len() != 32 {
        return Err("Invalid public key length".to_owned());
    }
    if ed25519_verify(pk.as_slice(), message, sig.as_slice()) {
        Ok(())
    } else {
        Err("Signature verification failed".to_owned())
    }
}

/// The query parameters that authenticate a WebSocket upgrade, since
/// custom headers cannot be carried on the handshake.
#[derive(Clone, Debug, PartialEq)]
pub struct WsAuthParams {
    pub actor: String,
    pub key_id: String,
    pub timestamp: String,
    pub signature: String,
}

/// The query string carrying the four auth parameters, each
/// percent-encoded.
pub open spec fn spec_query_string(
    actor: Seq<char>,
    timestamp: Seq<char>,
    key_id: Seq<char>,
    signature: Seq<char>,
) -> Seq<char> {
    "actor="@ + percent_encoded(actor) + "&timestamp="@ + percent_encoded(timestamp) + "&keyId="@
        + percent_encoded(key_id) + "&signature="@ + percent_encoded(signature)
}

impl WsAuthParams {
    /// Renders the parameters as a URL query string.
    pub fn to_query_string(&self) -> (r: String)
        ensures
            r@ == spec_query_string(self.actor@, self.timestamp@, self.key_id@, self.signature@),
    {
        let mut v = str_to_chars("actor=");
        push_str_chars(&mut v, percent_encode(self.actor.as_str()).as_str());
        push_str_chars(&mut v, "&timestamp=");
        push_str_chars(&mut v, percent_encode(self.timestamp.as_str()).as_str());
        push_str_chars(&mut v, "&keyId=");
        push_str_chars(&mut v, percent_encode(self.key_id.as_str()).as_str());
        push_str_chars(&mut v, "&signature=");
        push_str_chars(&mut v, percent_encode(self.signature.as_str()).as_str());
        chars_to_string(&v)
    }
}

/// Signs a WebSocket handshake against a fixed timestamp: the canonical
/// string uses method `GET`, the upgrade path and the hash of an empty
/// body. Produces parameters exactly when the key pair may sign.
pub fn sign_ws_request_at(
    path: &str,
    keys: &KeyPair,
    handle: &str,
    domain: &str,
    timestamp: &str,
) -> (r: Option<WsAuthParams>)
    ensures
        r is Some <==> spec_can_sign(*keys),
        r matches Some(p) ==> {
            let key = spec_private_key(*keys)->0;
            let base = spec_signature_base("GET"@, path@, timestamp@, Seq::<u8>::empty());
            &&& p.actor@ == spec_actor(handle@, domain@)
            &&& keys.key_id matches Some(kid) && p.key_id@ == kid@
            &&& p.timestamp@ == timestamp@
            &&& p.signature@ == spec_signature_b64(key, base)
        },
{
    let empty_body: [u8; 0] = [];
    match sign_request_at("GET", path, empty_body.as_slice(), keys, handle, domain, timestamp) {
        Some(h) => {
            proof {
                assert(empty_body@ =~= Seq::<u8>::empty());
            }
            Some(
                WsAuthParams {
                    actor: h.actor,
                    key_id: h.key_id,
                    timestamp: h.timestamp,
                    signature: h.signature,
                },
            )
        },
        None => None,
    }
}

/// Signs a WebSocket handshake with a fresh timestamp taken at call
/// time. A new signature must be produced for every connection attempt:
/// providers reject stale timestamps, so handshake URLs are never reused.
pub fn sign_ws_request(path: &str, keys: &KeyPair, handle: &str, domain: &str) -> (r: Option<
    WsAuthParams,
>)
    ensures
        r is Some <==> spec_can_sign(*keys),
        r matches Some(p) ==> {
            let key = spec_private_key(*keys)->0;
            let base = spec_signature_base("GET"@, path@, p.timestamp@, Seq::<u8>::empty());
            &&& p.actor@ == spec_actor(handle@, domain@)
            &&& keys.key_id matches Some(kid) && p.key_id@ == kid@
            &&& p.signature@ == spec_signature_b64(key, base)
        },
{
    let timestamp = now_rfc3339();
    sign_ws_request_at(path, keys, handle, domain, timestamp.as_str())
}

/// Do a key pair's two halves belong together? True of every pair this
/// library generates.
pub open spec fn spec_keypair_matched(keys: KeyPair) -> bool {
    spec_private_key(keys) matches Some(k) && base64_decoded(keys.public_key@) == Some(
        ed25519_public_key_of(k),
    )
}

/// Generates a fresh device key pair, not yet acknowledged by any
/// provider (`key_id` is absent, so it cannot sign yet).
pub fn generate_keypair() -> (r: KeyPair)
    ensures
        r.key_id is None,
        spec_keypair_matched(r),
{
    let secret = generate_signing_key();
    let public = ed25519_derive_public(secret.as_slice());
    KeyPair {
        public_key: base64_encode(public.as_slice()),
        private_key: base64_encode(secret.as_slice()),
        key_id: None,
    }
}

/// Signs `message` with raw 32-byte key material and returns the base64
/// signature.
pub fn create_signature(signing_key: &[u8], message: &[u8]) -> (r: String)
    requires
        signing_key@.len() == 32,
    ensures
        r@ == base64_of(ed25519_signature_of(signing_key@, message@)),
{
    let sig = ed25519_sign(signing_key, message);
    base64_encode(sig.as_slice())
}


/// The name of the signature header.
pub const HEADER_SIGNATURE: &'static str = "X-OFSCP-Signature";

/// The name of the actor header.
pub const HEADER_ACTOR: &'static str = "X-OFSCP-Actor";

/// The name of the timestamp header.
pub const HEADER_TIMESTAMP: &'static str = "X-OFSCP-Timestamp";

/// The two fields of a signature header value:
/// `keyId="<id>", signature="<base64>"`.
#[derive(Clone, Debug, PartialEq)]
pub struct OFSCPSignature {
    pub key_id: String,
    pub signature: String,
}

/// The value a header part contributes for a field: the part is
/// whitespace-trimmed, must start with the field prefix, and sheds any
/// trailing quotes.
pub open spec fn spec_field_of(part: Seq<char>, prefix: Seq<char>) -> Option<Seq<char>> {
    let t = trim_spaces(part);
    if seq_starts_with(t, prefix) {
        Some(trim_end_char(t.skip(prefix.len() as int), '"'))
    } else {
        None
    }
}

/// The value of the last header part carrying the field, if any; later
/// parts override earlier ones.
pub open spec fn spec_last_field(parts: Seq<Seq<char>>, prefix: Seq<char>) -> Option<Seq<char>>
    decreases parts.len(),
{
    if parts.len() == 0 {
        None
    } else {
        match spec_field_of(parts.last(), prefix) {
            Some(v) => Some(v),
            None => spec_last_field(parts.drop_last(), prefix),
        }
    }
}

/// What `parse` recovers from a header text: its comma-separated parts'
/// `keyId` and `signature` fields.
pub open spec fn spec_header_key_id(header: Seq<char>) -> Option<Seq<char>> {
    spec_last_field(spec_split(header, ','), "keyId=\""@)
}

/// The signature field a header text carries.
pub open spec fn spec_header_signature(header: Seq<char>) -> Option<Seq<char>> {
    spec_last_field(spec_split(header, ','), "signature=\""@)
}

impl OFSCPSignature {
    /// Parses a signature header value. Fails with a missing-field error
    /// exactly when the respective field never occurs.
    pub fn parse(header: &str) -> (r: Result<OFSCPSignature, String>)
        ensures
            match r {
                Ok(sig) => spec_header_key_id(header@) == Some(sig.key_id@)
                    && spec_header_signature(header@) == Some(sig.signature@),
                Err(e) => (spec_header_key_id(header@) is None && e@
                    == "Missing keyId in signature header"@) || (spec_header_key_id(header@)
                    is Some && spec_header_signature(header@) is None && e@
                    == "Missing signature in signature header"@),
            },
    {
        let v = str_to_chars(header);
        let kid_prefix = str_to_chars("keyId=\"");
        let sig_prefix = str_to_chars("signature=\"");
        let mut key_id: Option<Vec<char>> = None;
        let mut signature: Option<Vec<char>> = None;
        let ghost mut done: Seq<Seq<char>> = Seq::empty();
        let mut pos: usize = 0;
        let mut finished = false;
        proof {
            assert(v@.skip(0) =~= v@);
        }
        while !finished
            invariant
                pos <= v@.len(),
                kid_prefix@ == "keyId=\""@,
                sig_prefix@ == "signature=\""@,
                match key_id {
                    Some(k) => spec_last_field(done, "keyId=\""@) == Some(k@),
                    None => spec_last_field(done, "keyId=\""@) is None,
                },
                match signature {
                    Some(k) => spec_last_field(done, "signature=\""@) == Some(k@),
                    None => spec_last_field(done, "signature=\""@) is None,
                },
                !finished ==> spec_split(v@, ',') == done + spec_split(v@.skip(pos as int), ','),
                finished ==> spec_split(v@, ',') == done,
            decreases v@.len() - pos, (if finished { 0int } else { 1int }),
        {
            let ghost rest = v@.skip(pos as int);
            let vlen = v.len();
            let seg: Vec<char>;
            match crate::text::find_char(&v, pos, ',') {
                Some(i) => {
                    seg = subvec(&v, pos, i);
                    proof {
                        crate::text::lemma_first_index(rest, ',');
                        let fi = crate::text::spec_first_index(rest, ',');
                        assert forall|j: int| 0 <= j < i - pos implies rest[j] != ',' by {
                            assert(rest[j] == v@[pos + j]);
                        }
                        assert(rest[i - pos] == v@[i as int]);
                        assert(fi == i - pos);
                        assert(rest.subrange(0, fi) =~= seg@);
                        assert(rest.skip(fi + 1) =~= v@.skip(i + 1));
                        assert(spec_split(rest, ',') == seq![seg@] + spec_split(
                            v@.skip(i + 1),
                            ',',
                        ));
                        assert(done + (seq![seg@] + spec_split(v@.skip(i + 1), ','))
                            =~= done.push(seg@) + spec_split(v@.skip(i + 1), ','));
                    }
                    proof {
                        assert(i < vlen);
                    }
                    pos = i + 1;
                },
                None => {
                    seg = subvec(&v, pos, v.len());
                    proof {
                        crate::text::lemma_first_index(rest, ',');
                        let fi = crate::text::spec_first_index(rest, ',');
                        if fi >= 0 {
                            assert(rest[fi] == v@[pos + fi]);
                        }
                        assert(!(0 <= fi < rest.len()));
                        assert(rest =~= seg@);
                        assert(spec_split(rest, ',') == seq![seg@]);
                        assert(done + seq![seg@] =~= done.push(seg@));
                    }
                    finished = true;
                },
            }
            let t = trim_spaces_vec(&seg);
            proof {
                assert(done.push(seg@).last() == seg@);
                assert(done.push(seg@).drop_last() =~= done);
            }
            if starts_with(&t, &kid_prefix) {
                let raw = subvec(&t, kid_prefix.len(), t.len());
                let val = crate::urls::trim_end_char_vec(raw, '"');
                proof {
                    assert(t@.subrange(kid_prefix@.len() as int, t@.len() as int) =~= t@.skip(
                        kid_prefix@.len() as int,
                    ));
                    assert(spec_field_of(seg@, "keyId=\""@) == Some(val@));
                    reveal_strlit("keyId=\"");
                    reveal_strlit("signature=\"");
                    assert(t@.subrange(0, "keyId=\""@.len() as int) == "keyId=\""@);
                    assert(t@.subrange(0, "keyId=\""@.len() as int)[0] == t@[0]);
                    assert(t@[0] == 'k');
                    if seq_starts_with(t@, "signature=\""@) {
                        assert(t@.subrange(0, "signature=\""@.len() as int)[0] == 's');
                    }
                    assert(spec_field_of(seg@, "signature=\""@) is None);
                }
                key_id = Some(val);
            } else if starts_with(&t, &sig_prefix) {
                let raw = subvec(&t, sig_prefix.len(), t.len());
                let val = crate::urls::trim_end_char_vec(raw, '"');
                proof {
                    assert(t@.subrange(sig_prefix@.len() as int, t@.len() as int) =~= t@.skip(
                        sig_prefix@.len() as int,
                    ));
                    assert(spec_field_of(seg@, "signature=\""@) == Some(val@));
                    assert(spec_field_of(seg@, "keyId=\""@) is None);
                }
                signature = Some(val);
            } else {
                proof {
                    assert(spec_field_of(seg@, "keyId=\""@) is None);
                    assert(spec_field_of(seg@, "signature=\""@) is None);
                }
            }
            proof {
                done = done.push(seg@);
            }
        }
        match (key_id, signature) {
            (Some(k), Some(s)) => Ok(
                OFSCPSignature { key_id: chars_to_string(&k), signature: chars_to_string(&s) },
            ),
            (None, _) => Err("Missing keyId in signature header".to_owned()),
            (Some(_), None) => Err("Missing signature in signature header".to_owned()),
        }
    }

    /// Renders the header value `keyId="<id>", signature="<base64>"`.
    pub fn to_header_value(&self) -> (r: String)
        ensures
            r@ == "keyId=\""@ + self.key_id@ + "\", signature=\""@ + self.signature@ + "\""@,
    {
        let mut v = str_to_chars("keyId=\"");
        push_str_chars(&mut v, self.key_id.as_str());
        push_str_chars(&mut v, "\", signature=\"");
        push_str_chars(&mut v, self.signature.as_str());
        push_str_chars(&mut v, "\"");
        chars_to_string(&v)
    }
}

/// The handle portion of an actor identity: for `@handle@domain`, the
/// text between the leading `@` and the next one; anything else passes
/// through unchanged.
pub open spec fn spec_normalize_actor_id(s: Seq<char>) -> Seq<char> {
    if s.len() > 0 && s.first() == '@' {
        prefix_before(s.skip(1), '@')
    } else {
        s
    }
}

/// Reduces an actor identity `@handle@domain` to its handle segment.
pub fn normalize_actor_id(actor: &str) -> (r: String)
    ensures
        r@ == spec_normalize_actor_id(actor@),
{
    let v = str_to_chars(actor);
    if v.len() > 0 && v[0] == '@' {
        let rest = subvec(&v, 1, v.len());
        proof {
            assert(rest@ =~= v@.skip(1));
        }
        let seg = crate::urls::prefix_before_vec(&rest, '@');
        chars_to_string(&seg)
    } else {
        chars_to_string(&v)
    }
}

} // verus!


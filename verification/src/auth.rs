//! The shared-password lock of the live server: PBKDF2-HMAC-SHA256 over the
//! SHA-256 of the `sha2` crate, constant-time comparison, the session token
//! derived from the stored hash, and the check of a request's credentials.
use vstd::prelude::*;
use base64::Engine as _;
use sha2::{Digest, Sha256};
use vstd::string::StringSliceAdditionalSpecFns;
use vstd::utf8::encode_utf8;
use crate::text::{
    chars_eq_ignore_case, chars_of, find_sub, find_sub_exec, eq_ignore_case, has_prefix, slice_chars, split_chars,
    split_on, string_from_chars, strip_both_at, trim, views, CharClass,
};

verus! {

/// The SHA-256 digest of `data`.
pub uninterp spec fn sha256(data: Seq<u8>) -> Seq<u8>;

/// `sha2::Sha256::digest`. What it claims: the digest is `sha256` of the
/// input and has 32 bytes.
#[verifier::external_body]
fn sha256_digest(data: &[u8]) -> (d: Vec<u8>)
    ensures
        d@ == sha256(data@),
        d@.len() == 32,
{
    Sha256::digest(data).to_vec()
}

/// HMAC's key block: the key itself, or its digest when longer than the
/// 64-byte block, padded with zero bytes to 64.
pub open spec fn key_block(key: Seq<u8>) -> Seq<u8> {
    let k = if key.len() > 64 {
        sha256(key)
    } else {
        key
    };
    Seq::new(64, |i: int| if i < k.len() { k[i] } else { 0u8 })
}

/// Every byte of `s` xor-ed with `b`.
pub open spec fn xor_all(s: Seq<u8>, b: u8) -> Seq<u8> {
    Seq::new(s.len(), |i: int| s[i] ^ b)
}

/// Byte-wise xor of two sequences, as long as the first.
pub open spec fn xor_seq(a: Seq<u8>, b: Seq<u8>) -> Seq<u8> {
    Seq::new(a.len(), |i: int| a[i] ^ b[i])
}

/// HMAC-SHA256 (RFC 2104) of `msg` under `key`.
pub open spec fn hmac_sha256(key: Seq<u8>, msg: Seq<u8>) -> Seq<u8> {
    let k = key_block(key);
    sha256(xor_all(k, 0x5c) + sha256(xor_all(k, 0x36) + msg))
}

/// The i-th PBKDF2 block term `U_i` (i >= 1) for the first output block.
pub open spec fn pbkdf2_u(password: Seq<u8>, salt: Seq<u8>, i: nat) -> Seq<u8>
    decreases i,
{
    if i <= 1 {
        hmac_sha256(password, salt + seq![0u8, 0u8, 0u8, 1u8])
    } else {
        hmac_sha256(password, pbkdf2_u(password, salt, (i - 1) as nat))
    }
}

/// `U_1 xor ... xor U_i`.
pub open spec fn pbkdf2_f(password: Seq<u8>, salt: Seq<u8>, i: nat) -> Seq<u8>
    decreases i,
{
    if i <= 1 {
        pbkdf2_u(password, salt, 1)
    } else {
        xor_seq(pbkdf2_f(password, salt, (i - 1) as nat), pbkdf2_u(password, salt, i))
    }
}

/// PBKDF2-HMAC-SHA256 (RFC 2898) with a single 32-byte output block; zero
/// iterations count as one.
pub open spec fn pbkdf2_spec(password: Seq<u8>, salt: Seq<u8>, iterations: nat) -> Seq<u8> {
    pbkdf2_f(password, salt, if iterations == 0 { 1 } else { iterations })
}

fn xor_bytes(s: &Vec<u8>, b: u8) -> (r: Vec<u8>)
    ensures
        r@ == xor_all(s@, b),
{
    let mut r: Vec<u8> = Vec::new();
    let mut i: usize = 0;
    while i < s.len()
        invariant
            i <= s@.len(),
            r@ =~= xor_all(s@.take(i as int), b),
        decreases s@.len() - i,
    {
        r.push(s[i] ^ b);
        i = i + 1;
    }
    assert(s@.take(s@.len() as int) =~= s@);
    r
}

fn concat(a: &Vec<u8>, b: &[u8]) -> (r: Vec<u8>)
    ensures
        r@ == a@ + b@,
{
    let mut r = a.clone();
    let mut i: usize = 0;
    while i < b.len()
        invariant
            i <= b@.len(),
            r@ =~= a@ + b@.take(i as int),
        decreases b@.len() - i,
    {
        r.push(b[i]);
        i = i + 1;
    }
    assert(b@.take(b@.len() as int) =~= b@);
    r
}

fn key_block_of(password: &[u8]) -> (k: Vec<u8>)
    ensures
        k@ == key_block(password@),
{
    let src: Vec<u8> = if password.len() > 64 {
        sha256_digest(password)
    } else {
        let mut v: Vec<u8> = Vec::new();
        let mut i: usize = 0;
        while i < password.len()
            invariant
                i <= password@.len(),
                v@ =~= password@.take(i as int),
            decreases password@.len() - i,
        {
            v.push(password[i]);
            i = i + 1;
        }
        assert(password@.take(password@.len() as int) =~= password@);
        v
    };
    let mut k: Vec<u8> = Vec::new();
    let mut i: usize = 0;
    while i < 64
        invariant
            i <= 64,
            src@.len() <= 64,
            src@ == (if password@.len() > 64 { sha256(password@) } else { password@ }),
            k@.len() == i,
            forall|j: int| 0 <= j < i ==> k@[j] == (if j < src@.len() { src@[j] } else { 0u8 }),
        decreases 64 - i,
    {
        if i < src.len() {
            k.push(src[i]);
        } else {
            k.push(0);
        }
        i = i + 1;
    }
    assert(k@ =~= key_block(password@));
    k
}

fn hmac(ipad: &Vec<u8>, opad: &Vec<u8>, msg: &[u8], Ghost(key): Ghost<Seq<u8>>) -> (d: Vec<u8>)
    requires
        ipad@ == xor_all(key_block(key), 0x36),
        opad@ == xor_all(key_block(key), 0x5c),
    ensures
        d@ == hmac_sha256(key, msg@),
        d@.len() == 32,
{
    let inner_in = concat(ipad, msg);
    let inner = sha256_digest(inner_in.as_slice());
    let outer_in = concat(opad, inner.as_slice());
    sha256_digest(outer_in.as_slice())
}

/// PBKDF2-HMAC-SHA256 with one 32-byte output block.
pub fn pbkdf2_sha256(password: &[u8], salt: &[u8], iterations: u32) -> (out: Vec<u8>)
    ensures
        out@ == pbkdf2_spec(password@, salt@, iterations as nat),
        out@.len() == 32,
{
    let key = key_block_of(password);
    let ipad = xor_bytes(&key, 0x36);
    let opad = xor_bytes(&key, 0x5c);
    let mut block: Vec<u8> = Vec::new();
    let mut i: usize = 0;
    while i < salt.len()
        invariant
            i <= salt@.len(),
            block@ =~= salt@.take(i as int),
        decreases salt@.len() - i,
    {
        block.push(salt[i]);
        i = i + 1;
    }
    assert(salt@.take(salt@.len() as int) =~= salt@);
    block.push(0);
    block.push(0);
    block.push(0);
    block.push(1);
    assert(block@ =~= salt@ + seq![0u8, 0u8, 0u8, 1u8]);
    let mut u = hmac(&ipad, &opad, block.as_slice(), Ghost(password@));
    let mut out = u.clone();
    let mut n: u32 = 1;
    while n < iterations
        invariant
            1 <= n,
            n <= iterations || n == 1,
            u@ == pbkdf2_u(password@, salt@, n as nat),
            out@ == pbkdf2_f(password@, salt@, n as nat),
            u@.len() == 32,
            out@.len() == 32,
            ipad@ == xor_all(key_block(password@), 0x36),
            opad@ == xor_all(key_block(password@), 0x5c),
        decreases iterations - n,
    {
        u = hmac(&ipad, &opad, u.as_slice(), Ghost(password@));
        let ghost prev = out@;
        let mut j: usize = 0;
        while j < 32
            invariant
                j <= 32,
                u@.len() == 32,
                out@.len() == 32,
                prev.len() == 32,
                forall|k: int| 0 <= k < j ==> out@[k] == prev[k] ^ u@[k],
                forall|k: int| j <= k < 32 ==> out@[k] == prev[k],
            decreases 32 - j,
        {
            let x = out[j] ^ u[j];
            out.set(j, x);
            j = j + 1;
        }
        n = n + 1;
        assert(out@ =~= xor_seq(prev, u@));
    }
    out
}

/// Whether two byte strings are equal, in time that depends on their
/// lengths only.
pub fn ct_eq(a: &[u8], b: &[u8]) -> (r: bool)
    ensures
        r == (a@ == b@),
{
    if a.len() != b.len() {
        return false;
    }
    let mut acc: u8 = 0;
    let mut i: usize = 0;
    while i < a.len()
        invariant
            a@.len() == b@.len(),
            i <= a@.len(),
            (acc == 0) == (forall|k: int| 0 <= k < i ==> a@[k] == b@[k]),
        decreases a@.len() - i,
    {
        let x = a[i];
        let y = b[i];
        assert((acc | (x ^ y)) == 0 <==> (acc == 0 && x == y)) by (bit_vector);
        acc = acc | (x ^ y);
        i = i + 1;
    }
    if acc == 0 {
        assert(a@ =~= b@);
    }
    acc == 0
}

/// The standard Base64 text (RFC 4648 alphabet, with padding) of `data`.
pub uninterp spec fn base64_text(data: Seq<u8>) -> Seq<char>;

/// What the standard Base64 decoder makes of `text`: the bytes, or the
/// text of the error when it is not valid standard Base64.
pub uninterp spec fn base64_decoded(text: Seq<u8>) -> Result<Seq<u8>, Seq<char>>;

/// The bytes `text` decodes to, `None` when it is not valid standard Base64.
pub open spec fn base64_bytes(text: Seq<u8>) -> Option<Seq<u8>> {
    match base64_decoded(text) {
        Ok(v) => Some(v),
        Err(_) => None,
    }
}

/// A character of standard Base64 text: the RFC 4648 alphabet
/// (`A`-`Z`, `a`-`z`, `0`-`9`, `+`, `/`) or the padding `=`.
pub open spec fn base64_char(c: char) -> bool {
    ('A' <= c <= 'Z') || ('a' <= c <= 'z') || ('0' <= c <= '9') || c == '+' || c == '/' || c == '='
}

/// `base64::engine::general_purpose::STANDARD.encode`. What it claims: the
/// text is `base64_text` of the input; being padded, it has four characters
/// for every started group of three bytes, each of the standard alphabet or
/// the padding; and the standard decoder gives the input back from it.
#[verifier::external_body]
pub(crate) fn base64_encode(input: &[u8]) -> (s: String)
    ensures
        s@ == base64_text(input@),
        s@.len() == 4 * ((input@.len() + 2) / 3),
        forall|i: int| 0 <= i < s@.len() ==> base64_char(#[trigger] s@[i]),
        base64_bytes(encode_utf8(s@)) == Some(input@),
{
    base64::engine::general_purpose::STANDARD.encode(input)
}

/// `base64::engine::general_purpose::STANDARD.decode`, its error turned
/// into its text. What it claims: the result is `base64_decoded` of the input.
#[verifier::external_body]
pub(crate) fn base64_decode(input: &[u8]) -> (r: Result<Vec<u8>, String>)
    ensures
        match r {
            Ok(v) => base64_decoded(input@) == Ok::<Seq<u8>, Seq<char>>(v@),
            Err(e) => base64_decoded(input@) == Err::<Seq<u8>, Seq<char>>(e@),
        },
{
    base64::engine::general_purpose::STANDARD.decode(input).map_err(|e| e.to_string())
}

/// `uuid::Uuid::new_v4().as_bytes()`: sixteen random bytes. What it
/// claims: there are sixteen of them; their values are chance.
#[verifier::external_body]
fn random_uuid_bytes() -> (b: Vec<u8>)
    ensures
        b@.len() == 16,
{
    uuid::Uuid::new_v4().as_bytes().to_vec()
}

/// A character of a UUID's hyphenated text: a lower-case hex digit or `-`.
pub open spec fn uuid_char(c: char) -> bool {
    ('0' <= c <= '9') || ('a' <= c <= 'f') || c == '-'
}

/// The token of a closed lock: a UUID's 36-character hyphenated text.
pub open spec fn closed_token(t: Seq<char>) -> bool {
    t.len() == 36 && forall|i: int| 0 <= i < t.len() ==> uuid_char(#[trigger] t[i])
}

/// `uuid::Uuid::new_v4().to_string()`: a fresh random identifier. What it
/// claims: `Display` writes the hyphenated lower-case form, 36 characters of
/// hex digits and hyphens; which identifier it is, is chance.
#[verifier::external_body]
fn random_uuid_text() -> (s: String)
    ensures
        s@.len() == 36,
        forall|i: int| 0 <= i < s@.len() ==> uuid_char(#[trigger] s@[i]),
{
    uuid::Uuid::new_v4().to_string()
}

/// The work factor of the shared-password hash.
pub open spec fn pbkdf2_iterations() -> nat {
    10_000
}

pub const PBKDF2_ITERATIONS: u32 = 10_000;

/// A salted password hash as the settings table stores it, both fields in Base64.
pub struct PasswordHash {
    pub hash: String,
    pub salt: String,
}

/// Whether a shared password has an acceptable length: 8 to 128 bytes.
pub open spec fn password_len_ok(password: Seq<char>) -> bool {
    8 <= encode_utf8(password).len() <= 128
}

/// The stored form of `password` under `salt`, or the error for a password
/// of the wrong length.
pub open spec fn password_hash_spec(password: Seq<char>, salt: Seq<u8>) -> Result<(Seq<char>, Seq<char>), Seq<char>> {
    if !password_len_ok(password) {
        Err("password must be 8-128 characters"@)
    } else {
        Ok(
            (
                base64_text(pbkdf2_spec(encode_utf8(password), salt, pbkdf2_iterations())),
                base64_text(salt),
            ),
        )
    }
}

/// What a stored hash and salt read back as: the Base64 texts decode to
/// the 32-byte PBKDF2 digest of `password` and to `salt`, and the hash
/// text is not empty (nor the salt text, unless the salt is).
pub open spec fn stores(password: Seq<char>, salt: Seq<u8>, hash_text: Seq<char>, salt_text: Seq<char>) -> bool {
    let d = pbkdf2_spec(encode_utf8(password), salt, pbkdf2_iterations());
    &&& d.len() == 32
    &&& base64_bytes(encode_utf8(hash_text)) == Some(d)
    &&& base64_bytes(encode_utf8(salt_text)) == Some(salt)
    &&& hash_text.len() > 0
    &&& (salt_text.len() > 0 <==> salt.len() > 0)
}

/// Hashes a new shared password under the given salt.
pub fn password_hash_with_salt(password: &str, salt: &[u8]) -> (r: Result<PasswordHash, String>)
    ensures
        match r {
            Ok(h) => password_hash_spec(password@, salt@) == Ok::<(Seq<char>, Seq<char>), Seq<char>>((h.hash@, h.salt@))
                && stores(password@, salt@, h.hash@, h.salt@),
            Err(e) => password_hash_spec(password@, salt@) == Err::<(Seq<char>, Seq<char>), Seq<char>>(e@),
        },
{
    let bytes = password.as_bytes();
    if bytes.len() < 8 || bytes.len() > 128 {
        return Err(String::from_str("password must be 8-128 characters"));
    }
    let hash = pbkdf2_sha256(bytes, salt, PBKDF2_ITERATIONS);
    let hash_text = base64_encode(hash.as_slice());
    let salt_text = base64_encode(salt);
    proof {
        assert(4 * ((hash@.len() + 2) / 3) > 0);
        assert(salt@.len() > 0 ==> (salt@.len() + 2) / 3 > 0);
    }
    Ok(PasswordHash { hash: hash_text, salt: salt_text })
}

/// Hashes a new shared password under a fresh random sixteen-byte salt.
pub fn hash_live_password(password: String) -> (r: Result<PasswordHash, String>)
    ensures
        !password_len_ok(password@) <==> r is Err,
        r is Err ==> r->Err_0@ == "password must be 8-128 characters"@,
        r is Ok ==> exists|salt: Seq<u8>|
            salt.len() == 16 && password_hash_spec(password@, salt) == Ok::<(Seq<char>, Seq<char>), Seq<char>>((r->Ok_0.hash@, r->Ok_0.salt@))
                && stores(password@, salt, r->Ok_0.hash@, r->Ok_0.salt@),
{
    let salt = random_uuid_bytes();
    let r = password_hash_with_salt(password.as_str(), salt.as_slice());
    proof {
        if r is Ok {
            assert(password_hash_spec(password@, salt@) == Ok::<(Seq<char>, Seq<char>), Seq<char>>((r->Ok_0.hash@, r->Ok_0.salt@))
                && stores(password@, salt@, r->Ok_0.hash@, r->Ok_0.salt@));
        }
    }
    r
}

/// The shared-password configuration one request is checked against.
pub struct LiveAuth {
    pub salt: Vec<u8>,
    pub hash: Vec<u8>,
    pub token: String,
}

/// The outcome of reading one settings key.
pub enum SettingRead {
    /// The key holds this value.
    Value(String),
    /// The key is not set.
    Missing,
    /// The database could not be read.
    Failed,
}

/// What a readable, well-formed configuration holds.
pub open spec fn token_spec(hash: Seq<u8>, salt: Seq<u8>) -> Seq<char> {
    base64_text(sha256("tack-live-token"@.map_values(|c: char| c as u8) + hash + salt))
}

/// How the live server is protected, given what the settings hold: `None`
/// when no password is configured (no hash key) or it was cleared (an
/// empty value); otherwise a lock. A configuration that cannot be read or
/// decoded, whose hash is not 32 bytes or whose salt is empty locks the
/// share: `Some(false)`. A good one opens with its token: `Some(true)`.
pub open spec fn auth_mode(hash: SettingRead, salt: SettingRead) -> Option<bool> {
    match hash {
        SettingRead::Missing => None,
        SettingRead::Failed => Some(false),
        SettingRead::Value(h) => match salt {
            SettingRead::Value(s) => {
                if h@.len() == 0 || s@.len() == 0 {
                    None
                } else {
                    match (base64_bytes(encode_utf8(h@)), base64_bytes(encode_utf8(s@))) {
                        (Some(hb), Some(sb)) => Some(hb.len() == 32 && sb.len() > 0),
                        _ => Some(false),
                    }
                }
            },
            _ => Some(false),
        },
    }
}

/// The decoded hash and salt of a good configuration.
pub open spec fn auth_key(hash: SettingRead, salt: SettingRead) -> (Seq<u8>, Seq<u8>) {
    match (hash, salt) {
        (SettingRead::Value(h), SettingRead::Value(s)) => (
            base64_bytes(encode_utf8(h@))->0,
            base64_bytes(encode_utf8(s@))->0,
        ),
        _ => (seq![], seq![]),
    }
}

fn locked() -> (a: LiveAuth)
    ensures
        a.salt@.len() == 0,
        a.hash@ == Seq::new(32, |i: int| 0u8),
        a.token@.len() == 36,
        forall|i: int| 0 <= i < a.token@.len() ==> uuid_char(#[trigger] a.token@[i]),
{
    let mut hash: Vec<u8> = Vec::new();
    let mut i: usize = 0;
    while i < 32
        invariant
            i <= 32,
            hash@ =~= Seq::new(i as nat, |k: int| 0u8),
        decreases 32 - i,
    {
        hash.push(0);
        i = i + 1;
    }
    LiveAuth { salt: Vec::new(), hash, token: random_uuid_text() }
}

/// Derives the live server's lock from the two settings that hold the
/// shared password. A closed lock has an empty salt, an all-zero hash and a
/// random token that no client holds; an open lock's token is derived from
/// the stored hash, so it is stable across requests and rotates with the
/// password.
pub fn load_auth_from(hash_b64: SettingRead, salt_b64: SettingRead) -> (r: Option<LiveAuth>)
    ensures
        match auth_mode(hash_b64, salt_b64) {
            None => r is None,
            Some(false) => r is Some && r->0.salt@.len() == 0 && r->0.hash@ == Seq::new(32, |i: int| 0u8)
                && closed_token(r->0.token@),
            Some(true) => r is Some && r->0.hash@ == auth_key(hash_b64, salt_b64).0 && r->0.salt@
                == auth_key(hash_b64, salt_b64).1 && r->0.token@ == token_spec(
                auth_key(hash_b64, salt_b64).0,
                auth_key(hash_b64, salt_b64).1,
            ),
        },
{
    let ghost mode = auth_mode(hash_b64, salt_b64);
    let ghost key = auth_key(hash_b64, salt_b64);
    let h = match hash_b64 {
        SettingRead::Missing => return None,
        SettingRead::Failed => return Some(locked()),
        SettingRead::Value(h) => h,
    };
    let s = match salt_b64 {
        SettingRead::Value(s) => s,
        _ => return Some(locked()),
    };
    if h.as_str().is_empty() || s.as_str().is_empty() {
        return None;
    }
    let hb = base64_decode(h.as_str().as_bytes()).ok();
    let sb = base64_decode(s.as_str().as_bytes()).ok();
    let (hash, salt) = match (hb, sb) {
        (Some(x), Some(y)) => (x, y),
        _ => return Some(locked()),
    };
    if hash.len() != 32 || salt.len() == 0 {
        return Some(locked());
    }
    let label = "tack-live-token".as_bytes();
    proof {
        reveal_strlit("tack-live-token");
        vstd::string::is_ascii_spec_bytes("tack-live-token");
        assert(label@ =~= "tack-live-token"@.map_values(|c: char| c as u8));
    }
    let mut msg: Vec<u8> = Vec::new();
    let mut i: usize = 0;
    while i < label.len()
        invariant
            i <= label@.len(),
            msg@ =~= label@.take(i as int),
        decreases label@.len() - i,
    {
        msg.push(label[i]);
        i = i + 1;
    }
    assert(label@.take(label@.len() as int) =~= label@);
    let msg = concat(&msg, hash.as_slice());
    let msg = concat(&msg, salt.as_slice());
    let digest = sha256_digest(msg.as_slice());
    let token = base64_encode(digest.as_slice());
    Some(LiveAuth { salt, hash, token })
}

/// Whether `password` is the shared password of the lock.
pub fn check_password(auth: &LiveAuth, password: &str) -> (ok: bool)
    ensures
        ok == (pbkdf2_spec(encode_utf8(password@), auth.salt@, pbkdf2_iterations()) == auth.hash@),
{
    let d = pbkdf2_sha256(password.as_bytes(), auth.salt.as_slice(), PBKDF2_ITERATIONS);
    ct_eq(d.as_slice(), auth.hash.as_slice())
}

/// The session cookie issued after a correct password: valid for a week,
/// not readable from scripts.
pub open spec fn session_cookie_spec(token: Seq<char>) -> Seq<char> {
    "tack_live="@ + token + "; Path=/; HttpOnly; SameSite=Lax; Max-Age=604800"@
}

pub fn session_cookie(token: &str) -> (c: String)
    ensures
        c@ == session_cookie_spec(token@),
{
    let mut c = String::from_str("tack_live=");
    c.append(token);
    c.append("; Path=/; HttpOnly; SameSite=Lax; Max-Age=604800");
    c
}

/// The prefix of `s` before its first `c`.
pub open spec fn before_char(s: Seq<char>, c: char) -> Seq<char>
    decreases s.len(),
{
    if s.len() == 0 || s[0] == c {
        seq![]
    } else {
        seq![s[0]] + before_char(s.drop_first(), c)
    }
}

/// The token a query string carries: the text after its first `token=`, up
/// to the next `&` or the next `token=`.
pub open spec fn query_token(query: Seq<char>) -> Option<Seq<char>> {
    let pat = "token="@;
    let f = find_sub(query, pat, 0);
    if f < 0 {
        None
    } else {
        let start = f + pat.len();
        let g = find_sub(query, pat, start);
        let stop = if g < 0 {
            query.len() as int
        } else {
            g
        };
        Some(before_char(query.subrange(start, stop), '&'))
    }
}

/// Whether one `;`-separated part of a `Cookie` header is the session cookie
/// holding `token`.
pub open spec fn cookie_part_ok(part: Seq<char>, token: Seq<char>) -> bool {
    let t = trim(part);
    let p = "tack_live="@;
    p.is_prefix_of(t) && t.subrange(p.len() as int, t.len() as int) == token
}

/// Whether one request header carries `token`: a `Cookie` header with the
/// session cookie, or an `Authorization: Bearer` header (names matched
/// without regard to ASCII case).
pub open spec fn header_ok(name: Seq<char>, value: Seq<char>, token: Seq<char>) -> bool {
    ||| eq_ignore_case(name, "cookie"@) && (exists|k: int|
        0 <= k < split_on(value, ';').len() && cookie_part_ok(
            #[trigger] split_on(value, ';')[k],
            token,
        ))
    ||| eq_ignore_case(name, "authorization"@) && "Bearer "@.is_prefix_of(value) && trim(
        value.subrange(7, value.len() as int),
    ) == token
}

/// Whether a request carries the session token, in a header or as a
/// non-empty `token=` query parameter.
pub open spec fn authorized_spec(headers: Seq<(Seq<char>, Seq<char>)>, query: Seq<char>, token: Seq<char>) -> bool {
    ||| exists|k: int| 0 <= k < headers.len() && header_ok(#[trigger] headers[k].0, headers[k].1, token)
    ||| match query_token(query) {
        Some(v) => v.len() > 0 && v == token,
        None => false,
    }
}

pub open spec fn header_views(headers: Seq<(String, String)>) -> Seq<(Seq<char>, Seq<char>)> {
    headers.map_values(|h: (String, String)| (h.0@, h.1@))
}

fn tokens_equal(v: &[char], token: &str) -> (b: bool)
    ensures
        b == (v@ == token@),
{
    let vs = string_from_chars(v);
    let r = ct_eq(vs.as_str().as_bytes(), token.as_bytes());
    proof {
        vstd::utf8::encode_utf8_decode_utf8(v@);
        vstd::utf8::encode_utf8_decode_utf8(token@);
    }
    r
}

fn cookie_ok(value: &str, token: &str) -> (b: bool)
    ensures
        b == exists|k: int|
            0 <= k < split_on(value@, ';').len() && cookie_part_ok(
                #[trigger] split_on(value@, ';')[k],
                token@,
            ),
{
    let v = chars_of(value);
    let parts = split_chars(v.as_slice(), ';');
    let ghost pv = views(parts@);
    let pre = chars_of("tack_live=");
    let mut i: usize = 0;
    while i < parts.len()
        invariant
            i <= parts@.len(),
            pv == views(parts@),
            pv == split_on(value@, ';'),
            pre@ == "tack_live="@,
            forall|k: int| 0 <= k < i ==> !cookie_part_ok(#[trigger] pv[k], token@),
        decreases parts@.len() - i,
    {
        let part = &parts[i];
        let (a, b) = strip_both_at(part.as_slice(), 0, part.len(), CharClass::Whitespace);
        assert(part@.subrange(0, part@.len() as int) =~= part@);
        let t = slice_chars(part.as_slice(), a, b);
        if has_prefix(t.as_slice(), pre.as_slice()) {
            let rest = slice_chars(t.as_slice(), pre.len(), t.len());
            if tokens_equal(rest.as_slice(), token) {
                assert(cookie_part_ok(pv[i as int], token@));
                return true;
            }
        }
        i = i + 1;
    }
    false
}

fn bearer_ok(value: &str, token: &str) -> (b: bool)
    ensures
        b == ("Bearer "@.is_prefix_of(value@) && trim(value@.subrange(7, value@.len() as int))
            == token@),
{
    let v = chars_of(value);
    let pre = chars_of("Bearer ");
    proof {
        reveal_strlit("Bearer ");
    }
    if !has_prefix(v.as_slice(), pre.as_slice()) {
        return false;
    }
    let (a, b) = strip_both_at(v.as_slice(), 7, v.len(), CharClass::Whitespace);
    let t = slice_chars(v.as_slice(), a, b);
    tokens_equal(t.as_slice(), token)
}

fn header_matches(name: &str, value: &str, token: &str) -> (b: bool)
    ensures
        b == header_ok(name@, value@, token@),
{
    let n = chars_of(name);
    let cookie = chars_of("cookie");
    let authz = chars_of("authorization");
    if chars_eq_ignore_case(n.as_slice(), cookie.as_slice()) && cookie_ok(value, token) {
        return true;
    }
    chars_eq_ignore_case(n.as_slice(), authz.as_slice()) && bearer_ok(value, token)
}

/// Whether a request may use the API: its headers or query carry the
/// lock's session token.
pub fn authorized(headers: &[(String, String)], query: &str, auth: &LiveAuth) -> (b: bool)
    ensures
        b == authorized_spec(header_views(headers@), query@, auth.token@),
{
    let token = auth.token.as_str();
    let ghost hv = header_views(headers@);
    let mut i: usize = 0;
    while i < headers.len()
        invariant
            i <= headers@.len(),
            hv == header_views(headers@),
            token@ == auth.token@,
            forall|k: int| 0 <= k < i ==> !header_ok(#[trigger] hv[k].0, hv[k].1, token@),
        decreases headers@.len() - i,
    {
        let h = &headers[i];
        if header_matches(h.0.as_str(), h.1.as_str(), token) {
            assert(header_ok(hv[i as int].0, hv[i as int].1, token@));
            return true;
        }
        i = i + 1;
    }
    let q = chars_of(query);
    let pat = chars_of("token=");
    let f = find_sub_exec(q.as_slice(), pat.as_slice(), 0);
    let ok = match f {
        None => false,
        Some(f) => {
            assert(q@.len() == q.len());
            let start = f + pat.len();
            let g = find_sub_exec(q.as_slice(), pat.as_slice(), start);
            let stop = match g {
                Some(g) => g,
                None => q.len(),
            };
            let mut k: usize = start;
            while k < stop && q[k] != '&'
                invariant
                    start <= k <= stop <= q@.len(),
                    before_char(q@.subrange(start as int, stop as int), '&') == q@.subrange(
                        start as int,
                        k as int,
                    ) + before_char(q@.subrange(k as int, stop as int), '&'),
                decreases stop - k,
            {
                assert(q@.subrange(k as int, stop as int).drop_first() =~= q@.subrange(k + 1, stop as int));
                assert(q@.subrange(start as int, k + 1) =~= q@.subrange(start as int, k as int).push(q@[k as int]));
                k = k + 1;
            }
            assert(before_char(q@.subrange(k as int, stop as int), '&') =~= seq![]);
            let v = slice_chars(q.as_slice(), start, k);
            assert(v@ =~= before_char(q@.subrange(start as int, stop as int), '&'));
            v.len() > 0 && tokens_equal(v.as_slice(), token)
        },
    };
    ok
}

} // verus!

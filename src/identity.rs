//! The server's signing identity: resolving the operator's key setting, and
//! signing `IdPk` bundles for requesters.

use vstd::prelude::*;
use vstd::slice::slice_subrange;
use vstd::string::*;
use vstd::utf8::encode_utf8;

verus! {

/// Bytes in an ed25519 secret key (seed followed by public key).
pub const SECRET_KEY_BYTES: usize = 64;

/// What `base64::decode` yields for a text: the bytes, or `None` on an error.
pub uninterp spec fn b64_decoded(s: Seq<char>) -> Option<Seq<u8>>;

/// What `base64::encode` yields for bytes.
pub uninterp spec fn b64_encoded(b: Seq<u8>) -> Seq<char>;

/// What `sodiumoxide::crypto::sign::sign` yields: the signed message.
pub uninterp spec fn signed_message(m: Seq<u8>, sk: Seq<u8>) -> Seq<u8>;

/// Relies on `base64::decode` (standard alphabet, padded): the decoded bytes, or
/// an error.
#[verifier::external_body]
fn b64_decode(s: &str) -> (r: Option<Vec<u8>>)
    ensures
        match r {
            Some(v) => b64_decoded(s@) == Some(v@),
            None => b64_decoded(s@) is None,
        },
{
    base64::decode(s).ok()
}

/// Relies on `base64::encode` (standard alphabet, padded).
#[verifier::external_body]
fn b64_encode(b: &[u8]) -> (r: String)
    ensures
        r@ == b64_encoded(b@),
{
    base64::encode(b)
}

/// Relies on `sodiumoxide::crypto::sign::sign`: the message signed with the
/// 64-byte ed25519 secret key `sk`, a 64-byte signature followed by the message.
#[verifier::external_body]
fn sign_message(m: &[u8], sk: &[u8]) -> (r: Vec<u8>)
    requires
        sk@.len() == SECRET_KEY_BYTES,
    ensures
        r@ == signed_message(m@, sk@),
        r@.len() == m@.len() + 64,
{
    let mut a = [0u8; 64];
    a.copy_from_slice(sk);
    sodiumoxide::crypto::sign::sign(m, &sodiumoxide::crypto::sign::SecretKey(a))
}

/// How the operator's key setting resolves.
pub enum ServerKey {
    /// The setting was a base64 secret key: the public half (base64) is the
    /// shared key, and the secret signs.
    Private { public: String, secret: Vec<u8> },
    /// The setting asks for the stored key pair (made if absent); `publish`
    /// says whether its public half becomes the shared key.
    Generate { publish: bool },
    /// The setting is itself the shared key; the server cannot sign.
    Public(String),
}

/// Whether the setting asks for a generated key pair: empty, `-` or `_`.
pub open spec fn asks_generated(k: Seq<char>) -> bool {
    k.len() == 0 || k == seq!['-'] || k == seq!['_']
}

/// Whether `k` is one character long and that character is `c`.
fn is_single(k: &str, c: char) -> (r: bool)
    ensures
        r == (k@ == seq![c]),
{
    if k.unicode_len() == 1 && k.get_char(0) == c {
        assert(k@ =~= seq![c]);
        true
    } else {
        false
    }
}

/// Resolves the key setting: a base64 text of 64 bytes is a secret key; an
/// empty setting, `-` or `_` asks for the stored key pair; anything else is the
/// shared key itself.
pub fn get_server_sk(key: &str) -> (r: ServerKey)
    ensures
        match b64_decoded(key@) {
            Some(b) if b.len() == SECRET_KEY_BYTES => r matches ServerKey::Private {
                public,
                secret,
            } && secret@ == b && public@ == b64_encoded(b.subrange(32, 64)),
            _ => if asks_generated(key@) {
                r matches ServerKey::Generate { publish } && publish == (key@.len() != 0)
            } else {
                r matches ServerKey::Public(k) && k@ == key@
            },
        },
{
    if let Some(sk) = b64_decode(key) {
        if sk.len() == SECRET_KEY_BYTES {
            let half = slice_subrange(sk.as_slice(), 32, 64);
            let public = b64_encode(half);
            return ServerKey::Private { public, secret: sk };
        }
    }
    let n = key.unicode_len();
    if n == 0 || is_single(key, '-') || is_single(key, '_') {
        ServerKey::Generate { publish: n != 0 }
    } else {
        ServerKey::Public(String::from_str(key))
    }
}

/// The protobuf varint of `n`.
pub open spec fn varint(n: nat) -> Seq<u8>
    decreases n,
{
    if n < 128 {
        seq![n as u8]
    } else {
        seq![((n % 128) + 128) as u8] + varint(n / 128)
    }
}

/// A length-delimited protobuf field, omitted where empty.
pub open spec fn bytes_field(tag: u8, v: Seq<u8>) -> Seq<u8> {
    if v.len() == 0 {
        Seq::empty()
    } else {
        seq![tag] + varint(v.len()) + v
    }
}

/// The wire form of `IdPk { id = 1: string, pk = 2: bytes }`.
pub open spec fn id_pk_bytes(id: Seq<char>, pk: Seq<u8>) -> Seq<u8> {
    bytes_field(0x0a, encode_utf8(id)) + bytes_field(0x12, pk)
}

/// Appends the varint of `n` to `out`.
fn push_varint(out: &mut Vec<u8>, n: usize)
    ensures
        final(out)@ == old(out)@ + varint(n as nat),
    decreases n,
{
    if n < 128 {
        out.push(n as u8);
        assert(old(out)@.push(n as u8) =~= old(out)@ + seq![n as u8]);
    } else {
        out.push(((n % 128) + 128) as u8);
        let ghost mid = out@;
        push_varint(out, n / 128);
        assert(old(out)@ + varint(n as nat) =~= old(out)@ + seq![((n % 128) + 128) as u8] + varint(
            (n / 128) as nat,
        ));
    }
}

/// Appends a length-delimited field to `out`, nothing where `v` is empty.
fn push_bytes_field(out: &mut Vec<u8>, tag: u8, v: &[u8])
    ensures
        final(out)@ == old(out)@ + bytes_field(tag, v@),
{
    if v.len() == 0 {
        assert(old(out)@ + Seq::<u8>::empty() =~= old(out)@);
        return;
    }
    out.push(tag);
    push_varint(out, v.len());
    let ghost mid = out@;
    let mut i: usize = 0;
    while i < v.len()
        invariant
            i <= v@.len(),
            out@ == mid + v@.subrange(0, i as int),
        decreases v@.len() - i,
    {
        out.push(v[i]);
        i = i + 1;
        assert(v@.subrange(0, i as int) == v@.subrange(0, i - 1) + seq![v@[i - 1]]);
    }
    assert(v@.subrange(0, v@.len() as int) =~= v@);
    assert(old(out)@ + bytes_field(tag, v@) =~= old(out)@ + seq![tag] + varint(v@.len()) + v@);
}

/// Encodes an `IdPk` bundle.
pub fn id_pk_encode(id: &str, pk: &[u8]) -> (r: Vec<u8>)
    ensures
        r@ == id_pk_bytes(id@, pk@),
{
    let mut out: Vec<u8> = Vec::new();
    push_bytes_field(&mut out, 0x0a, id.as_bytes());
    push_bytes_field(&mut out, 0x12, pk);
    assert(out@ =~= id_pk_bytes(id@, pk@));
    out
}

/// Signs the bundle `IdPk { id, pk }` with the server's secret key, so that a
/// requester can check the key of the peer it asked for.
pub fn sign_id_pk(id: &str, pk: &[u8], sk: &[u8]) -> (r: Vec<u8>)
    requires
        sk@.len() == SECRET_KEY_BYTES,
    ensures
        r@ == signed_message(id_pk_bytes(id@, pk@), sk@),
        r@.len() == id_pk_bytes(id@, pk@).len() + 64,
{
    let m = id_pk_encode(id, pk);
    sign_message(m.as_slice(), sk)
}

/// Whether a base64 key is safe on a command line: it holds neither `/` nor
/// `:`. A generated key pair is drawn again until its public half is.
pub fn cli_safe(key: &str) -> (r: bool)
    ensures
        r == (!key@.contains('/') && !key@.contains(':')),
{
    let n = key.unicode_len();
    let mut i: usize = 0;
    while i < n
        invariant
            n == key@.len(),
            i <= n,
            forall|j: int| 0 <= j < i ==> key@[j] != '/' && key@[j] != ':',
        decreases n - i,
    {
        let c = key.get_char(i);
        if c == '/' || c == ':' {
            assert(key@[i as int] == c);
            return false;
        }
        i = i + 1;
    }
    true
}

} // verus!

//! Who sent a request: secp256k1 signatures over the Keccak-256 hash of a canonical
//! form of the request, and nonces against replay.
//!
//! The signed bytes are `"REND/v1\n" || method || "\n" || path || "\n" || nonce ||
//! "\n" || body`, with the nonce as eight bytes, most significant first. An address
//! is the last twenty bytes of the hash of the public key, and the organisation in
//! the path must be the address of the signer.

use vstd::prelude::*;
use vstd::utf8::encode_utf8;
use secp256k1::ecdsa::{RecoverableSignature, RecoveryId};
use secp256k1::{Message, Secp256k1, SecretKey};
use tiny_keccak::{Hasher, Keccak};
use crate::bytes::{be_bytes, be_val, push_all, push_be, slice_vec};
use crate::hexes::{hex_decode, hex_encode, hex_text, unhex};
use crate::numbers::{parse_unsigned, unsigned_in};
use crate::text::{concat2, concat3, concat_num, decimal, push_char, push_decimal, same, text};

verus! {

/// The Keccak-256 hash of bytes, as `tiny_keccak` computes it.
pub uninterp spec fn keccak_256(data: Seq<u8>) -> Seq<u8>;

/// The uncompressed public key of a secret key.
pub uninterp spec fn public_key_of(secret: Seq<u8>) -> Seq<u8>;

/// The compact form and the recovery number of the signature of a digest.
pub uninterp spec fn signature_of(digest: Seq<u8>, secret: Seq<u8>) -> (Seq<u8>, u8);

/// The uncompressed public key for which a compact signature is one of a digest.
pub uninterp spec fn recovered_key(digest: Seq<u8>, compact: Seq<u8>, id: u8) -> Option<Seq<u8>>;

/// Whether bytes are a secret key: a number between 1 and the order of the curve.
pub open spec fn valid_secret(s: Seq<u8>) -> bool {
    s.len() == 32 && 0 < be_val(s)
        < 0xffff_ffff_ffff_ffff_ffff_ffff_ffff_fffe_baae_dce6_af48_a03b_bfd2_5e8c_d036_4141int
}

/// Hashes bytes: `tiny_keccak::Keccak::v256`, fed once and finalized.
#[verifier::external_body]
fn keccak256(data: &[u8]) -> (r: [u8; 32])
    ensures
        r@ == keccak_256(data@),
{
    let mut hasher = Keccak::v256();
    hasher.update(data);
    let mut out = [0u8; 32];
    hasher.finalize(&mut out);
    out
}

/// Tests a secret key: `secp256k1::SecretKey::from_slice`, which takes 32 bytes that
/// are neither zero nor as large as the order of the curve.
#[verifier::external_body]
fn is_secret(bytes: &[u8; 32]) -> (r: bool)
    ensures
        r == valid_secret(bytes@),
{
    SecretKey::from_slice(bytes).is_ok()
}

/// The public key of a secret key: `secp256k1::SecretKey::public_key`, in its
/// uncompressed form.
#[verifier::external_body]
fn public_key(secret: &[u8; 32]) -> (r: [u8; 65])
    requires
        valid_secret(secret@),
    ensures
        r@ == public_key_of(secret@),
{
    let key = SecretKey::from_slice(secret).unwrap();
    key.public_key(&Secp256k1::new()).serialize_uncompressed()
}

/// Signs a digest: `secp256k1::Secp256k1::sign_ecdsa_recoverable`, whose nonce is
/// derived from the digest and the key. The key of the signer is recovered from the
/// signature.
#[verifier::external_body]
fn sign_digest(digest: &[u8; 32], secret: &[u8; 32]) -> (r: ([u8; 64], u8))
    requires
        valid_secret(secret@),
    ensures
        (r.0@, r.1) == signature_of(digest@, secret@),
        recovered_key(digest@, r.0@, r.1) == Some(public_key_of(secret@)),
{
    let key = SecretKey::from_slice(secret).unwrap();
    let sig = Secp256k1::new().sign_ecdsa_recoverable(&Message::from_digest(*digest), &key);
    let (id, compact) = sig.serialize_compact();
    (compact, id.to_i32() as u8)
}

/// Recovers the key of a signer: `secp256k1::Secp256k1::recover_ecdsa`; there is none
/// for a recovery number or a compact form that the crate does not take.
#[verifier::external_body]
fn recover_key(digest: &[u8; 32], compact: &[u8], id: u8) -> (r: Option<[u8; 65]>)
    ensures
        match r {
            Some(k) => recovered_key(digest@, compact@, id) == Some(k@),
            None => recovered_key(digest@, compact@, id) is None,
        },
{
    let id = RecoveryId::from_i32(id as i32).ok()?;
    let sig = RecoverableSignature::from_compact(compact, id).ok()?;
    let key = Secp256k1::verification_only().recover_ecdsa(&Message::from_digest(*digest), &sig).ok()?;
    Some(key.serialize_uncompressed())
}

/// A fresh secret key: `secp256k1::Secp256k1::generate_keypair` with the generator of
/// the thread. Nothing is said of which one.
#[verifier::external_body]
fn random_secret() -> (r: [u8; 32])
    ensures
        valid_secret(r@),
{
    let (secret, _) = Secp256k1::new().generate_keypair(&mut rand::thread_rng());
    secret.secret_bytes()
}

/// The name of the header with the signature.
pub const SIG_HEADER: &'static str = "x-rend-sig";

/// The name of the header with the nonce.
pub const NONCE_HEADER: &'static str = "x-rend-nonce";

/// The address of an uncompressed public key: the last twenty bytes of the hash of
/// its two coordinates.
pub open spec fn address_of(key: Seq<u8>) -> Seq<u8> {
    keccak_256(key.skip(1)).skip(12)
}

pub fn address_from_pubkey(pubkey: &[u8; 65]) -> (r: [u8; 20])
    ensures
        r@ == address_of(pubkey@),
{
    let mut coordinates: Vec<u8> = Vec::new();
    let mut i: usize = 1;
    while i < 65
        invariant
            1 <= i <= 65,
            coordinates@ == pubkey@.subrange(1, i as int),
        decreases 65 - i,
    {
        coordinates.push(pubkey[i]);
        assert(pubkey@.subrange(1, i as int).push(pubkey@[i as int]) =~= pubkey@.subrange(1, i as int + 1));
        i = i + 1;
    }
    assert(coordinates@ =~= pubkey@.skip(1));
    let hash = keccak256(coordinates.as_slice());
    let mut out: [u8; 20] = [0; 20];
    let mut j: usize = 0;
    while j < 20
        invariant
            j <= 20,
            forall|k: int| 0 <= k < j ==> out@[k] == hash@[k + 12],
        decreases 20 - j,
    {
        out[j] = hash[j + 12];
        j = j + 1;
    }
    assert(out@ =~= address_of(pubkey@));
    out
}

/// The canonical form of a request.
pub open spec fn signed_bytes(method: Seq<char>, path: Seq<char>, nonce: u64, body: Seq<u8>) -> Seq<u8> {
    encode_utf8("REND/v1\n"@) + encode_utf8(method) + seq![10u8] + encode_utf8(path) + seq![10u8] + be_bytes(
        nonce as nat,
        8,
    ) + seq![10u8] + body
}

/// The digest that is signed.
pub open spec fn digest_of(method: Seq<char>, path: Seq<char>, nonce: u64, body: Seq<u8>) -> Seq<u8> {
    keccak_256(signed_bytes(method, path, nonce, body))
}

pub fn message_hash(method: &str, path: &str, nonce: u64, body: &[u8]) -> (r: [u8; 32])
    ensures
        r@ == digest_of(method@, path@, nonce, body@),
{
    let mut b: Vec<u8> = Vec::new();
    push_all(&mut b, "REND/v1\n".as_bytes());
    push_all(&mut b, method.as_bytes());
    b.push(10);
    push_all(&mut b, path.as_bytes());
    b.push(10);
    push_be(&mut b, nonce as u128, 8);
    b.push(10);
    push_all(&mut b, body);
    assert(b@ =~= signed_bytes(method@, path@, nonce, body@));
    keccak256(b.as_slice())
}

/// The signature of a request: 64 bytes, then the recovery number.
pub open spec fn request_signature(
    secret: Seq<u8>,
    method: Seq<char>,
    path: Seq<char>,
    nonce: u64,
    body: Seq<u8>,
) -> Seq<u8> {
    let s = signature_of(digest_of(method, path, nonce, body), secret);
    s.0.push(s.1)
}

/// The address that signed a request, as its signature shows.
pub open spec fn recovered_address(
    method: Seq<char>,
    path: Seq<char>,
    nonce: u64,
    body: Seq<u8>,
    sig: Seq<u8>,
) -> Option<Seq<u8>> {
    match recovered_key(digest_of(method, path, nonce, body), sig.take(64), sig[64]) {
        Some(k) => Some(address_of(k)),
        None => None,
    }
}

/// A wallet: a secret key and its address.
#[derive(Debug)]
pub struct Eoa {
    secret: [u8; 32],
    address: [u8; 20],
}

impl Eoa {
    #[verifier::type_invariant]
    spec fn holds_its_address(self) -> bool {
        valid_secret(self.secret@) && self.address@ == address_of(public_key_of(self.secret@))
    }

    /// The secret key.
    pub closed spec fn key(&self) -> Seq<u8> {
        self.secret@
    }

    /// A wallet with a fresh key.
    pub fn new() -> (r: Eoa)
        ensures
            valid_secret(r.key()),
    {
        let secret = random_secret();
        Eoa::from_secret(secret)
    }

    /// The wallet of a secret key.
    pub fn from_secret(bytes: [u8; 32]) -> (r: Eoa)
        requires
            valid_secret(bytes@),
        ensures
            r.key() == bytes@,
    {
        let address = address_from_pubkey(&public_key(&bytes));
        Eoa { secret: bytes, address }
    }

    /// The wallet of a secret key, if the bytes are one.
    pub fn try_from_secret(bytes: [u8; 32]) -> (r: Option<Eoa>)
        ensures
            match r {
                Some(w) => valid_secret(bytes@) && w.key() == bytes@,
                None => !valid_secret(bytes@),
            },
    {
        if is_secret(&bytes) {
            Some(Eoa::from_secret(bytes))
        } else {
            None
        }
    }

    /// The address of the wallet.
    pub fn address(&self) -> (r: [u8; 20])
        ensures
            r@ == address_of(public_key_of(self.key())),
    {
        proof {
            use_type_invariant(self);
        }
        self.address
    }

    /// The address as text.
    pub fn address_hex(&self) -> (r: String)
        ensures
            r@ == "0x"@ + hex_text(address_of(public_key_of(self.key()))),
    {
        proof {
            use_type_invariant(self);
        }
        concat2("0x", hex_encode(self.address.as_slice()).as_str())
    }

    /// Signs a request. The address of the wallet is recovered from the signature.
    pub fn sign(&self, method: &str, path: &str, nonce: u64, body: &[u8]) -> (r: [u8; 65])
        ensures
            r@ == request_signature(self.key(), method@, path@, nonce, body@),
            recovered_address(method@, path@, nonce, body@, r@) == Some(
                address_of(public_key_of(self.key())),
            ),
    {
        proof {
            use_type_invariant(self);
        }
        let hash = message_hash(method, path, nonce, body);
        let (compact, id) = sign_digest(&hash, &self.secret);
        let mut out: [u8; 65] = [0; 65];
        let mut i: usize = 0;
        while i < 64
            invariant
                i <= 64,
                forall|k: int| 0 <= k < i ==> out@[k] == compact@[k],
            decreases 64 - i,
        {
            out[i] = compact[i];
            i = i + 1;
        }
        out[64] = id;
        assert(out@ =~= compact@.push(id));
        assert(out@.take(64) =~= compact@);
        out
    }
}

impl Default for Eoa {
    /// A wallet with a fresh key.
    fn default() -> (r: Eoa)
        ensures
            valid_secret(r.key()),
    {
        Eoa::new()
    }
}

/// The address that signed a request, if its signature is one.
pub fn recover_address(method: &str, path: &str, nonce: u64, body: &[u8], sig: &[u8; 65]) -> (r: Option<[u8; 20]>)
    ensures
        match recovered_address(method@, path@, nonce, body@, sig@) {
            Some(a) => r matches Some(x) && x@ == a,
            None => r is None,
        },
{
    let hash = message_hash(method, path, nonce, body);
    let compact = slice_vec(sig.as_slice(), 0, 64);
    assert(compact@ =~= sig@.take(64));
    match recover_key(&hash, compact.as_slice(), sig[64]) {
        Some(key) => Some(address_from_pubkey(&key)),
        None => None,
    }
}

/// A header of a request: missing, not text, or text.
#[derive(Debug)]
pub enum HeaderText {
    Missing,
    Opaque,
    Text(String),
}

/// Why a request is turned away: an HTTP status and a message.
#[derive(Debug)]
pub struct Refusal {
    pub status: u16,
    pub msg: String,
}

/// The model of a [`Refusal`].
pub struct RefusalView {
    pub status: u16,
    pub msg: Seq<char>,
}

impl View for Refusal {
    type V = RefusalView;

    open spec fn view(&self) -> RefusalView {
        RefusalView { status: self.status, msg: self.msg@ }
    }
}

pub open spec fn unauthorized(msg: Seq<char>) -> RefusalView {
    RefusalView { status: 401, msg }
}

fn refuse(msg: String) -> (r: Refusal)
    ensures
        r@ == unauthorized(msg@),
{
    Refusal { status: 401, msg }
}

/// A text without a leading `0x`.
pub open spec fn without_prefix(s: Seq<char>) -> Seq<char> {
    if s.len() >= 2 && s[0] == '0' && s[1] == 'x' {
        s.skip(2)
    } else {
        s
    }
}

fn strip_prefix(s: &str) -> (r: String)
    ensures
        r@ == without_prefix(s@),
{
    let n: usize = s.unicode_len();
    let start: usize = if n >= 2 && s.get_char(0) == '0' && s.get_char(1) == 'x' {
        2
    } else {
        0
    };
    let mut r = text("");
    let mut i: usize = start;
    proof {
        reveal_strlit("");
        assert(r@ =~= s@.subrange(start as int, start as int));
    }
    while i < n
        invariant
            start <= i <= n == s@.len(),
            r@ == s@.subrange(start as int, i as int),
        decreases n - i,
    {
        push_char(&mut r, s.get_char(i));
        assert(s@.subrange(start as int, i as int).push(s@[i as int]) =~= s@.subrange(
            start as int,
            i as int + 1,
        ));
        i = i + 1;
    }
    assert(r@ =~= without_prefix(s@));
    r
}

/// The signature in a header, or what is wrong with it.
pub open spec fn signature_in(h: HeaderText) -> Result<Seq<u8>, Seq<char>> {
    match h {
        HeaderText::Missing => Err("missing X-Rend-Sig"@),
        HeaderText::Opaque => Err("X-Rend-Sig must be ASCII"@),
        HeaderText::Text(s) => match unhex(without_prefix(s@)) {
            None => Err("X-Rend-Sig is not valid hex"@),
            Some(b) => if b.len() != 65 {
                Err("X-Rend-Sig must be 65 bytes, got "@ + decimal(b.len()))
            } else {
                Ok(b)
            },
        },
    }
}

/// Reads the signature header.
pub fn parse_sig(h: &HeaderText) -> (r: Result<[u8; 65], String>)
    ensures
        match signature_in(*h) {
            Ok(b) => r matches Ok(x) && x@ == b,
            Err(m) => r matches Err(e) && e@ == m,
        },
{
    let s = match h {
        HeaderText::Missing => return Err(text("missing X-Rend-Sig")),
        HeaderText::Opaque => return Err(text("X-Rend-Sig must be ASCII")),
        HeaderText::Text(s) => strip_prefix(s.as_str()),
    };
    let bytes = match hex_decode(s.as_str()) {
        Some(b) => b,
        None => return Err(text("X-Rend-Sig is not valid hex")),
    };
    if bytes.len() != 65 {
        let mut m = text("X-Rend-Sig must be 65 bytes, got ");
        push_decimal(&mut m, bytes.len() as u128);
        return Err(m);
    }
    let mut out: [u8; 65] = [0; 65];
    let mut i: usize = 0;
    while i < 65
        invariant
            i <= 65,
            bytes@.len() == 65,
            forall|k: int| 0 <= k < i ==> out@[k] == bytes@[k],
        decreases 65 - i,
    {
        out[i] = bytes[i];
        i = i + 1;
    }
    assert(out@ =~= bytes@);
    Ok(out)
}

/// The nonce in a header, if it is a number of 64 bits.
pub open spec fn nonce_in(h: HeaderText) -> Option<nat> {
    match h {
        HeaderText::Text(s) => unsigned_in(s@, 10, u64::MAX as nat),
        _ => None,
    }
}

/// What the headers of a request give, or why it is turned away.
pub open spec fn headers_give(sig: HeaderText, nonce: HeaderText) -> Result<(Seq<u8>, nat), RefusalView> {
    match signature_in(sig) {
        Err(m) => Err(unauthorized(m)),
        Ok(b) => match nonce_in(nonce) {
            None => Err(unauthorized("missing or malformed X-Rend-Nonce"@)),
            Some(n) => Ok((b, n)),
        },
    }
}

/// Reads the headers of a request.
pub fn check_headers(sig: &HeaderText, nonce: &HeaderText) -> (r: Result<([u8; 65], u64), Refusal>)
    ensures
        match headers_give(*sig, *nonce) {
            Ok((b, n)) => r matches Ok(x) && x.0@ == b && x.1 == n,
            Err(m) => r matches Err(e) && e@ == m,
        },
{
    let bytes = match parse_sig(sig) {
        Ok(b) => b,
        Err(m) => return Err(refuse(m)),
    };
    let parsed = match nonce {
        HeaderText::Text(s) => parse_unsigned(s.as_str(), 10, u64::MAX as u128),
        _ => None,
    };
    match parsed {
        Some(n) => Ok((bytes, n as u64)),
        None => Err(refuse(text("missing or malformed X-Rend-Nonce"))),
    }
}

/// How many slashes a path starts with, from the `i`-th character on.
pub open spec fn slashes_from(s: Seq<char>, i: nat) -> nat
    decreases s.len() - i,
{
    if i < s.len() && s[i as int] == '/' {
        slashes_from(s, i + 1)
    } else {
        i
    }
}

/// The parts between slashes of the characters from `from` to below `to`.
pub open spec fn parts_between(s: Seq<char>, from: int, to: int) -> Seq<Seq<char>>
    decreases to - from,
{
    if to <= from {
        seq![Seq::empty()]
    } else {
        let p = parts_between(s, from, to - 1);
        if s[to - 1] == '/' {
            p.push(Seq::empty())
        } else {
            p.update(p.len() - 1, p.last().push(s[to - 1]))
        }
    }
}

/// The parts of a path, without its leading slashes.
pub open spec fn path_parts(s: Seq<char>) -> Seq<Seq<char>> {
    parts_between(s, slashes_from(s, 0) as int, s.len() as int)
}

/// The organisation that a path names: `/v1/orgs/<org>/...`.
pub open spec fn org_in(path: Seq<char>) -> Option<Seq<char>> {
    let p = path_parts(path);
    if p.len() >= 3 && p[0] == "v1"@ && p[1] == "orgs"@ {
        Some(p[2])
    } else {
        None
    }
}

pub open spec fn texts_of(s: Seq<String>) -> Seq<Seq<char>> {
    Seq::new(s.len(), |i: int| s[i]@)
}

fn split_path(path: &str) -> (r: Vec<String>)
    ensures
        texts_of(r@) == path_parts(path@),
        r@.len() > 0,
{
    let n: usize = path.unicode_len();
    let mut from: usize = 0;
    while from < n && path.get_char(from) == '/'
        invariant
            from <= n == path@.len(),
            slashes_from(path@, 0) == slashes_from(path@, from as nat),
        decreases n - from,
    {
        from = from + 1;
    }
    let ghost low = from as int;
    assert(slashes_from(path@, 0) == low);
    let mut done: Vec<String> = Vec::new();
    let mut cur = text("");
    proof {
        reveal_strlit("");
        assert(cur@ =~= Seq::<char>::empty());
        assert(texts_of(done@).push(cur@) =~= parts_between(path@, low, low));
    }
    let mut i: usize = from;
    while i < n
        invariant
            low <= i <= n == path@.len(),
            texts_of(done@).push(cur@) == parts_between(path@, low, i as int),
        decreases n - i,
    {
        let c = path.get_char(i);
        let ghost before = texts_of(done@).push(cur@);
        if c == '/' {
            let ghost part = cur@;
            let ghost d0 = texts_of(done@);
            done.push(cur);
            cur = text("");
            proof {
                reveal_strlit("");
                assert(cur@ =~= Seq::<char>::empty());
                assert(texts_of(done@) =~= d0.push(part));
                assert(texts_of(done@).push(cur@) =~= before.push(Seq::empty()));
            }
        } else {
            push_char(&mut cur, c);
            assert(texts_of(done@).push(cur@) =~= before.update(before.len() - 1, before.last().push(c)));
        }
        i = i + 1;
    }
    let ghost d0 = texts_of(done@);
    let ghost part = cur@;
    done.push(cur);
    assert(texts_of(done@) =~= d0.push(part));
    done
}

/// The organisation that a path names.
pub fn path_org(path: &str) -> (r: Option<String>)
    ensures
        match org_in(path@) {
            Some(o) => r matches Some(x) && x@ == o,
            None => r is None,
        },
{
    let parts = split_path(path);
    let ghost p = texts_of(parts@);
    if parts.len() < 3 {
        return None;
    }
    assert(p[0] == parts@[0]@ && p[1] == parts@[1]@ && p[2] == parts@[2]@);
    if same(parts[0].as_str(), "v1") && same(parts[1].as_str(), "orgs") {
        Some(parts[2].clone())
    } else {
        None
    }
}

/// The address that a request is admitted for, before its nonce is looked at.
pub open spec fn signer_of(method: Seq<char>, path: Seq<char>, nonce: u64, body: Seq<u8>, sig: Seq<u8>) -> Result<
    Seq<u8>,
    RefusalView,
> {
    match recovered_address(method, path, nonce, body, sig) {
        None => Err(unauthorized("signature recovery failed"@)),
        Some(a) => match org_in(path) {
            None => Err(unauthorized("no org segment in path"@)),
            Some(org) => if org == "0x"@ + hex_text(a) {
                Ok(a)
            } else {
                Err(
                    unauthorized(
                        "signature recovers to "@ + ("0x"@ + hex_text(a)) + ", not org "@ + org,
                    ),
                )
            },
        },
    }
}

/// Checks that a request is signed by the organisation that its path names.
pub fn check_signer(method: &str, path: &str, nonce: u64, body: &[u8], sig: &[u8; 65]) -> (r: Result<
    [u8; 20],
    Refusal,
>)
    ensures
        match signer_of(method@, path@, nonce, body@, sig@) {
            Ok(a) => r matches Ok(x) && x@ == a,
            Err(m) => r matches Err(e) && e@ == m,
        },
{
    let address = match recover_address(method, path, nonce, body, sig) {
        Some(a) => a,
        None => return Err(refuse(text("signature recovery failed"))),
    };
    let org = match path_org(path) {
        Some(o) => o,
        None => return Err(refuse(text("no org segment in path"))),
    };
    let expected = concat2("0x", hex_encode(address.as_slice()).as_str());
    if same(org.as_str(), expected.as_str()) {
        Ok(address)
    } else {
        let mut m = concat3("signature recovers to ", expected.as_str(), ", not org ");
        m.append(org.as_str());
        Err(refuse(m))
    }
}

/// What became of a submitted nonce.
#[derive(Debug, Clone, Copy, PartialEq, Eq, Structural)]
pub enum NonceResult {
    Bumped,
    TooLow { stored: u64 },
}

/// Whether a nonce is accepted: only one above the last accepted nonce of its
/// address.
pub open spec fn nonce_accepted(stored: Option<u64>, submitted: u64) -> bool {
    match stored {
        Some(s) => submitted > s,
        None => true,
    }
}

/// Judges a nonce against the last accepted one; an accepted nonce becomes the last.
pub fn bump_nonce(stored: &mut Option<u64>, submitted: u64) -> (r: NonceResult)
    ensures
        if nonce_accepted(*old(stored), submitted) {
            r == NonceResult::Bumped && *final(stored) == Some(submitted)
        } else {
            r == (NonceResult::TooLow { stored: old(stored)->0 }) && *final(stored) == *old(stored)
        },
{
    match *stored {
        Some(s) => {
            if submitted > s {
                *stored = Some(submitted);
                NonceResult::Bumped
            } else {
                NonceResult::TooLow { stored: s }
            }
        },
        None => {
            *stored = Some(submitted);
            NonceResult::Bumped
        },
    }
}

/// What the store said of a nonce, as an answer to the request; `None` stands for a
/// store that failed.
pub open spec fn nonce_verdict(outcome: Option<NonceResult>, nonce: u64) -> Option<RefusalView> {
    match outcome {
        Some(NonceResult::Bumped) => None,
        Some(NonceResult::TooLow { stored }) => Some(
            unauthorized(
                "nonce too low: submitted "@ + decimal(nonce as nat) + ", stored "@ + decimal(stored as nat),
            ),
        ),
        None => Some(RefusalView { status: 500, msg: "nonce store error"@ }),
    }
}

/// Turns what the store said of a nonce into an answer.
pub fn check_nonce(outcome: Option<NonceResult>, nonce: u64) -> (r: Result<(), Refusal>)
    ensures
        match nonce_verdict(outcome, nonce) {
            None => r is Ok,
            Some(m) => r matches Err(e) && e@ == m,
        },
{
    match outcome {
        Some(NonceResult::Bumped) => Ok(()),
        Some(NonceResult::TooLow { stored }) => {
            let mut m = concat_num("nonce too low: submitted ", nonce as u128, ", stored ");
            push_decimal(&mut m, stored as u128);
            Err(refuse(m))
        },
        None => Err(Refusal { status: 500, msg: text("nonce store error") }),
    }
}

/// A request that a wallet signs for its own organisation is admitted as one of that
/// wallet, whatever the method, the rest of the path, the nonce and the body are.
pub proof fn own_requests_are_admitted(
    secret: Seq<u8>,
    method: Seq<char>,
    path: Seq<char>,
    nonce: u64,
    body: Seq<u8>,
    sig: Seq<u8>,
)
    requires
        org_in(path) == Some("0x"@ + hex_text(address_of(public_key_of(secret)))),
        recovered_address(method, path, nonce, body, sig) == Some(address_of(public_key_of(secret))),
    ensures
        signer_of(method, path, nonce, body, sig) == Ok::<Seq<u8>, RefusalView>(
            address_of(public_key_of(secret)),
        ),
{
}

/// The path of a request of an organisation.
pub open spec fn org_path_text(org: Seq<char>, kind: Seq<char>) -> Seq<char> {
    "/v1/orgs/"@ + org + "/"@ + kind
}

/// The path of a request of an organisation.
pub fn org_path(org: &str, kind: &str) -> (r: String)
    ensures
        r@ == org_path_text(org@, kind@),
{
    let mut r = concat3("/v1/orgs/", org, "/");
    r.append(kind);
    r
}

proof fn lemma_parts_grow(s: Seq<char>, from: int, mid: int, to: int)
    requires
        from <= mid <= to,
    ensures
        parts_between(s, from, mid).len() >= 1,
        parts_between(s, from, to).len() >= parts_between(s, from, mid).len(),
        forall|k: int|
            0 <= k < parts_between(s, from, mid).len() - 1 ==> #[trigger] parts_between(s, from, to)[k]
                == parts_between(s, from, mid)[k],
    decreases to - from,
{
    if mid < to {
        lemma_parts_grow(s, from, mid, to - 1);
    } else if from < to {
        lemma_parts_grow(s, from, to - 1, to - 1);
    }
}

proof fn lemma_part_fills(s: Seq<char>, from: int, mid: int, to: int)
    requires
        0 <= from <= mid <= to <= s.len(),
        parts_between(s, from, mid).len() >= 1,
        parts_between(s, from, mid).last() == Seq::<char>::empty(),
        forall|i: int| mid <= i < to ==> #[trigger] s[i] != '/',
    ensures
        parts_between(s, from, to) == parts_between(s, from, mid).update(
            parts_between(s, from, mid).len() - 1,
            s.subrange(mid, to),
        ),
    decreases to - mid,
{
    let p = parts_between(s, from, mid);
    if mid < to {
        lemma_part_fills(s, from, mid, to - 1);
        let q = parts_between(s, from, to - 1);
        assert(q.last() == s.subrange(mid, to - 1));
        assert(s.subrange(mid, to - 1).push(s[to - 1]) =~= s.subrange(mid, to));
        assert(q.update(q.len() - 1, s.subrange(mid, to)) =~= p.update(p.len() - 1, s.subrange(mid, to)));
    } else {
        assert(s.subrange(mid, to) =~= Seq::<char>::empty());
        assert(p.update(p.len() - 1, s.subrange(mid, to)) =~= p);
    }
}

/// The path of a request names the organisation that it was made for.
pub proof fn paths_name_their_org(org: Seq<char>, kind: Seq<char>)
    requires
        !org.contains('/'),
    ensures
        org_in(org_path_text(org, kind)) == Some(org),
{
    let s = org_path_text(org, kind);
    reveal_strlit("/v1/orgs/");
    reveal_strlit("/");
    reveal_strlit("v1");
    reveal_strlit("orgs");
    let n = 9 + org.len() as int;
    assert(s[0] == '/' && s[1] == 'v' && s[2] == '1' && s[3] == '/' && s[4] == 'o' && s[5] == 'r' && s[6] == 'g'
        && s[7] == 's' && s[8] == '/');
    assert(s.subrange(9, n) =~= org);
    assert(s[n] == '/');
    assert(slashes_from(s, 0) == 1) by {
        reveal_with_fuel(slashes_from, 3);
    }
    let empty = Seq::<char>::empty();
    assert(parts_between(s, 1, 1) =~= seq![empty]);
    lemma_part_fills(s, 1, 1, 3);
    assert(s.subrange(1, 3) =~= "v1"@);
    assert(parts_between(s, 1, 3) =~= seq!["v1"@]);
    assert(parts_between(s, 1, 4) =~= seq!["v1"@, empty]);
    lemma_part_fills(s, 1, 4, 8);
    assert(s.subrange(4, 8) =~= "orgs"@);
    assert(parts_between(s, 1, 8) =~= seq!["v1"@, "orgs"@]);
    assert(parts_between(s, 1, 9) =~= seq!["v1"@, "orgs"@, empty]);
    assert forall|i: int| 9 <= i < n implies #[trigger] s[i] != '/' by {
        assert(s[i] == org[i - 9]);
        assert(org.contains(org[i - 9]));
    }
    lemma_part_fills(s, 1, 9, n);
    assert(parts_between(s, 1, n) =~= seq!["v1"@, "orgs"@, org]);
    assert(parts_between(s, 1, n + 1) =~= seq!["v1"@, "orgs"@, org, empty]);
    lemma_parts_grow(s, 1, n + 1, s.len() as int);
    let p = parts_between(s, 1, s.len() as int);
    assert(p[0] == "v1"@ && p[1] == "orgs"@ && p[2] == org);
}

proof fn lemma_first_newline(a: Seq<u8>, x: Seq<u8>, b: Seq<u8>, y: Seq<u8>)
    requires
        !a.contains(10u8),
        !b.contains(10u8),
        a + seq![10u8] + x == b + seq![10u8] + y,
    ensures
        a == b,
        x == y,
{
    let s = a + seq![10u8] + x;
    let t = b + seq![10u8] + y;
    assert(s[a.len() as int] == 10u8);
    assert(t[b.len() as int] == 10u8);
    if a.len() < b.len() {
        assert(b[a.len() as int] == t[a.len() as int]);
        assert(b.contains(b[a.len() as int]));
    } else if b.len() < a.len() {
        assert(a[b.len() as int] == s[b.len() as int]);
        assert(a.contains(a[b.len() as int]));
    }
    assert(a =~= s.take(a.len() as int));
    assert(b =~= t.take(a.len() as int));
    assert(x =~= s.skip(a.len() as int + 1));
    assert(y =~= t.skip(a.len() as int + 1));
}

/// The signed bytes tell requests apart: where neither the method nor the path holds
/// a newline, which HTTP does not let them, they give back the method, the path, the
/// nonce and the body.
pub proof fn signed_bytes_tell_requests_apart(
    m1: Seq<char>,
    p1: Seq<char>,
    n1: u64,
    b1: Seq<u8>,
    m2: Seq<char>,
    p2: Seq<char>,
    n2: u64,
    b2: Seq<u8>,
)
    requires
        !encode_utf8(m1).contains(10u8),
        !encode_utf8(p1).contains(10u8),
        !encode_utf8(m2).contains(10u8),
        !encode_utf8(p2).contains(10u8),
        signed_bytes(m1, p1, n1, b1) == signed_bytes(m2, p2, n2, b2),
    ensures
        m1 == m2,
        p1 == p2,
        n1 == n2,
        b1 == b2,
{
    let d = encode_utf8("REND/v1\n"@);
    let tail1 = be_bytes(n1 as nat, 8) + seq![10u8] + b1;
    let tail2 = be_bytes(n2 as nat, 8) + seq![10u8] + b2;
    let rest1 = encode_utf8(p1) + seq![10u8] + tail1;
    let rest2 = encode_utf8(p2) + seq![10u8] + tail2;
    let s1 = signed_bytes(m1, p1, n1, b1);
    let s2 = signed_bytes(m2, p2, n2, b2);
    assert(s1 =~= d + (encode_utf8(m1) + seq![10u8] + rest1));
    assert(s2 =~= d + (encode_utf8(m2) + seq![10u8] + rest2));
    assert(s1.skip(d.len() as int) =~= encode_utf8(m1) + seq![10u8] + rest1);
    assert(s2.skip(d.len() as int) =~= encode_utf8(m2) + seq![10u8] + rest2);
    lemma_first_newline(encode_utf8(m1), rest1, encode_utf8(m2), rest2);
    lemma_first_newline(encode_utf8(p1), tail1, encode_utf8(p2), tail2);
    crate::bytes::lemma_pow256();
    crate::bytes::lemma_be_round_trip(n1 as nat, 8);
    crate::bytes::lemma_be_round_trip(n2 as nat, 8);
    assert(tail1.take(8) =~= be_bytes(n1 as nat, 8));
    assert(tail2.take(8) =~= be_bytes(n2 as nat, 8));
    assert(b1 =~= tail1.skip(9));
    assert(b2 =~= tail2.skip(9));
    vstd::utf8::encode_utf8_decode_utf8(m1);
    vstd::utf8::encode_utf8_decode_utf8(m2);
    vstd::utf8::encode_utf8_decode_utf8(p1);
    vstd::utf8::encode_utf8_decode_utf8(p2);
}

/// A nonce that was accepted is never accepted again, nor is any below it: not now,
/// and not after further nonces.
pub proof fn accepted_nonces_are_spent(stored: Option<u64>, first: u64, later: u64, again: u64)
    requires
        nonce_accepted(stored, first),
        nonce_accepted(Some(first), later),
        again <= first,
    ensures
        !nonce_accepted(Some(first), again),
        !nonce_accepted(Some(later), again),
{
}

/// The last accepted nonce of an address.
pub open spec fn last_nonce(stored: Map<Seq<u8>, u64>, address: Seq<u8>) -> Option<u64> {
    if stored.dom().contains(address) {
        Some(stored[address])
    } else {
        None
    }
}

/// What becomes of a nonce that is judged against the last one.
pub open spec fn nonce_outcome(last: Option<u64>, nonce: u64) -> NonceResult {
    if nonce_accepted(last, nonce) {
        NonceResult::Bumped
    } else {
        NonceResult::TooLow { stored: last->0 }
    }
}

/// How a request is met where the last accepted nonces are `stored`: its address and
/// its nonce, or why it is turned away. The headers are looked at first, then the
/// signer, then the nonce.
pub open spec fn admission(
    method: Seq<char>,
    path: Seq<char>,
    body: Seq<u8>,
    sig: HeaderText,
    nonce: HeaderText,
    stored: Map<Seq<u8>, u64>,
) -> Result<(Seq<u8>, u64), RefusalView> {
    match headers_give(sig, nonce) {
        Err(m) => Err(m),
        Ok((s, n)) => match signer_of(method, path, n as u64, body, s) {
            Err(m) => Err(m),
            Ok(a) => match nonce_verdict(Some(nonce_outcome(last_nonce(stored, a), n as u64)), n as u64) {
                Some(m) => Err(m),
                None => Ok((a, n as u64)),
            },
        },
    }
}

/// A request that is admitted carries a signature over its method, path, nonce and
/// body by the organisation that its path names, and a nonce above the last of that
/// organisation. Once the nonce is recorded, the request is turned away, also after
/// later nonces.
pub proof fn admitted_requests_are_signed_and_new(
    method: Seq<char>,
    path: Seq<char>,
    body: Seq<u8>,
    sig: HeaderText,
    nonce: HeaderText,
    stored: Map<Seq<u8>, u64>,
    later: u64,
)
    requires
        admission(method, path, body, sig, nonce, stored) is Ok,
        later >= admission(method, path, body, sig, nonce, stored)->Ok_0.1,
    ensures
        ({
            let (a, n) = admission(method, path, body, sig, nonce, stored)->Ok_0;
            &&& nonce_in(nonce) == Some(n as nat)
            &&& signature_in(sig) matches Ok(s) && recovered_address(method, path, n, body, s) == Some(a)
            &&& org_in(path) == Some("0x"@ + hex_text(a))
            &&& nonce_accepted(last_nonce(stored, a), n)
            &&& admission(method, path, body, sig, nonce, stored.insert(a, later)) matches Err(m) && m.status == 401
        }),
{
    let (a, n) = admission(method, path, body, sig, nonce, stored)->Ok_0;
    assert(last_nonce(stored.insert(a, later), a) == Some(later));
}

} // verus!

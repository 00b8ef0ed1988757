//! Hashes, signatures and the symmetric cipher.
//!
//! SHA-256, ECDSA over P-256 and AES-128-CBC are computed by OpenSSL. Each
//! call is a trusted item below; what a digest or a verification returns is
//! named by an uninterpreted function of the bytes handed in.

use vstd::prelude::*;
use vstd::utf8::encode_utf8;
use crate::config::FANOUT;
use crate::dc_repr::{RecordHeader, RecordHeaderView};

verus! {

/// A SHA-256 digest.
pub type Hash = [u8; 32];

/// The children of one interior node of a commit tree.
pub type HashNode = [Hash; FANOUT];

/// An AES-128 key.
pub type SymmetricKey = [u8; 16];

/// A DER-encoded ECDSA signature.
pub type Signature = Vec<u8>;

/// The all-zero hash, used as padding and as "no hash".
pub open spec fn spec_null_hash() -> Hash {
    vstd::array::spec_array_fill_for_copy_type::<u8, 32>(0u8)
}

/// The all-zero hash, used as padding and as "no hash".
#[verifier::when_used_as_spec(spec_null_hash)]
pub fn null_hash() -> (h: Hash)
    ensures
        h == spec_null_hash(),
{
    [0u8; 32]
}

/// The SHA-256 digest of a byte string.
pub uninterp spec fn sha256_digest(data: Seq<u8>) -> Hash;

/// Trusted: `openssl::sha::sha256` returns the SHA-256 digest of `data`, a
/// function of the bytes alone.
pub assume_specification[ openssl::sha::sha256 ](data: &[u8]) -> (digest: [u8; 32])
    ensures
        digest == sha256_digest(data@),
;

/// Compares two hashes byte by byte.
pub fn hash_eq(a: &Hash, b: &Hash) -> (same: bool)
    ensures
        same == (*a == *b),
{
    let mut i: usize = 0;
    while i < 32
        invariant
            i <= 32,
            forall|j: int| 0 <= j < i ==> a[j] == b[j],
        decreases 32 - i,
    {
        if a[i] != b[i] {
            return false;
        }
        i += 1;
    }
    assert(*a =~= *b);
    true
}

/// The digest that names a record body.
pub open spec fn spec_hash_data(data: Seq<u8>) -> Hash {
    sha256_digest(data)
}

/// Hashes an encrypted record body.
pub fn hash_data(encrypted_data: &[u8]) -> (h: Hash)
    ensures
        h == spec_hash_data(encrypted_data@),
{
    openssl::sha::sha256(encrypted_data)
}

/// The bytes of a run of hashes, one after the other.
pub open spec fn flatten_hashes(hashes: Seq<Hash>) -> Seq<u8>
    decreases hashes.len(),
{
    if hashes.len() == 0 {
        Seq::empty()
    } else {
        flatten_hashes(hashes.drop_last()) + hashes.last()@
    }
}

/// Appends the bytes of `hashes` to `buf`.
pub fn append_hashes(buf: &mut Vec<u8>, hashes: &[Hash])
    ensures
        final(buf)@ == old(buf)@ + flatten_hashes(hashes@),
{
    let mut i: usize = 0;
    while i < hashes.len()
        invariant
            i <= hashes.len(),
            buf@ == old(buf)@ + flatten_hashes(hashes@.take(i as int)),
        decreases hashes.len() - i,
    {
        proof {
            let next = hashes@.take(i as int + 1);
            assert(next.drop_last() =~= hashes@.take(i as int));
            assert(next.last() == hashes@[i as int]);
        }
        buf.extend_from_slice(hashes[i].as_slice());
        i += 1;
    }
    proof {
        assert(hashes@.take(hashes.len() as int) =~= hashes@);
    }
}

/// The name of an interior node with the given children.
pub open spec fn spec_hash_node(children: Seq<Hash>) -> Hash {
    sha256_digest(flatten_hashes(children))
}

/// Hashes the children of an interior node of a commit tree.
pub fn hash_node(node: &HashNode) -> (h: Hash)
    ensures
        h == spec_hash_node(node@),
{
    let mut buf: Vec<u8> = Vec::new();
    append_hashes(&mut buf, node.as_slice());
    openssl::sha::sha256(buf.as_slice())
}

/// The name of a DataCapsule: the digest of the creator's key, the writer's
/// key and the description, one after the other.
pub open spec fn spec_hash_dc_metadata(c_pk: Seq<u8>, w_pk: Seq<u8>, desc: Seq<char>) -> Hash {
    sha256_digest(c_pk + w_pk + encode_utf8(desc))
}

/// Names a DataCapsule.
pub fn hash_dc_metadata(c_pk: &[u8], w_pk: &[u8], desc: &str) -> (h: Hash)
    ensures
        h == spec_hash_dc_metadata(c_pk@, w_pk@, desc@),
{
    let mut buf: Vec<u8> = Vec::new();
    buf.extend_from_slice(c_pk);
    buf.extend_from_slice(w_pk);
    buf.extend_from_slice(desc.as_bytes());
    assert(buf@ =~= c_pk@ + w_pk@ + encode_utf8(desc@));
    openssl::sha::sha256(buf.as_slice())
}

/// The name of a record: the digest of the body pointer followed by the
/// pointers to its predecessors. The offsets take no part in it.
pub open spec fn spec_hash_record_header(header: RecordHeaderView) -> Hash {
    sha256_digest(header.body_ptr@ + flatten_hashes(header.ptrs()))
}

/// Names a record.
pub fn hash_record_header(record_header: &RecordHeader) -> (h: Hash)
    ensures
        h == spec_hash_record_header(record_header@),
{
    let mut buf: Vec<u8> = Vec::new();
    buf.extend_from_slice(record_header.body_ptr.as_slice());
    let ghost ptrs = record_header@.ptrs();
    let mut i: usize = 0;
    while i < record_header.record_backptrs.len()
        invariant
            i <= record_header.record_backptrs.len(),
            ptrs == record_header@.ptrs(),
            buf@ == record_header.body_ptr@ + flatten_hashes(ptrs.take(i as int)),
        decreases record_header.record_backptrs.len() - i,
    {
        proof {
            let next = ptrs.take(i as int + 1);
            assert(next.drop_last() =~= ptrs.take(i as int));
            assert(next.last() == record_header.record_backptrs@[i as int].ptr);
        }
        buf.extend_from_slice(record_header.record_backptrs[i].ptr.as_slice());
        assert(buf@ =~= record_header.body_ptr@ + flatten_hashes(ptrs.take(i as int + 1)));
        i += 1;
    }
    assert(ptrs.take(ptrs.len() as int) =~= ptrs);
    openssl::sha::sha256(buf.as_slice())
}

/// `openssl::error::ErrorStack`: what a failed OpenSSL call leaves behind.
/// It is carried through and never read.
#[verifier::external_type_specification]
#[verifier::external_body]
pub struct ExErrorStack(openssl::error::ErrorStack);

/// A serialized public key: a DER-encoded SubjectPublicKeyInfo.
#[derive(Debug)]
pub struct PublicKey {
    pub der: Vec<u8>,
}

impl View for PublicKey {
    type V = Seq<u8>;

    open spec fn view(&self) -> Seq<u8> {
        self.der@
    }
}

impl Clone for PublicKey {
    fn clone(&self) -> (copy: Self)
        ensures
            copy@ == self@,
    {
        PublicKey { der: self.der.clone() }
    }
}

/// A serialized private key: a DER-encoded ECPrivateKey.
#[derive(Debug)]
pub struct PrivateKey {
    pub der: Vec<u8>,
}

impl View for PrivateKey {
    type V = Seq<u8>;

    open spec fn view(&self) -> Seq<u8> {
        self.der@
    }
}

impl Clone for PrivateKey {
    fn clone(&self) -> (copy: Self)
        ensures
            copy@ == self@,
    {
        PrivateKey { der: self.der.clone() }
    }
}

/// The canonical serialization of a public key.
pub fn serialize_pubkey(key: &PublicKey) -> (bytes: Vec<u8>)
    ensures
        bytes@ == key@,
{
    key.der.clone()
}

/// Takes a serialized public key as it is; a key that does not parse
/// verifies no signature.
pub fn deserialize_pubkey(key: &[u8]) -> (parsed: PublicKey)
    ensures
        parsed@ == key@,
{
    let mut der: Vec<u8> = Vec::new();
    der.extend_from_slice(key);
    assert(der@ =~= key@);
    PublicKey { der }
}

/// Whether OpenSSL parses `public_key` as a DER-encoded EC public key and
/// `signature` as a DER-encoded ECDSA signature, and accepts the signature
/// for `digest` under that key.
pub uninterp spec fn ecdsa_accepts(signature: Seq<u8>, digest: Hash, public_key: Seq<u8>) -> bool;

/// Trusted: parses the key with `EcKey::public_key_from_der` and the
/// signature with `EcdsaSig::from_der`, then calls `EcdsaSig::verify`. The
/// answer is a function of the three byte strings; anything that does not
/// parse or makes OpenSSL fail counts as not accepted.
#[verifier::external_body]
fn ecdsa_verify(signature: &[u8], digest: &Hash, public_key: &[u8]) -> (accepted: bool)
    ensures
        accepted == ecdsa_accepts(signature@, *digest, public_key@),
{
    let key = match openssl::ec::EcKey::public_key_from_der(public_key) {
        Ok(key) => key,
        Err(_) => return false,
    };
    let sig = match openssl::ecdsa::EcdsaSig::from_der(signature) {
        Ok(sig) => sig,
        Err(_) => return false,
    };
    match sig.verify(digest, &key) {
        Ok(accepted) => accepted,
        Err(_) => false,
    }
}

/// Verifies `signature` over `hash` under `key`.
pub fn verify_signature(signature: &Signature, hash: &Hash, key: &PublicKey) -> (valid: bool)
    ensures
        valid == ecdsa_accepts(signature@, *hash, key@),
{
    ecdsa_verify(signature.as_slice(), hash, key.der.as_slice())
}

/// The serialized public key that belongs to a serialized private key:
/// what OpenSSL gives for the public part of the key that it parses from
/// `private_key`. `None` where it does not parse.
pub uninterp spec fn ec_public_key(private_key: Seq<u8>) -> Option<Seq<u8>>;

/// Trusted: parses the key with `EcKey::private_key_from_der` and
/// serializes its public part with `public_key_to_der`. Whether a key comes
/// back, and which, is a function of the bytes.
#[verifier::external_body]
fn ec_public_from_private(private_key: &[u8]) -> (public_key: Result<
    Vec<u8>,
    openssl::error::ErrorStack,
>)
    ensures
        public_key matches Ok(p) ==> ec_public_key(private_key@) == Some(p@),
        public_key is Err ==> ec_public_key(private_key@) is None,
{
    let key = openssl::ec::EcKey::private_key_from_der(private_key)?;
    key.public_key_to_der()
}

/// The public key that belongs to `key`; `None` where OpenSSL gives none
/// for it.
pub fn public_key_of(key: &PrivateKey) -> (public: Option<PublicKey>)
    ensures
        match public {
            Some(p) => ec_public_key(key@) == Some(p@),
            None => ec_public_key(key@) is None,
        },
{
    match ec_public_from_private(key.der.as_slice()) {
        Ok(der) => Some(PublicKey { der }),
        Err(_) => None,
    }
}

/// Whether `signature` is accepted for `digest` under the public key that
/// belongs to `private_key`, where there is one.
pub open spec fn signed_by(signature: Seq<u8>, digest: Hash, private_key: Seq<u8>) -> bool {
    match ec_public_key(private_key) {
        Some(public_key) => ecdsa_accepts(signature, digest, public_key),
        None => true,
    }
}

/// Trusted: parses the key with `EcKey::private_key_from_der`, signs the
/// digest with `EcdsaSig::sign` and serializes the signature with `to_der`.
/// ECDSA draws a fresh nonce for every signature, and the parser does not
/// check that the parts of a key belong together: nothing is stated of the
/// bytes that come back.
#[verifier::external_body]
fn ecdsa_sign(digest: &Hash, private_key: &[u8]) -> (signature: Result<
    Vec<u8>,
    openssl::error::ErrorStack,
>) {
    let key = openssl::ec::EcKey::private_key_from_der(private_key)?;
    let sig = openssl::ecdsa::EcdsaSig::sign(digest, &key)?;
    sig.to_der()
}

/// What `sign` makes of the signature that OpenSSL gave for `hash` and of
/// the public key that belongs to the signing key: the signature, where
/// there is a public key and the signature is accepted under it.
pub fn checked_signature(signature: Signature, hash: &Hash, public_key: Option<PublicKey>) -> (out:
    Option<Signature>)
    ensures
        match public_key {
            Some(p) if ecdsa_accepts(signature@, *hash, p@) => out == Some(signature),
            _ => out is None,
        },
{
    match public_key {
        Some(p) => {
            if verify_signature(&signature, hash, &p) {
                Some(signature)
            } else {
                None
            }
        },
        None => None,
    }
}

/// Signs `hash` with `key`, and checks the signature under the public key
/// that belongs to `key`. `None` where OpenSSL fails, the key has no public
/// key, or the signature is not accepted under it.
pub fn sign(hash: &Hash, key: &PrivateKey) -> (signature: Option<Signature>)
    ensures
        signature matches Some(s) ==> signed_by(s@, *hash, key@) && ec_public_key(key@) is Some,
        ec_public_key(key@) is None ==> signature is None,
{
    match ecdsa_sign(hash, key.der.as_slice()) {
        Ok(signature) => checked_signature(signature, hash, public_key_of(key)),
        Err(_) => None,
    }
}

/// What AES-128-CBC decryption with padding gives for `ciphertext` under
/// `key` and `iv`, or `None` where it fails.
pub uninterp spec fn aes128_cbc_plain(key: Seq<u8>, iv: Seq<u8>, ciphertext: Seq<u8>) -> Option<
    Seq<u8>,
>;

/// Trusted: `openssl::rand::rand_bytes` fills sixteen bytes from the random
/// generator. Nothing is stated of them.
#[verifier::external_body]
fn random_iv() -> (iv: Result<[u8; 16], openssl::error::ErrorStack>) {
    let mut iv = [0u8; 16];
    openssl::rand::rand_bytes(&mut iv)?;
    Ok(iv)
}

/// Trusted: `openssl::symm::encrypt` with AES-128-CBC encrypts `data`; what
/// it returns decrypts to `data` again under the same key and IV.
#[verifier::external_body]
fn aes128_cbc_encrypt(key: &SymmetricKey, iv: &[u8; 16], data: &[u8]) -> (ciphertext: Result<
    Vec<u8>,
    openssl::error::ErrorStack,
>)
    requires
        data@.len() <= 0x7fff_0000,
    ensures
        ciphertext matches Ok(c) ==> aes128_cbc_plain(key@, iv@, c@) == Some(data@),
{
    openssl::symm::encrypt(openssl::symm::Cipher::aes_128_cbc(), key, Some(iv), data)
}

/// Trusted: `openssl::symm::decrypt` with AES-128-CBC decrypts `data`, or
/// fails; which of the two, and the plaintext, is a function of the bytes.
#[verifier::external_body]
fn aes128_cbc_decrypt(key: &SymmetricKey, iv: &[u8], data: &[u8]) -> (plaintext: Result<
    Vec<u8>,
    openssl::error::ErrorStack,
>)
    requires
        iv@.len() == 16,
        data@.len() <= 0x7fff_0000,
    ensures
        match plaintext {
            Ok(p) => aes128_cbc_plain(key@, iv@, data@) == Some(p@),
            Err(_) => aes128_cbc_plain(key@, iv@, data@) is None,
        },
{
    openssl::symm::decrypt(openssl::symm::Cipher::aes_128_cbc(), key, Some(iv), data)
}

/// The longest plaintext or ciphertext that the cipher takes in one call.
pub const MAX_CIPHER_INPUT: usize = 0x7fff_0000;

/// The plaintext of an encrypted body: the first sixteen bytes are the IV,
/// the rest is the ciphertext. `None` where the body is too short or too
/// long, or does not decrypt.
pub open spec fn spec_decrypt(data: Seq<u8>, key: SymmetricKey) -> Option<Seq<u8>> {
    if data.len() < 16 || data.len() - 16 > MAX_CIPHER_INPUT {
        None
    } else {
        aes128_cbc_plain(key@, data.take(16), data.skip(16))
    }
}

/// Puts the IV before the ciphertext.
pub fn seal(iv: &[u8; 16], ciphertext: Vec<u8>) -> (sealed: Vec<u8>)
    ensures
        sealed@ == iv@ + ciphertext@,
        sealed@.take(16) == iv@,
        sealed@.skip(16) == ciphertext@,
{
    let mut ciphertext = ciphertext;
    let ghost c = ciphertext@;
    let mut sealed: Vec<u8> = Vec::new();
    sealed.extend_from_slice(iv.as_slice());
    sealed.append(&mut ciphertext);
    proof {
        assert(sealed@ =~= iv@ + c);
        assert(sealed@.take(16) =~= iv@);
        assert(sealed@.skip(16) =~= c);
    }
    sealed
}

/// Puts the IV before the ciphertext; `None` where the ciphertext is too
/// long to be decrypted in one call.
pub fn sealed(iv: &[u8; 16], ciphertext: Vec<u8>) -> (out: Option<Vec<u8>>)
    ensures
        ciphertext@.len() > MAX_CIPHER_INPUT ==> out is None,
        ciphertext@.len() <= MAX_CIPHER_INPUT ==> (out matches Some(s) && s@ == iv@ + ciphertext@),
{
    if ciphertext.len() > MAX_CIPHER_INPUT {
        None
    } else {
        Some(seal(iv, ciphertext))
    }
}

/// Encrypts `data` under a fresh random IV. Returns the IV followed by the
/// ciphertext, or `None` where `data` or the ciphertext is too long or
/// OpenSSL fails.
pub fn encrypt(data: &[u8], key: &SymmetricKey) -> (encrypted: Option<Vec<u8>>)
    ensures
        encrypted matches Some(e) ==> spec_decrypt(e@, *key) == Some(data@),
        data@.len() > MAX_CIPHER_INPUT ==> encrypted is None,
{
    if data.len() > MAX_CIPHER_INPUT {
        return None;
    }
    let iv = match random_iv() {
        Ok(iv) => iv,
        Err(_) => return None,
    };
    let ciphertext = match aes128_cbc_encrypt(key, &iv, data) {
        Ok(c) => c,
        Err(_) => return None,
    };
    let ghost c = ciphertext@;
    let out = sealed(&iv, ciphertext);
    proof {
        if out is Some {
            assert(out->Some_0@.take(16) =~= iv@);
            assert(out->Some_0@.skip(16) =~= c);
        }
    }
    out
}

/// Decrypts what `encrypt` returned.
pub fn decrypt(data: &[u8], key: &SymmetricKey) -> (plaintext: Option<Vec<u8>>)
    ensures
        match plaintext {
            Some(p) => spec_decrypt(data@, *key) == Some(p@),
            None => spec_decrypt(data@, *key) is None,
        },
{
    if data.len() < 16 || data.len() - 16 > MAX_CIPHER_INPUT {
        return None;
    }
    let iv = vstd::slice::slice_subrange(data, 0, 16);
    let ciphertext = vstd::slice::slice_subrange(data, 16, data.len());
    assert(iv@ =~= data@.take(16));
    assert(ciphertext@ =~= data@.skip(16));
    match aes128_cbc_decrypt(key, iv, ciphertext) {
        Ok(p) => Some(p),
        Err(_) => None,
    }
}

} // verus!

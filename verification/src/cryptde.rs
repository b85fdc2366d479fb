//! The cryptographic capability used by the routing core: asymmetric
//! encryption keyed by a public key, and decryption keyed to this node's own
//! key pair.
//!
//! The concrete cipher suite is out of scope for the routing core; this module
//! supplies the deterministic scheme the rest of the crate is verified
//! against.  A ciphertext carries the length and bytes of its target key in
//! front of the plaintext, so that decryption succeeds exactly when the
//! decrypting node's key equals the target key.

use vstd::prelude::*;

verus! {

/// An opaque byte identifier for a node's key pair, exchanged between nodes
/// and embedded in routes.
#[derive(Debug, PartialEq, Eq)]
pub struct PublicKey {
    bytes: Vec<u8>,
}

/// An owned byte buffer holding a decrypted payload or segment.
#[derive(Debug, PartialEq, Eq)]
pub struct PlainData {
    data: Vec<u8>,
}

/// An owned byte buffer holding ciphertext.
#[derive(Debug, PartialEq, Eq)]
pub struct CryptData {
    data: Vec<u8>,
}

#[derive(Clone, Copy, Debug, PartialEq, Eq, Structural)]
pub enum CryptdeError {
    EncryptionError,
    DecryptionError,
}

impl View for PublicKey {
    type V = Seq<u8>;

    closed spec fn view(&self) -> Seq<u8> {
        self.bytes@
    }
}

impl View for PlainData {
    type V = Seq<u8>;

    closed spec fn view(&self) -> Seq<u8> {
        self.data@
    }
}

impl View for CryptData {
    type V = Seq<u8>;

    closed spec fn view(&self) -> Seq<u8> {
        self.data@
    }
}

/// Copies a byte buffer.  Used where a value must be retained and handed on.
pub fn clone_bytes(v: &Vec<u8>) -> (r: Vec<u8>)
    ensures
        r@ == v@,
{
    let mut out: Vec<u8> = Vec::new();
    let mut i: usize = 0;
    while i < v.len()
        invariant
            i <= v.len(),
            out@ == v@.subrange(0, i as int),
        decreases v.len() - i,
    {
        out.push(v[i]);
        i = i + 1;
        proof {
            assert(out@ =~= v@.subrange(0, i as int));
        }
    }
    proof {
        assert(out@ =~= v@);
    }
    out
}

/// Appends all bytes of `src` to `dst`.
pub fn append_bytes(dst: &mut Vec<u8>, src: &Vec<u8>)
    ensures
        final(dst)@ == old(dst)@ + src@,
{
    let mut i: usize = 0;
    while i < src.len()
        invariant
            i <= src.len(),
            dst@ == old(dst)@ + src@.subrange(0, i as int),
        decreases src.len() - i,
    {
        dst.push(src[i]);
        i = i + 1;
        proof {
            assert(dst@ =~= old(dst)@ + src@.subrange(0, i as int));
        }
    }
    proof {
        assert(dst@ =~= old(dst)@ + src@);
    }
}

impl PublicKey {
    pub fn new(bytes: Vec<u8>) -> (r: Self)
        ensures
            r@ == bytes@,
    {
        PublicKey { bytes }
    }

    pub fn len(&self) -> (r: usize)
        ensures
            r == self@.len(),
    {
        self.bytes.len()
    }

    pub fn as_bytes(&self) -> (r: &Vec<u8>)
        ensures
            r@ == self@,
    {
        &self.bytes
    }
}

impl Clone for PublicKey {
    fn clone(&self) -> (r: Self)
        ensures
            r@ == self@,
    {
        PublicKey { bytes: clone_bytes(&self.bytes) }
    }
}

impl PlainData {
    pub fn new(data: Vec<u8>) -> (r: Self)
        ensures
            r@ == data@,
    {
        PlainData { data }
    }

    pub fn len(&self) -> (r: usize)
        ensures
            r == self@.len(),
    {
        self.data.len()
    }

    pub fn as_bytes(&self) -> (r: &Vec<u8>)
        ensures
            r@ == self@,
    {
        &self.data
    }

    pub fn into_bytes(self) -> (r: Vec<u8>)
        ensures
            r@ == self@,
    {
        self.data
    }
}

impl CryptData {
    pub fn new(data: Vec<u8>) -> (r: Self)
        ensures
            r@ == data@,
    {
        CryptData { data }
    }

    pub fn len(&self) -> (r: usize)
        ensures
            r == self@.len(),
    {
        self.data.len()
    }

    pub fn as_bytes(&self) -> (r: &Vec<u8>)
        ensures
            r@ == self@,
    {
        &self.data
    }

    pub fn into_bytes(self) -> (r: Vec<u8>)
        ensures
            r@ == self@,
    {
        self.data
    }
}

impl Clone for CryptData {
    fn clone(&self) -> (r: Self)
        ensures
            r@ == self@,
    {
        CryptData { data: clone_bytes(&self.data) }
    }
}

/// A key the scheme can encrypt for: non-empty, and short enough for its
/// length to ride in the leading byte of a ciphertext.
pub open spec fn key_ok(key: Seq<u8>) -> bool {
    1 <= key.len() <= 255
}

/// The ciphertext produced by encrypting `plain` for `key`.
pub open spec fn enc(key: Seq<u8>, plain: Seq<u8>) -> Seq<u8> {
    seq![key.len() as u8] + key + plain
}

/// Whether a node whose key is `key` can decrypt `c`: the ciphertext must
/// name exactly that key as its target.
pub open spec fn dec_ok(key: Seq<u8>, c: Seq<u8>) -> bool {
    &&& c.len() >= key.len() + 1
    &&& c[0] == key.len() as u8
    &&& c.subrange(1, key.len() + 1 as int) == key
}

/// The plaintext recovered from `c` by a node whose key is `key`.
pub open spec fn dec(key: Seq<u8>, c: Seq<u8>) -> Seq<u8>
    recommends
        dec_ok(key, c),
{
    c.subrange(key.len() + 1 as int, c.len() as int)
}

/// Decrypting with the key a ciphertext was made for recovers the plaintext.
pub proof fn lemma_enc_dec(key: Seq<u8>, plain: Seq<u8>)
    requires
        key_ok(key),
    ensures
        dec_ok(key, enc(key, plain)),
        dec(key, enc(key, plain)) == plain,
{
    let c = enc(key, plain);
    assert(c.subrange(1, key.len() + 1 as int) =~= key);
    assert(c.subrange(key.len() + 1 as int, c.len() as int) =~= plain);
}

/// A ciphertext made for one key never decrypts under a different key.
pub proof fn lemma_enc_wrong_key(target: Seq<u8>, other: Seq<u8>, plain: Seq<u8>)
    requires
        key_ok(target),
        key_ok(other),
        target != other,
    ensures
        !dec_ok(other, enc(target, plain)),
{
    let c = enc(target, plain);
    if target.len() == other.len() {
        if dec_ok(other, c) {
            assert(c.subrange(1, other.len() + 1 as int) =~= target);
        }
    } else {
        assert(c[0] == target.len() as u8);
        assert(target.len() as u8 != other.len() as u8);
    }
}

/// The node-local half of the crypto capability: holds this node's key and
/// offers encryption toward any public key and decryption of ciphertexts
/// addressed to this node.
pub struct CryptDe {
    key: Vec<u8>,
}

impl View for CryptDe {
    type V = Seq<u8>;

    /// The bytes identifying this node's key pair.
    closed spec fn view(&self) -> Seq<u8> {
        self.key@
    }
}

impl CryptDe {
    /// Accepts exactly the keys the scheme can encrypt for.
    pub fn new(key: Vec<u8>) -> (r: Option<CryptDe>)
        ensures
            key_ok(key@) <==> r is Some,
            r matches Some(cd) ==> cd@ == key@,
    {
        if key.len() == 0 || key.len() > 255 {
            None
        } else {
            Some(CryptDe { key })
        }
    }

    pub fn public_key(&self) -> (r: PublicKey)
        ensures
            r@ == self@,
    {
        PublicKey { bytes: clone_bytes(&self.key) }
    }

    /// Duplicates the capability for a collaborator of the same node.
    pub fn dup(&self) -> (r: CryptDe)
        ensures
            r@ == self@,
    {
        CryptDe { key: clone_bytes(&self.key) }
    }

    /// Encrypts `data` so that only the holder of `key` can read it.
    /// Fails, with an encryption error, exactly on keys the scheme cannot
    /// encrypt for.
    pub fn encode(&self, key: &PublicKey, data: &PlainData) -> (r: Result<
        CryptData,
        CryptdeError,
    >)
        ensures
            key_ok(key@) ==> (r matches Ok(c) && c@ == enc(key@, data@)),
            !key_ok(key@) ==> r == Err::<CryptData, CryptdeError>(CryptdeError::EncryptionError),
    {
        let klen = key.bytes.len();
        if klen == 0 || klen > 255 {
            return Err(CryptdeError::EncryptionError);
        }
        let mut out: Vec<u8> = Vec::new();
        out.push(klen as u8);
        append_bytes(&mut out, &key.bytes);
        append_bytes(&mut out, &data.data);
        proof {
            assert(out@ =~= enc(key@, data@));
        }
        Ok(CryptData { data: out })
    }

    /// Decrypts a ciphertext addressed to this node.  Fails, with a
    /// decryption error, exactly when the ciphertext does not name this
    /// node's key — a layer meant for another node, or corrupted bytes.
    pub fn decode(&self, data: &CryptData) -> (r: Result<PlainData, CryptdeError>)
        ensures
            dec_ok(self@, data@) ==> (r matches Ok(p) && p@ == dec(self@, data@)),
            !dec_ok(self@, data@) ==> r == Err::<PlainData, CryptdeError>(
                CryptdeError::DecryptionError,
            ),
    {
        let klen = self.key.len();
        let c = &data.data;
        if c.len() == 0 || c.len() - 1 < klen {
            return Err(CryptdeError::DecryptionError);
        }
        if c[0] != (klen as u8) {
            return Err(CryptdeError::DecryptionError);
        }
        let mut i: usize = 0;
        while i < klen
            invariant
                i <= klen,
                klen == self@.len(),
                c@.len() >= klen + 1,
                c@ == data@,
                forall|j: int| 0 <= j < i ==> c@[j + 1] == self@[j],
            decreases klen - i,
        {
            if c[i + 1] != self.key[i] {
                proof {
                    assert(data@.subrange(1, self@.len() + 1 as int)[i as int] == data@[
                        i + 1 as int
                    ]);
                }
                return Err(CryptdeError::DecryptionError);
            }
            i = i + 1;
        }
        proof {
            assert(data@.subrange(1, self@.len() + 1 as int) =~= self@);
        }
        let mut out: Vec<u8> = Vec::new();
        let mut j: usize = klen + 1;
        while j < c.len()
            invariant
                klen + 1 <= j <= c.len(),
                klen == self@.len(),
                c@ == data@,
                out@ == c@.subrange(klen + 1 as int, j as int),
            decreases c.len() - j,
        {
            out.push(c[j]);
            j = j + 1;
            proof {
                assert(out@ =~= c@.subrange(klen + 1 as int, j as int));
            }
        }
        proof {
            assert(out@ =~= dec(self@, data@));
        }
        Ok(PlainData { data: out })
    }
}


/// The byte sequences of a sequence of keys.
pub open spec fn key_views(s: Seq<PublicKey>) -> Seq<Seq<u8>> {
    Seq::new(s.len(), |i: int| s[i]@)
}

/// The byte sequences of a sequence of ciphertexts.
pub open spec fn crypt_data_views(s: Seq<CryptData>) -> Seq<Seq<u8>> {
    Seq::new(s.len(), |i: int| s[i]@)
}

} // verus!

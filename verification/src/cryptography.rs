//! The authenticated-encryption interface the records are produced and
//! consumed through, and a small keystream scheme that demonstrates it.

use vstd::prelude::*;

verus! {

/// Why an encryption operation failed.
#[derive(Clone, Copy, Debug, PartialEq, Eq, Structural)]
pub enum CryptoError {
    /// The authentication check failed: the ciphertext was tampered with,
    /// truncated, or sealed under another key. Never returns a wrong value.
    DecryptionFailure,
}

/// An authenticated-encryption scheme over plaintexts of type `Self`, with
/// key type `T`, error type `E`, ciphertext type `R` and nonce type `N`.
pub trait Encryption<T, E, R, N>: Sized {
    /// The byte content of a plaintext value; what the scheme seals and what
    /// decryption must recover exactly.
    spec fn plain(v: Self) -> Seq<u8>;

    /// Whether ciphertext `enc` authenticates under `key` and opens to
    /// exactly the plaintext `v`.
    spec fn sealed(enc: R, key: T, v: Self) -> bool;

    /// The inputs a scheme accepts: on these, encryption yields a ciphertext
    /// rather than an error.
    spec fn can_seal(v: Self, key: T, iv: Option<N>) -> bool;

    /// One ciphertext opens to at most one plaintext content under one key;
    /// with the contracts below this is the round-trip law: decrypt inverts
    /// encrypt, byte for byte.
    proof fn sealed_unique(enc: R, key: T, v1: Self, v2: Self)
        requires
            Self::sealed(enc, key, v1),
            Self::sealed(enc, key, v2),
        ensures
            Self::plain(v1) == Self::plain(v2),
    ;

    /// A ciphertext authenticates under at most one key: decrypting it under
    /// any other key must fail, never open to a corrupted value.
    proof fn sealed_key_binding(enc: R, k1: T, k2: T, v1: Self, v2: Self)
        requires
            Self::sealed(enc, k1, v1),
            Self::sealed(enc, k2, v2),
        ensures
            k1 == k2,
    ;

    /// Produce an authenticated ciphertext; with no nonce supplied the
    /// implementation derives one internally and embeds it in the output.
    /// On every input the scheme accepts, encryption must succeed.
    fn encrypt_with_nonce(self, key: T, iv: Option<N>) -> (r: Result<R, E>)
        ensures
            r matches Ok(c) ==> Self::sealed(c, key, self),
            Self::can_seal(self, key, iv) ==> r is Ok,
    ;

    /// Open a ciphertext: returns the sealed plaintext, and fails exactly
    /// when the authentication check fails — never a corrupted value.
    fn decrypt(enc: R, key: T) -> (r: Result<Self, E>)
        ensures
            r matches Ok(v) ==> Self::sealed(enc, key, v),
            (r is Ok) == exists|v: Self| Self::sealed(enc, key, v),
    ;

    /// Encrypt with an internally derived nonce.
    fn encrypt(self, key: T) -> (r: Result<R, E>)
        ensures
            r matches Ok(c) ==> Self::sealed(c, key, self),
            Self::can_seal(self, key, Option::<N>::None) ==> r is Ok,
    {
        self.encrypt_with_nonce(key, None)
    }
}

/// Round trip: if `encrypt(v, k)` produced `c` (so `c` seals `v`), then any
/// successful `decrypt(c, k)` — whose contract says its result is sealed by
/// `c` too — recovers `v`'s content byte for byte.
pub proof fn lemma_round_trip<V: Encryption<T, E, R, N>, T, E, R, N>(enc: R, key: T, written: V, opened: V)
    requires
        V::sealed(enc, key, written),
        V::sealed(enc, key, opened),
    ensures
        V::plain(written) == V::plain(opened),
{
    V::sealed_unique(enc, key, written, opened);
}

/// Wrong key: a ciphertext sealed under one key authenticates under no other
/// key, so `decrypt` — whose contract returns `Ok` exactly when some value is
/// sealed — must fail on it rather than return corrupted plaintext.
pub proof fn lemma_wrong_key_rejected<V: Encryption<T, E, R, N>, T, E, R, N>(enc: R, key: T, other: T, v: V)
    requires
        V::sealed(enc, key, v),
        key != other,
    ensures
        !(exists|w: V| V::sealed(enc, other, w)),
{
    if exists|w: V| V::sealed(enc, other, w) {
        let w = choose|w: V| V::sealed(enc, other, w);
        V::sealed_key_binding(enc, key, other, v, w);
    }
}

/// A plaintext payload for the demonstration scheme below.
#[verifier::ext_equal]
#[derive(Debug, Clone, PartialEq)]
pub struct Plaintext {
    pub bytes: Vec<u8>,
}

/// One keystream byte: the key byte for this position, mixed with the nonce.
pub open spec fn stream_byte(key: [u8; 32], nonce: u8, i: int) -> u8 {
    key@[i % 32] ^ nonce
}

/// The xor fold of a byte sequence, the scheme's checksum.
pub open spec fn fold_byte(s: Seq<u8>) -> u8
    decreases s.len(),
{
    if s.len() == 0 {
        0u8
    } else {
        fold_byte(s.drop_last()) ^ s.last()
    }
}

/// The tag the scheme appends: one byte per key byte, each the checksum of
/// everything before the tag mixed with that key byte. A wrong key mismatches
/// in every position where it differs, so the tag binds the whole key.
pub open spec fn key_tag(checksum: u8, key: [u8; 32]) -> Seq<u8> {
    Seq::new(32, |j: int| checksum ^ key@[j])
}

/// Whether the trailing 32 tag bytes match the fold of everything before
/// them, mixed with the key.
pub open spec fn tag_ok(c: Seq<u8>, key: [u8; 32]) -> bool {
    c.subrange(c.len() - 32, c.len() as int)
        == key_tag(fold_byte(c.subrange(0, c.len() - 32)), key)
}

/// The plaintext a well-formed ciphertext opens to: the bytes between the
/// leading nonce and the trailing tag, with the keystream removed.
pub open spec fn opened_bytes(c: Seq<u8>, key: [u8; 32]) -> Seq<u8> {
    Seq::new((c.len() - 33) as nat, |i: int| c[i + 1] ^ stream_byte(key, c[0], i))
}

/// The xor fold of the first `n` bytes of a buffer.
fn fold_upto(v: &Vec<u8>, n: usize) -> (r: u8)
    requires
        n <= v@.len(),
    ensures
        r == fold_byte(v@.subrange(0, n as int)),
{
    let mut acc: u8 = 0;
    let mut i: usize = 0;
    while i < n
        invariant
            i <= n,
            n <= v@.len(),
            acc == fold_byte(v@.subrange(0, i as int)),
        decreases n - i,
    {
        proof {
            assert(v@.subrange(0, (i + 1) as int).drop_last() =~= v@.subrange(0, i as int));
            assert(v@.subrange(0, (i + 1) as int).last() == v@[i as int]);
        }
        acc = acc ^ v[i];
        i = i + 1;
    }
    acc
}

/// Changing one byte of a sequence by a fixed xor changes its fold by the
/// same xor.
pub proof fn lemma_fold_update(s: Seq<u8>, p: int, d: u8)
    requires
        0 <= p < s.len(),
    ensures
        fold_byte(s.update(p, (s[p] ^ d))) == fold_byte(s) ^ d,
    decreases s.len(),
{
    let s2 = s.update(p, (s[p] ^ d));
    if p == s.len() - 1 {
        assert(s2.drop_last() =~= s.drop_last());
        assert(s2.last() == (s.last() ^ d));
        assert(forall|a: u8, x: u8, dd: u8| (a ^ (x ^ dd)) == ((a ^ x) ^ dd)) by (bit_vector);
    } else {
        assert(s2.drop_last() =~= s.drop_last().update(p, (s[p] ^ d)));
        assert(s2.last() == s.last());
        assert(s.drop_last()[p] == s[p]);
        lemma_fold_update(s.drop_last(), p, d);
        assert(forall|a: u8, x: u8, dd: u8| ((a ^ dd) ^ x) == ((a ^ x) ^ dd)) by (bit_vector);
    }
}

/// A keystream cipher with a key-bound xor-fold tag. It satisfies the
/// interface's functional contract — decrypt inverts encrypt, refuses a bad
/// tag and refuses every wrong key — but a linear checksum offers no real
/// cryptographic strength; production schemes live outside this crate and
/// are used through the same trait.
impl Encryption<[u8; 32], CryptoError, Vec<u8>, u8> for Plaintext {
    open spec fn plain(v: Self) -> Seq<u8> {
        v.bytes@
    }

    open spec fn sealed(enc: Vec<u8>, key: [u8; 32], v: Self) -> bool {
        enc@.len() >= 33 && tag_ok(enc@, key) && v.bytes@ == opened_bytes(enc@, key)
    }

    open spec fn can_seal(v: Self, key: [u8; 32], iv: Option<u8>) -> bool {
        true
    }

    proof fn sealed_unique(enc: Vec<u8>, key: [u8; 32], v1: Self, v2: Self) {
        assert(Self::sealed(enc, key, v1));
        assert(Self::sealed(enc, key, v2));
        assert(v1.bytes@ == opened_bytes(enc@, key));
        assert(v2.bytes@ == opened_bytes(enc@, key));
    }

    proof fn sealed_key_binding(enc: Vec<u8>, k1: [u8; 32], k2: [u8; 32], v1: Self, v2: Self) {
        let n = enc@.len();
        let f = fold_byte(enc@.subrange(0, n - 32));
        assert forall|j: int| 0 <= j < 32 implies k1@[j] == k2@[j] by {
            assert(enc@.subrange(n - 32, n as int)[j] == key_tag(f, k1)[j]);
            assert(enc@.subrange(n - 32, n as int)[j] == key_tag(f, k2)[j]);
            let x = k1@[j];
            let y = k2@[j];
            assert((f ^ x) == (f ^ y) ==> x == y) by (bit_vector);
        }
        assert(k1@ =~= k2@);
        assert(k1 =~= k2);
    }

    fn encrypt_with_nonce(self, key: [u8; 32], iv: Option<u8>) -> (r: Result<Vec<u8>, CryptoError>) {
        let nonce = match iv {
            Option::Some(n) => n,
            Option::None => 0u8,
        };
        let mut c: Vec<u8> = Vec::new();
        c.push(nonce);
        let mut i: usize = 0;
        while i < self.bytes.len()
            invariant
                i <= self.bytes@.len(),
                c@.len() == i + 1,
                c@[0] == nonce,
                forall|t: int| 0 <= t < i ==> c@[t + 1] == (self.bytes@[t] ^ stream_byte(key, nonce, t)),
            decreases self.bytes@.len() - i,
        {
            let ks = key[i % 32] ^ nonce;
            c.push(self.bytes[i] ^ ks);
            i = i + 1;
        }
        let f = fold_upto(&c, c.len());
        let ghost pre = c@;
        proof {
            assert(c@.subrange(0, c@.len() as int) =~= c@);
            assert(f == fold_byte(pre));
        }
        let mut j: usize = 0;
        while j < 32
            invariant
                j <= 32,
                c@.len() == pre.len() + j,
                pre.len() >= 1,
                f == fold_byte(pre),
                forall|t: int| 0 <= t < pre.len() ==> #[trigger] c@[t] == pre[t],
                forall|t: int| 0 <= t < j ==> #[trigger] c@[pre.len() + t] == (f ^ key@[t]),
            decreases 32 - j,
        {
            c.push(f ^ key[j]);
            j = j + 1;
        }
        proof {
            assert(c@.len() == pre.len() + 32);
            assert(c@.subrange(0, c@.len() - 32) =~= pre);
            assert forall|t: int| 0 <= t < 32
                implies c@.subrange(c@.len() - 32, c@.len() as int)[t] == key_tag(f, key)[t] by {
                assert(c@.subrange(c@.len() - 32, c@.len() as int)[t] == c@[pre.len() + t]);
                assert(c@[pre.len() + t] == (f ^ key@[t]));
            }
            assert(c@.subrange(c@.len() - 32, c@.len() as int) =~= key_tag(f, key));
            assert(tag_ok(c@, key));
            assert(opened_bytes(c@, key).len() == self.bytes@.len());
            assert forall|t: int| 0 <= t < self.bytes@.len()
                implies opened_bytes(c@, key)[t] == self.bytes@[t] by {
                let x = self.bytes@[t];
                let b = stream_byte(key, nonce, t);
                assert(c@[t + 1] == pre[t + 1]);
                assert(c@[t + 1] == (x ^ b));
                assert(((x ^ b) ^ b) == x) by (bit_vector);
            }
            assert(self.bytes@ =~= opened_bytes(c@, key));
            assert(Self::sealed(c, key, self));
        }
        Ok(c)
    }

    fn decrypt(enc: Vec<u8>, key: [u8; 32]) -> (r: Result<Self, CryptoError>) {
        if enc.len() < 33 {
            proof {
                assert(forall|v: Plaintext| !Self::sealed(enc, key, v));
            }
            return Err(CryptoError::DecryptionFailure);
        }
        let prefix_len = enc.len() - 32;
        let f = fold_upto(&enc, prefix_len);
        let mut j: usize = 0;
        while j < 32
            invariant
                j <= 32,
                enc@.len() >= 33,
                enc@.len() <= usize::MAX,
                prefix_len == enc@.len() - 32,
                f == fold_byte(enc@.subrange(0, prefix_len as int)),
                forall|t: int| 0 <= t < j ==> #[trigger] enc@[prefix_len + t] == (f ^ key@[t]),
            decreases 32 - j,
        {
            if enc[prefix_len + j] != f ^ key[j] {
                proof {
                    assert(!tag_ok(enc@, key)) by {
                        if tag_ok(enc@, key) {
                            assert(enc@.subrange(enc@.len() - 32, enc@.len() as int)[j as int]
                                == key_tag(f, key)[j as int]);
                            assert(enc@[prefix_len + j] == (f ^ key@[j as int]));
                        }
                    }
                    assert(forall|v: Plaintext| !Self::sealed(enc, key, v));
                }
                return Err(CryptoError::DecryptionFailure);
            }
            j = j + 1;
        }
        proof {
            assert forall|t: int| 0 <= t < 32
                implies enc@.subrange(enc@.len() - 32, enc@.len() as int)[t] == key_tag(f, key)[t] by {
                assert(enc@.subrange(enc@.len() - 32, enc@.len() as int)[t] == enc@[prefix_len + t]);
                assert(enc@[prefix_len + t] == (f ^ key@[t]));
            }
            assert(enc@.subrange(enc@.len() - 32, enc@.len() as int) =~= key_tag(f, key));
            assert(tag_ok(enc@, key));
        }
        let nonce = enc[0];
        let mut out: Vec<u8> = Vec::new();
        let mut i: usize = 0;
        let body_len = enc.len() - 33;
        while i < body_len
            invariant
                i <= body_len,
                body_len == enc@.len() - 33,
                nonce == enc@[0],
                out@.len() == i,
                forall|t: int| 0 <= t < i ==> out@[t] == (enc@[t + 1] ^ stream_byte(key, nonce, t)),
            decreases body_len - i,
        {
            let ks = key[i % 32] ^ nonce;
            out.push(enc[i + 1] ^ ks);
            i = i + 1;
        }
        let v = Plaintext { bytes: out };
        proof {
            assert(opened_bytes(enc@, key).len() == v.bytes@.len());
            assert(v.bytes@ =~= opened_bytes(enc@, key));
            assert(Self::sealed(enc, key, v));
        }
        Ok(v)
    }
}

/// Tamper evidence for the scheme above: flipping any single bit of a sealed
/// ciphertext leaves nothing sealed under the same key, so by `decrypt`'s
/// contract the tampered ciphertext is refused rather than opened.
pub proof fn lemma_bit_flip_unsealed(c1: Vec<u8>, c2: Vec<u8>, key: [u8; 32], v: Plaintext, p: int, b: u8)
    requires
        Plaintext::sealed(c1, key, v),
        0 <= p < c1@.len(),
        b < 8,
        c2@ == c1@.update(p, (c1@[p] ^ (1u8 << b))),
    ensures
        forall|w: Plaintext| !Plaintext::sealed(c2, key, w),
{
    let d = (1u8 << b);
    assert(b < 8 ==> (1u8 << b) != 0) by (bit_vector);
    assert(forall|a: u8, dd: u8| dd != 0 ==> (a ^ dd) != a) by (bit_vector);
    let n = c1@.len();
    assert(c2@.len() == n);
    let f1 = fold_byte(c1@.subrange(0, n - 32));
    let f2 = fold_byte(c2@.subrange(0, n - 32));
    if p < n - 32 {
        assert(c2@.subrange(0, n - 32) =~= c1@.subrange(0, n - 32).update(p, (c1@[p] ^ d)));
        assert(c1@.subrange(0, n - 32)[p] == c1@[p]);
        lemma_fold_update(c1@.subrange(0, n - 32), p, d);
        assert(f2 == (f1 ^ d));
        assert(f2 != f1);
        assert(c2@[n - 32] == c1@[n - 32]);
        assert(c1@.subrange(n - 32, n as int)[0] == key_tag(f1, key)[0]);
        assert(c1@[n - 32] == (f1 ^ key@[0]));
        assert forall|w: Plaintext| !Plaintext::sealed(c2, key, w) by {
            if Plaintext::sealed(c2, key, w) {
                assert(c2@.subrange(n - 32, n as int)[0] == key_tag(f2, key)[0]);
                assert(c2@[n - 32] == (f2 ^ key@[0]));
                let kk = key@[0];
                assert((f1 ^ kk) == (f2 ^ kk) ==> f1 == f2) by (bit_vector);
            }
        }
    } else {
        assert(c2@.subrange(0, n - 32) =~= c1@.subrange(0, n - 32));
        assert(f2 == f1);
        let j0 = p - (n - 32);
        assert(0 <= j0 < 32);
        assert(c1@.subrange(n - 32, n as int)[j0] == key_tag(f1, key)[j0]);
        assert(c1@[p] == (f1 ^ key@[j0]));
        assert(c2@[p] == (c1@[p] ^ d));
        assert(c2@[p] != c1@[p]);
        assert forall|w: Plaintext| !Plaintext::sealed(c2, key, w) by {
            if Plaintext::sealed(c2, key, w) {
                assert(c2@.subrange(n - 32, n as int)[j0] == key_tag(f2, key)[j0]);
                assert(c2@[p] == (f2 ^ key@[j0]));
            }
        }
    }
}

} // verus!

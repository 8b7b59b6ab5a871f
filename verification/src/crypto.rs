//! AES-256-GCM protection of webhook secrets.
//!
//! An encrypted value is the text `wcenc:` followed by the standard base64
//! of `nonce ‖ ciphertext ‖ tag`, with a fresh 96-bit nonce per value.
use vstd::prelude::*;
use crate::text::{chars_of, decimal, decimal_int, decimal_u64, has_prefix, owned, push_all, push_str, starts_with, string_of};
use crate::webhook::join;
use vstd::utf8::{decode_utf8, encode_utf8, valid_utf8};
use aes_gcm::aead::Aead;
use aes_gcm::KeyInit;
use base64::Engine;
use rand::RngCore;

verus! {

/// Nonce length in bytes.
pub const NONCE_LEN: usize = 12;

/// Key length in bytes.
pub const KEY_LEN: usize = 32;

/// GCM tag length in bytes.
pub const TAG_LEN: usize = 16;

/// Longest plaintext that AES-GCM accepts, in bytes.
pub const P_MAX: u64 = 68719476736;

/// Marker that starts every encrypted value.
pub open spec fn prefix() -> Seq<char> {
    "wcenc:"@
}

// ---------------------------------------------------------------------
// Names of outside results
// ---------------------------------------------------------------------

/// AES-256-GCM ciphertext with appended tag, as the `aes-gcm` crate computes it.
pub uninterp spec fn aes256gcm_seal(key: Seq<u8>, nonce: Seq<u8>, plaintext: Seq<u8>) -> Seq<u8>;

/// AES-256-GCM authenticated decryption, as the `aes-gcm` crate computes it.
pub uninterp spec fn aes256gcm_open(key: Seq<u8>, nonce: Seq<u8>, ciphertext: Seq<u8>) -> Option<
    Seq<u8>,
>;

/// A symbol of the standard base64 alphabet.
pub open spec fn b64_symbol(v: int) -> char {
    if v < 26 {
        (65 + v) as char
    } else if v < 52 {
        (97 + v - 26) as char
    } else if v < 62 {
        (48 + v - 52) as char
    } else if v == 62 {
        '+'
    } else {
        '/'
    }
}

/// Standard base64 text of some bytes, padded with `=`: each group of three
/// bytes becomes four symbols of six bits each, most significant first.
pub open spec fn base64_standard_encode(bytes: Seq<u8>) -> Seq<char>
    decreases bytes.len(),
{
    if bytes.len() == 0 {
        Seq::empty()
    } else if bytes.len() == 1 {
        let a = bytes[0] as int;
        seq![b64_symbol(a / 4), b64_symbol((a % 4) * 16), '=', '=']
    } else if bytes.len() == 2 {
        let a = bytes[0] as int;
        let b = bytes[1] as int;
        seq![b64_symbol(a / 4), b64_symbol((a % 4) * 16 + b / 16), b64_symbol((b % 16) * 4), '=']
    } else {
        let a = bytes[0] as int;
        let b = bytes[1] as int;
        let c = bytes[2] as int;
        seq![b64_symbol(a / 4), b64_symbol((a % 4) * 16 + b / 16), b64_symbol((b % 16) * 4 + c / 64), b64_symbol(c % 64)]
            + base64_standard_encode(bytes.subrange(3, bytes.len() as int))
    }
}

/// Standard base64 decoding by the `base64` crate: the bytes, or the
/// error's display text.
pub uninterp spec fn base64_standard_decode(text: Seq<char>) -> Result<Seq<u8>, Seq<char>>;

/// Display text of the error `String::from_utf8` reports for bytes that are
/// no valid UTF-8.
pub uninterp spec fn utf8_error_text(bytes: Seq<u8>) -> Seq<char>;

// ---------------------------------------------------------------------
// Trusted items
// ---------------------------------------------------------------------

/// `Aes256Gcm::new_from_slice(key)` then `Aead::encrypt(nonce, plaintext)`.
/// The crate refuses only plaintexts longer than `P_MAX`; otherwise the
/// result is named by `aes256gcm_seal` and is 16 bytes (the tag) longer
/// than the plaintext.
#[verifier::external_body]
fn aes_seal(key: &[u8], nonce: &[u8], plaintext: &[u8]) -> (r: Option<Vec<u8>>)
    requires
        key@.len() == KEY_LEN,
        nonce@.len() == NONCE_LEN,
    ensures
        plaintext@.len() > P_MAX ==> r is None,
        plaintext@.len() <= P_MAX ==> r is Some,
        r matches Some(c) ==> c@ == aes256gcm_seal(key@, nonce@, plaintext@) && c@.len()
            == plaintext@.len() + TAG_LEN,
{
    let cipher = aes_gcm::Aes256Gcm::new_from_slice(key).ok()?;
    cipher.encrypt(aes_gcm::Nonce::from_slice(nonce), plaintext).ok()
}

/// `Aes256Gcm::new_from_slice(key)` then `Aead::decrypt(nonce, ciphertext)`.
/// The result is named by `aes256gcm_open`; authenticated decryption gives
/// back exactly the plaintext that was sealed under the same key and nonce.
#[verifier::external_body]
fn aes_open(key: &[u8], nonce: &[u8], ciphertext: &[u8]) -> (r: Option<Vec<u8>>)
    requires
        key@.len() == KEY_LEN,
        nonce@.len() == NONCE_LEN,
    ensures
        r matches Some(p) ==> aes256gcm_open(key@, nonce@, ciphertext@) == Some(p@),
        r is None ==> aes256gcm_open(key@, nonce@, ciphertext@) is None,
        forall|p: Seq<u8>|
            p.len() <= P_MAX && ciphertext@ == #[trigger] aes256gcm_seal(key@, nonce@, p) ==> r
                is Some && r->Some_0@ == p,
{
    let cipher = aes_gcm::Aes256Gcm::new_from_slice(key).ok()?;
    cipher.decrypt(aes_gcm::Nonce::from_slice(nonce), ciphertext).ok()
}

/// `base64::engine::general_purpose::STANDARD.encode(bytes)`: the padded
/// standard base64 text that `base64_standard_encode` states.
#[verifier::external_body]
fn b64_encode(bytes: &[u8]) -> (r: String)
    ensures
        r@ == base64_standard_encode(bytes@),
{
    base64::engine::general_purpose::STANDARD.encode(bytes)
}

/// `base64::engine::general_purpose::STANDARD.decode(text)`, with the error
/// turned into its display text. Decoding the crate's own encoding of some
/// bytes gives those bytes back.
#[verifier::external_body]
fn b64_decode(text: &str) -> (r: Result<Vec<u8>, String>)
    ensures
        r is Ok ==> base64_standard_decode(text@) is Ok && base64_standard_decode(text@)->Ok_0
            == r->Ok_0@,
        r is Err ==> base64_standard_decode(text@) is Err && base64_standard_decode(text@)->Err_0
            == r->Err_0@,
        forall|bytes: Seq<u8>|
            text@ == #[trigger] base64_standard_encode(bytes) ==> r is Ok && r->Ok_0@ == bytes,
{
    base64::engine::general_purpose::STANDARD.decode(text).map_err(|e| e.to_string())
}

/// `String::from_utf8`, with the error turned into its display text: it
/// succeeds exactly on valid UTF-8 and then holds the decoded characters.
#[verifier::external_body]
pub(crate) fn utf8_string(bytes: Vec<u8>) -> (r: Result<String, String>)
    ensures
        r matches Ok(s) ==> valid_utf8(bytes@) && s@ == decode_utf8(bytes@),
        r matches Err(e) ==> !valid_utf8(bytes@) && e@ == utf8_error_text(bytes@),
{
    String::from_utf8(bytes).map_err(|e| e.to_string())
}

/// `OsRng.try_fill_bytes` on a 12-byte buffer: fresh random bytes, or the
/// operating system's error text. Nothing is known of the bytes but their
/// number.
#[verifier::external_body]
fn random_nonce() -> (r: Result<Vec<u8>, String>)
    ensures
        r matches Ok(n) ==> n@.len() == NONCE_LEN,
{
    let mut n = [0u8; 12];
    rand::rngs::OsRng.try_fill_bytes(&mut n).map_err(|e| e.to_string())?;
    Ok(n.to_vec())
}

// ---------------------------------------------------------------------
// Specification
// ---------------------------------------------------------------------

/// The encrypted form of `plaintext` under `key` with nonce `nonce`.
pub open spec fn sealed_text(key: Seq<u8>, nonce: Seq<u8>, plaintext: Seq<char>) -> Seq<char> {
    prefix() + base64_standard_encode(nonce + aes256gcm_seal(key, nonce, encode_utf8(plaintext)))
}

/// `nonce` and `plaintext` are what an encryption under `key` can have used:
/// a 12-byte nonce, a plaintext that AES-GCM accepts, and a ciphertext of
/// the plaintext's length plus the tag.
pub open spec fn well_sealed(key: Seq<u8>, nonce: Seq<u8>, plaintext: Seq<char>) -> bool {
    &&& nonce.len() == NONCE_LEN
    &&& encode_utf8(plaintext).len() <= P_MAX
    &&& aes256gcm_seal(key, nonce, encode_utf8(plaintext)).len() == encode_utf8(plaintext).len()
        + TAG_LEN
}

/// What decrypting `encoded` under `key` gives.
pub open spec fn opened_text(key: Seq<u8>, encoded: Seq<char>) -> Result<Seq<char>, Seq<char>> {
    if !starts_with(encoded, prefix()) {
        Err("Data is not encrypted (missing wcenc: prefix)"@)
    } else {
        match base64_standard_decode(encoded.subrange(6, encoded.len() as int)) {
            Err(e) => Err("Invalid base64: "@ + e),
            Ok(combined) => if combined.len() < NONCE_LEN + TAG_LEN {
                Err("Ciphertext too short"@)
            } else {
                match aes256gcm_open(
                    key,
                    combined.subrange(0, NONCE_LEN as int),
                    combined.subrange(NONCE_LEN as int, combined.len() as int),
                ) {
                    None => Err("Decryption failed (wrong key or corrupted data): aead::Error"@),
                    Some(p) => if valid_utf8(p) {
                        Ok(decode_utf8(p))
                    } else {
                        Err("Decrypted data is not valid UTF-8: "@ + utf8_error_text(p))
                    },
                }
            },
        }
    }
}

/// Whether a string carries the encryption marker.
pub open spec fn is_encrypted_spec(s: Seq<char>) -> bool {
    starts_with(s, prefix())
}

// ---------------------------------------------------------------------
// Implementation
// ---------------------------------------------------------------------

/// Encryption manager for AES-256-GCM operations on webhook secrets.
pub struct CryptoManager {
    key: Vec<u8>,
}

impl CryptoManager {
    /// The key is always 32 bytes.
    #[verifier::type_invariant]
    spec fn key_ok(self) -> bool {
        self.key@.len() == KEY_LEN
    }

    /// The key bytes.
    pub closed spec fn key_view(self) -> Seq<u8> {
        self.key@
    }

    /// A manager for the given key; the key must be 32 bytes.
    pub fn from_key(key: &[u8]) -> (r: Result<Self, String>)
        ensures
            key@.len() == KEY_LEN <==> r is Ok,
            r matches Ok(m) ==> m.key_view() == key@,
            r matches Err(e) ==> e@ == "Encryption key has wrong length ("@ + decimal(
                key@.len(),
            ) + " bytes, expected 32)"@,
    {
        if key.len() != KEY_LEN {
            let mut e = owned("Encryption key has wrong length (");
            let n = decimal_u64(key.len() as u64);
            push_str(&mut e, n.as_str());
            push_str(&mut e, " bytes, expected 32)");
            return Err(e);
        }
        let mut k: Vec<u8> = Vec::new();
        let mut i: usize = 0;
        while i < key.len()
            invariant
                i <= key.len(),
                k@ == key@.subrange(0, i as int),
            decreases key.len() - i,
        {
            k.push(key[i]);
            i = i + 1;
            assert(k@ =~= key@.subrange(0, i as int));
        }
        assert(key@.subrange(0, key.len() as int) =~= key@);
        Ok(CryptoManager { key: k })
    }

    /// Encrypt plaintext with a fresh random nonce; the result is the
    /// marker followed by base64 of nonce, ciphertext and tag.
    pub fn encrypt(&self, plaintext: &str) -> (r: Result<String, String>)
        ensures
            r matches Ok(s) ==> exists|n: Seq<u8>|
                well_sealed(self.key_view(), n, plaintext@) && s@ == #[trigger] sealed_text(
                    self.key_view(),
                    n,
                    plaintext@,
                ),
            r matches Ok(s) ==> is_encrypted_spec(s@),
            r matches Err(e) ==> starts_with(e@, "Encryption failed: "@),
            encode_utf8(plaintext@).len() > P_MAX ==> r is Err,
    {
        let nonce = match random_nonce() {
            Ok(n) => n,
            Err(e) => {
                let mut m = owned("Encryption failed: ");
                push_str(&mut m, e.as_str());
                assert(("Encryption failed: "@ + e@).subrange(0, "Encryption failed: "@.len() as int) =~= "Encryption failed: "@);
                return Err(m);
            },
        };
        let r = self.encrypt_with_nonce(nonce.as_slice(), plaintext);
        proof {
            reveal_strlit("Encryption failed: aead::Error");
            reveal_strlit("Encryption failed: ");
            assert("Encryption failed: aead::Error"@.subrange(0, "Encryption failed: "@.len() as int) =~= "Encryption failed: "@);
        }
        r
    }

    /// Encrypt plaintext with the given 12-byte nonce: the marker followed
    /// by base64 of nonce, ciphertext and tag. Fails exactly when AES-GCM
    /// refuses the plaintext as too long.
    pub fn encrypt_with_nonce(&self, nonce: &[u8], plaintext: &str) -> (r: Result<String, String>)
        requires
            nonce@.len() == NONCE_LEN,
        ensures
            encode_utf8(plaintext@).len() <= P_MAX <==> r is Ok,
            r matches Ok(s) ==> s@ == sealed_text(self.key_view(), nonce@, plaintext@) && well_sealed(
                self.key_view(),
                nonce@,
                plaintext@,
            ) && is_encrypted_spec(s@),
            r matches Err(e) ==> e@ == "Encryption failed: aead::Error"@,
    {
        proof {
            use_type_invariant(self);
        }
        let pt = plaintext.as_bytes();
        let ct = match aes_seal(self.key.as_slice(), nonce, pt) {
            Some(c) => c,
            None => {
                let mut m = owned("Encryption failed: ");
                push_str(&mut m, "aead::Error");
                proof {
                    reveal_strlit("Encryption failed: aead::Error");
                    reveal_strlit("Encryption failed: ");
                    reveal_strlit("aead::Error");
                    assert(m@ =~= "Encryption failed: aead::Error"@);
                }
                return Err(m);
            },
        };
        let mut combined: Vec<u8> = Vec::new();
        let mut i: usize = 0;
        while i < nonce.len()
            invariant
                i <= nonce@.len(),
                combined@ == nonce@.subrange(0, i as int),
            decreases nonce.len() - i,
        {
            combined.push(nonce[i]);
            i = i + 1;
            assert(combined@ =~= nonce@.subrange(0, i as int));
        }
        let mut j: usize = 0;
        while j < ct.len()
            invariant
                i == nonce@.len(),
                j <= ct.len(),
                combined@ == nonce@ + ct@.subrange(0, j as int),
            decreases ct.len() - j,
        {
            combined.push(ct[j]);
            j = j + 1;
            assert(combined@ =~= nonce@ + ct@.subrange(0, j as int));
        }
        assert(ct@.subrange(0, ct.len() as int) =~= ct@);
        assert(nonce@.subrange(0, nonce@.len() as int) =~= nonce@);
        let b = b64_encode(&combined);
        let mut s = owned("wcenc:");
        push_str(&mut s, b.as_str());
        assert(s@ == sealed_text(self.key_view(), nonce@, plaintext@));
        assert(well_sealed(self.key_view(), nonce@, plaintext@));
        assert((prefix() + b@).subrange(0, prefix().len() as int) =~= prefix());
        Ok(s)
    }

    /// Decrypt a value made by `encrypt`. Decrypting the encryption of a
    /// plaintext under the same key gives that plaintext back.
    pub fn decrypt(&self, encoded: &str) -> (r: Result<String, String>)
        ensures
            match r {
                Ok(s) => opened_text(self.key_view(), encoded@) == Ok::<Seq<char>, Seq<char>>(s@),
                Err(e) => opened_text(self.key_view(), encoded@) == Err::<Seq<char>, Seq<char>>(e@),
            },
            forall|n: Seq<u8>, p: Seq<char>|
                well_sealed(self.key_view(), n, p) && encoded@
                    == #[trigger] sealed_text(self.key_view(), n, p) ==> (r matches Ok(s) && s@
                    == p),
    {
        proof {
            use_type_invariant(self);
        }
        let ghost key = self.key@;
        proof {
            reveal_strlit("wcenc:");
        }
        let e = chars_of(encoded);
        let pre = chars_of("wcenc:");
        if !has_prefix(&e, &pre) {
            proof {
                assert forall|n: Seq<u8>, p: Seq<char>|
                    well_sealed(key, n, p) && encoded@
                        == #[trigger] sealed_text(key, n, p) implies false by {
                    let b = base64_standard_encode(n + aes256gcm_seal(key, n, encode_utf8(p)));
                    assert((prefix() + b).subrange(0, 6) =~= prefix());
                }
            }
            return Err(owned("Data is not encrypted (missing wcenc: prefix)"));
        }
        let mut rest: Vec<char> = Vec::new();
        let mut i: usize = 6;
        while i < e.len()
            invariant
                6 <= i <= e.len(),
                rest@ == e@.subrange(6, i as int),
            decreases e.len() - i,
        {
            rest.push(e[i]);
            i = i + 1;
            assert(rest@ =~= e@.subrange(6, i as int));
        }
        let rest_s = string_of(&rest);
        let ghost body = encoded@.subrange(6, encoded@.len() as int);
        assert(rest_s@ == body);
        proof {
            assert forall|n: Seq<u8>, p: Seq<char>|
                well_sealed(key, n, p) && encoded@
                    == #[trigger] sealed_text(key, n, p) implies body
                    == base64_standard_encode(n + aes256gcm_seal(key, n, encode_utf8(p))) by {
                let b = base64_standard_encode(n + aes256gcm_seal(key, n, encode_utf8(p)));
                assert((prefix() + b).subrange(6, (prefix() + b).len() as int) =~= b);
            }
        }
        let combined = match b64_decode(rest_s.as_str()) {
            Ok(c) => c,
            Err(msg) => {
                let mut m = owned("Invalid base64: ");
                push_str(&mut m, msg.as_str());
                return Err(m);
            },
        };
        if combined.len() < NONCE_LEN + TAG_LEN {
            proof {
                assert forall|n: Seq<u8>, p: Seq<char>|
                    well_sealed(key, n, p) && encoded@
                        == #[trigger] sealed_text(key, n, p) implies false by {
                    assert(combined@ == n + aes256gcm_seal(key, n, encode_utf8(p)));
                }
            }
            return Err(owned("Ciphertext too short"));
        }
        let mut nonce: Vec<u8> = Vec::new();
        let mut ct: Vec<u8> = Vec::new();
        let mut k: usize = 0;
        while k < combined.len()
            invariant
                combined.len() >= NONCE_LEN + TAG_LEN,
                k <= combined.len(),
                k <= NONCE_LEN ==> nonce@ == combined@.subrange(0, k as int) && ct@.len() == 0,
                k > NONCE_LEN ==> nonce@ == combined@.subrange(0, NONCE_LEN as int) && ct@
                    == combined@.subrange(NONCE_LEN as int, k as int),
            decreases combined.len() - k,
        {
            if k < NONCE_LEN {
                nonce.push(combined[k]);
            } else {
                ct.push(combined[k]);
            }
            k = k + 1;
            assert(nonce@ =~= combined@.subrange(0, if k <= NONCE_LEN { k as int } else { NONCE_LEN as int }));
            assert(k > NONCE_LEN ==> ct@ =~= combined@.subrange(NONCE_LEN as int, k as int));
        }
        proof {
            assert forall|n: Seq<u8>, p: Seq<char>|
                well_sealed(key, n, p) && encoded@
                    == #[trigger] sealed_text(key, n, p) implies nonce@ == n && ct@
                    == aes256gcm_seal(key, n, encode_utf8(p)) by {
                let c = aes256gcm_seal(key, n, encode_utf8(p));
                assert(combined@ == n + c);
                assert((n + c).subrange(0, 12) =~= n);
                assert((n + c).subrange(12, (n + c).len() as int) =~= c);
            }
        }
        let plain = match aes_open(self.key.as_slice(), nonce.as_slice(), ct.as_slice()) {
            Some(p) => p,
            None => {
                return Err(owned("Decryption failed (wrong key or corrupted data): aead::Error"));
            },
        };
        let ghost pb = plain@;
        proof {
            assert forall|n: Seq<u8>, p: Seq<char>|
                well_sealed(key, n, p) && encoded@
                    == #[trigger] sealed_text(key, n, p) implies pb == encode_utf8(p) by {}
        }
        match utf8_string(plain) {
            Ok(s) => {
                proof {
                    assert forall|n: Seq<u8>, p: Seq<char>|
                        well_sealed(key, n, p) && encoded@
                            == #[trigger] sealed_text(key, n, p) implies s@ == p by {
                        vstd::utf8::encode_utf8_decode_utf8(p);
                    }
                }
                Ok(s)
            },
            Err(msg) => {
                proof {
                    assert forall|n: Seq<u8>, p: Seq<char>|
                        well_sealed(key, n, p) && encoded@
                            == #[trigger] sealed_text(key, n, p) implies false by {
                        vstd::utf8::encode_utf8_valid_utf8(p);
                    }
                }
                let mut m = owned("Decrypted data is not valid UTF-8: ");
                push_str(&mut m, msg.as_str());
                Err(m)
            },
        }
    }

    /// Whether a stored value carries the encryption marker.
    pub fn is_encrypted(encoded: &str) -> (r: bool)
        ensures
            r == is_encrypted_spec(encoded@),
    {
        has_prefix(&chars_of(encoded), &chars_of("wcenc:"))
    }
}

/// The stored secrets that are still plain text, in order.
pub open spec fn plaintext_rows(rows: Seq<(i64, String)>) -> Seq<(i64, String)> {
    rows.filter(|r: (i64, String)| !is_encrypted_spec(r.1@))
}

/// What an encryption of `plaintext` under `key` can come back with: a
/// sealed text with some well-formed nonce, or an `Encryption failed: `
/// error.
pub open spec fn encrypt_outcome_ok(key: Seq<u8>, plaintext: Seq<char>, o: Result<String, String>) -> bool {
    match o {
        Ok(s) => is_encrypted_spec(s@) && exists|n: Seq<u8>|
            well_sealed(key, n, plaintext) && s@ == #[trigger] sealed_text(key, n, plaintext),
        Err(e) => starts_with(e@, "Encryption failed: "@),
    }
}

/// The failure notes of a migration: `webhook <id>: <error>` for every
/// row whose encryption failed, in order.
pub open spec fn migration_failures(rows: Seq<(i64, String)>, outcomes: Seq<Result<String, String>>) -> Seq<Seq<char>>
    decreases rows.len(),
{
    if rows.len() == 0 || outcomes.len() == 0 {
        Seq::empty()
    } else {
        let rest = migration_failures(rows.drop_last(), outcomes.drop_last());
        match outcomes.last() {
            Ok(_) => rest,
            Err(e) => rest.push("webhook "@ + decimal_int(rows.last().0 as int) + ": "@ + e@),
        }
    }
}

/// The result of a migration from the outcomes of encrypting its plain-text
/// rows, one outcome per row in order: the new values when every
/// encryption succeeded; otherwise an error that gives the number of
/// failures and each failure.
pub open spec fn migration_spec(rows: Seq<(i64, String)>, outcomes: Seq<Result<String, String>>) -> Result<
    Seq<(i64, Seq<char>)>,
    Seq<char>,
> {
    let f = migration_failures(rows, outcomes);
    if f.len() > 0 {
        Err("Migration failed for "@ + decimal(f.len()) + " secrets: "@ + join(f, "; "@))
    } else {
        Ok(Seq::new(rows.len(), |k: int| (rows[k].0, outcomes[k]->Ok_0@)))
    }
}

/// A migration result as values.
pub open spec fn migration_view(r: Result<Vec<(i64, String)>, String>) -> Result<Seq<(i64, Seq<char>)>, Seq<char>> {
    match r {
        Ok(u) => Ok(u@.map_values(|x: (i64, String)| (x.0, x.1@))),
        Err(e) => Err(e@),
    }
}

/// Turns the outcomes of encrypting the plain-text rows (one per row, in
/// order) into the values to store, or the error that reports every
/// failure.
pub fn migration_result(rows: &Vec<(i64, String)>, outcomes: Vec<Result<String, String>>) -> (r: Result<Vec<(i64, String)>, String>)
    requires
        outcomes@.len() == rows@.len(),
    ensures
        migration_view(r) == migration_spec(rows@, outcomes@),
{
    let ghost outs = outcomes@;
    let mut outcomes = outcomes;
    let mut notes: Vec<String> = Vec::new();
    let mut updates: Vec<(i64, String)> = Vec::new();
    let mut i: usize = 0;
    while outcomes.len() > 0
        invariant
            i <= rows@.len(),
            outs.len() == rows@.len(),
            outcomes@ == outs.subrange(i as int, outs.len() as int),
            notes@.map_values(|x: String| x@) == migration_failures(rows@.take(i as int), outs.take(i as int)),
            notes@.len() == 0 ==> updates@.map_values(|x: (i64, String)| (x.0, x.1@)) =~= Seq::new(
                i as nat,
                |k: int| (rows@[k].0, outs[k]->Ok_0@),
            ),
        decreases outcomes.len(),
    {
        assert(i < rows.len());
        let o = outcomes.remove(0);
        proof {
            assert(o == outs[i as int]);
            assert(rows@.take(i + 1).drop_last() =~= rows@.take(i as int));
            assert(outs.take(i + 1).drop_last() =~= outs.take(i as int));
            assert(outs.take(i + 1).last() == outs[i as int]);
            assert(rows@.take(i + 1).last() == rows@[i as int]);
        }
        let id = rows[i].0;
        let ghost nb = notes@;
        let ghost ub = updates@;
        match o {
            Ok(enc) => {
                updates.push((id, enc));
                proof {
                    if notes@.len() == 0 {
                        assert(updates@.map_values(|x: (i64, String)| (x.0, x.1@)) =~= Seq::new(
                            (i + 1) as nat,
                            |k: int| (rows@[k].0, outs[k]->Ok_0@),
                        )) by {
                            assert forall|k: int| 0 <= k < i + 1 implies updates@.map_values(|x: (i64, String)| (x.0, x.1@))[k]
                                == (rows@[k].0, outs[k]->Ok_0@) by {
                                if k < i {
                                    assert(updates@[k] == ub[k]);
                                    assert(ub.map_values(|x: (i64, String)| (x.0, x.1@))[k] == (rows@[k].0, outs[k]->Ok_0@));
                                }
                            }
                        }
                    }
                }
            },
            Err(e) => {
                let mut m = owned("webhook ");
                let d = crate::text::decimal_i64(id);
                push_str(&mut m, d.as_str());
                push_str(&mut m, ": ");
                push_str(&mut m, e.as_str());
                notes.push(m);
                proof {
                    assert(notes@.map_values(|x: String| x@) =~= nb.map_values(|x: String| x@).push(
                        "webhook "@ + decimal_int(rows@[i as int].0 as int) + ": "@ + e@,
                    ));
                }
            },
        }
        i = i + 1;
        proof {
            assert(outcomes@ =~= outs.subrange(i as int, outs.len() as int));
        }
    }
    proof {
        assert(rows@.take(i as int) =~= rows@);
        assert(outs.take(i as int) =~= outs);
    }
    if notes.len() > 0 {
        let mut e = owned("Migration failed for ");
        let n = decimal_u64(notes.len() as u64);
        push_str(&mut e, n.as_str());
        push_str(&mut e, " secrets: ");
        let j = crate::webhook::join_exec(notes.as_slice(), "; ");
        push_str(&mut e, j.as_str());
        return Err(e);
    }
    Ok(updates)
}

impl CryptoManager {
    /// Encrypts every stored webhook secret that is still plain text. Each
    /// encryption draws its own nonce; the outcomes go through
    /// `migration_result`: the new values in the order of those rows, or,
    /// when any encryption fails, an error naming the failures and nothing
    /// to store (the migration is all or nothing).
    pub fn migrate_secrets(&self, rows: &Vec<(i64, String)>) -> (r: Result<Vec<(i64, String)>, String>)
        ensures
            exists|outs: Seq<Result<String, String>>|
                outs.len() == plaintext_rows(rows@).len() && (forall|k: int|
                    0 <= k < outs.len() ==> encrypt_outcome_ok(
                        self.key_view(),
                        plaintext_rows(rows@)[k].1@,
                        #[trigger] outs[k],
                    )) && migration_view(r) == migration_spec(plaintext_rows(rows@), outs),
    {
        let ghost pred = |r: (i64, String)| !is_encrypted_spec(r.1@);
        let mut plain: Vec<(i64, String)> = Vec::new();
        let mut outcomes: Vec<Result<String, String>> = Vec::new();
        let mut i: usize = 0;
        while i < rows.len()
            invariant
                i <= rows@.len(),
                pred == (|r: (i64, String)| !is_encrypted_spec(r.1@)),
                plain@ == rows@.subrange(0, i as int).filter(pred),
                outcomes@.len() == plain@.len(),
                forall|k: int|
                    0 <= k < outcomes@.len() ==> encrypt_outcome_ok(
                        self.key_view(),
                        plain@[k].1@,
                        #[trigger] outcomes@[k],
                    ),
            decreases rows.len() - i,
        {
            proof {
                assert(rows@.subrange(0, i + 1).drop_last() =~= rows@.subrange(0, i as int));
                reveal_with_fuel(Seq::filter, 1);
            }
            let id = rows[i].0;
            let secret = &rows[i].1;
            if !CryptoManager::is_encrypted(secret.as_str()) {
                let o = self.encrypt(secret.as_str());
                let ghost pb = plain@;
                let ghost ob = outcomes@;
                plain.push((id, secret.clone()));
                outcomes.push(o);
                proof {
                    assert(rows@.subrange(0, i + 1).last() == rows@[i as int]);
                    assert(plain@ =~= rows@.subrange(0, i + 1).filter(pred));
                    assert forall|k: int| 0 <= k < outcomes@.len() implies encrypt_outcome_ok(
                        self.key_view(),
                        plain@[k].1@,
                        #[trigger] outcomes@[k],
                    ) by {
                        if k < ob.len() {
                            assert(outcomes@[k] == ob[k]);
                            assert(plain@[k] == pb[k]);
                        }
                    }
                }
            }
            i = i + 1;
        }
        assert(rows@.subrange(0, rows.len() as int) =~= rows@);
        let ghost outs = outcomes@;
        let r = migration_result(&plain, outcomes);
        assert(outs.len() == plaintext_rows(rows@).len());
        r
    }
}

} // verus!

//! Image signatures: where the local key pair lives, and signing and
//! verifying with it. Keys and signatures are written in hexadecimal.

use crate::codec::{hex_bytes, hex_complaint, hex_decode, hex_encode, hex_text};
use crate::paths::{joined_path, path_join};
use crate::store::array32;
use crate::text::{cat2, trim, trimmed};
use ed25519_dalek::{Signer, Verifier};
use vstd::prelude::*;
use vstd::utf8::encode_utf8;

verus! {

/// A signing key, by its secret bytes.
pub struct SigningKey {
    pub secret: [u8; 32],
}

/// The public key that belongs to a secret one.
pub uninterp spec fn public_key_of(secret: Seq<u8>) -> Seq<u8>;

/// The signature that a secret key makes for some data.
pub uninterp spec fn signature_of(secret: Seq<u8>, data: Seq<u8>) -> Seq<u8>;

/// What is wrong with a public key, if anything.
pub uninterp spec fn key_fault(public: Seq<u8>) -> Option<Seq<char>>;

/// What is wrong with a signature under a public key, if anything.
pub uninterp spec fn signature_fault(public: Seq<u8>, data: Seq<u8>, signature: Seq<u8>) -> Option<Seq<char>>;

/// Whether a signature is good under a public key.
pub open spec fn is_signed(public: Seq<u8>, data: Seq<u8>, signature: Seq<u8>) -> bool {
    public.len() == 32 && key_fault(public) is None && signature_fault(public, data, signature) is None
}

/// `ed25519_dalek::SigningKey::generate`: any secret bytes.
#[verifier::external_body]
fn generate_secret() -> (r: [u8; 32]) {
    ed25519_dalek::SigningKey::generate(&mut rand::rngs::OsRng).to_bytes()
}

/// `ed25519_dalek::SigningKey::verifying_key`: the public key, which is a good one.
#[verifier::external_body]
fn public_key(secret: &[u8; 32]) -> (r: [u8; 32])
    ensures
        r@ == public_key_of(secret@) && key_fault(r@) is None,
{
    ed25519_dalek::SigningKey::from_bytes(secret).verifying_key().to_bytes()
}

/// `ed25519_dalek::SigningKey::sign`: a signature of 64 bytes that depends on
/// the key and the data alone, and is good under the key's public half.
#[verifier::external_body]
fn sign_bytes(secret: &[u8; 32], data: &[u8]) -> (r: [u8; 64])
    ensures
        r@ == signature_of(secret@, data@),
        is_signed(public_key_of(secret@), data@, r@),
{
    ed25519_dalek::SigningKey::from_bytes(secret).sign(data).to_bytes()
}

/// `ed25519_dalek::VerifyingKey::from_bytes`: whether the bytes are a public key.
#[verifier::external_body]
fn check_key(public: &[u8; 32]) -> (r: Result<(), String>)
    ensures
        match r {
            Ok(_) => key_fault(public@) is None,
            Err(m) => key_fault(public@) == Some(m@),
        },
{
    ed25519_dalek::VerifyingKey::from_bytes(public).map(|_| ()).map_err(|e| e.to_string())
}

/// `ed25519_dalek::VerifyingKey::verify` under a good public key.
#[verifier::external_body]
fn check_signature(public: &[u8; 32], data: &[u8], signature: &[u8; 64]) -> (r: Result<(), String>)
    requires
        key_fault(public@) is None,
    ensures
        match r {
            Ok(_) => signature_fault(public@, data@, signature@) is None,
            Err(m) => signature_fault(public@, data@, signature@) == Some(m@),
        },
{
    let key = ed25519_dalek::VerifyingKey::from_bytes(public).expect("the key was checked");
    key.verify(data, &ed25519_dalek::Signature::from_bytes(signature)).map_err(|e| e.to_string())
}

/// The directory of the key pair, below the user's home; without a home it is
/// the superuser's.
pub open spec fn keys_at(home: Option<Seq<char>>) -> Seq<char> {
    let base = match home {
        Some(h) => h,
        None => "/root"@,
    };
    joined_path(joined_path(base, ".kiln"@), "key"@)
}

/// The directory of the key pair.
pub fn key_dir(home: &Option<String>) -> (r: String)
    ensures
        r@ == keys_at(crate::image::opt_text(*home)),
{
    let base = match home {
        Some(h) => h.as_str(),
        None => "/root",
    };
    let kiln = path_join(base, ".kiln");
    path_join(kiln.as_str(), "key")
}

/// The file of the secret key.
pub fn private_key_path(home: &Option<String>) -> (r: String)
    ensures
        r@ == joined_path(keys_at(crate::image::opt_text(*home)), "ed25519"@),
{
    let dir = key_dir(home);
    path_join(dir.as_str(), "ed25519")
}

/// The file of the public key.
pub fn public_key_path(home: &Option<String>) -> (r: String)
    ensures
        r@ == joined_path(keys_at(crate::image::opt_text(*home)), "ed25519.pub"@),
{
    let dir = key_dir(home);
    path_join(dir.as_str(), "ed25519.pub")
}

/// The mode of a file that only its owner may read.
pub const PRIVATE_MODE: u32 = 0o600;

/// A new key pair, and the files it is saved in: the secret key's gets mode
/// [`PRIVATE_MODE`] right after it is written.
pub struct KeyPair {
    pub key: SigningKey,
    pub dir: String,
    pub private_path: String,
    pub private_text: String,
    pub public_path: String,
    pub public_text: String,
}

/// A new key pair to save, in place of any that was there.
pub fn generate_and_save(home: &Option<String>) -> (r: KeyPair)
    ensures
        r.dir@ == keys_at(crate::image::opt_text(*home)),
        r.private_path@ == joined_path(r.dir@, "ed25519"@),
        r.private_text@ == hex_text(r.key.secret@),
        r.public_path@ == joined_path(r.dir@, "ed25519.pub"@),
        r.public_text@ == hex_text(public_key_of(r.key.secret@)),
{
    let secret = generate_secret();
    let public = public_key(&secret);
    KeyPair {
        key: SigningKey { secret },
        dir: key_dir(home),
        private_path: private_key_path(home),
        private_text: hex_encode(secret.as_slice()),
        public_path: public_key_path(home),
        public_text: hex_encode(public.as_slice()),
    }
}

/// The secret key that a file's text holds.
pub open spec fn secret_in(text: Seq<char>) -> Option<Seq<u8>> {
    match hex_bytes(encode_utf8(trimmed(text))) {
        Some(b) => if b.len() == 32 {
            Some(b)
        } else {
            None
        },
        None => None,
    }
}

/// The local signing key, given what its file holds, if it could be read.
pub fn load_signing_key(read: &Option<String>) -> (r: Option<SigningKey>)
    ensures
        match read {
            Some(text) => match r {
                Some(k) => secret_in(text@) == Some(k.secret@),
                None => secret_in(text@) is None,
            },
            None => r is None,
        },
{
    match read {
        None => None,
        Some(text) => match hex_decode(trim(text.as_str())) {
            Ok(bytes) => {
                if bytes.len() == 32 {
                    Some(SigningKey { secret: array32(&bytes) })
                } else {
                    None
                }
            },
            Err(_) => None,
        },
    }
}

/// The local public key's text, given what its file holds, if it could be read.
pub fn load_public_key_hex(read: &Option<String>) -> (r: Option<String>)
    ensures
        crate::image::opt_text(r) == (match read {
            Some(text) => Some(trimmed(text@)),
            None => None,
        }),
{
    match read {
        Some(text) => Some(trim(text.as_str()).to_owned()),
        None => None,
    }
}

impl SigningKey {
    /// The public key's text.
    pub fn public_key_hex(&self) -> (r: String)
        ensures
            r@ == hex_text(public_key_of(self.secret@)),
    {
        let public = public_key(&self.secret);
        hex_encode(public.as_slice())
    }
}

/// What is said of a signature that is refused; nothing of one that is good.
pub open spec fn refusal(public_key_hex: Seq<char>, data: Seq<u8>, signature_hex: Seq<char>) -> Option<Seq<char>> {
    let key_text = encode_utf8(public_key_hex);
    let signature_text = encode_utf8(signature_hex);
    match hex_bytes(key_text) {
        None => Some("invalid public key hex: "@ + hex_complaint(key_text)),
        Some(key) => if key.len() != 32 {
            Some("public key must be 32 bytes"@)
        } else if key_fault(key) is Some {
            Some("invalid public key: "@ + key_fault(key)->0)
        } else {
            match hex_bytes(signature_text) {
                None => Some("invalid signature hex: "@ + hex_complaint(signature_text)),
                Some(signature) => if signature.len() != 64 {
                    Some("signature must be 64 bytes"@)
                } else if signature_fault(key, data, signature) is Some {
                    Some("signature verification failed: "@ + signature_fault(key, data, signature)->0)
                } else {
                    None
                },
            }
        },
    }
}

/// The signature of `data`, as text. It is good under the key's public half.
pub fn sign(key: &SigningKey, data: &[u8]) -> (r: String)
    ensures
        r@ == hex_text(signature_of(key.secret@, data@)),
        refusal(hex_text(public_key_of(key.secret@)), data@, r@) is None,
{
    let bytes = sign_bytes(&key.secret, data);
    proof {
        crate::codec::hex_round_trip(bytes@);
        crate::codec::hex_round_trip(public_key_of(key.secret@));
    }
    hex_encode(bytes.as_slice())
}

/// The 64 bytes of `v` as an array.
fn array64(v: &Vec<u8>) -> (r: [u8; 64])
    requires
        v@.len() == 64,
    ensures
        r@ == v@,
{
    let mut a: [u8; 64] = [0u8; 64];
    let mut i: usize = 0;
    while i < 64
        invariant
            i <= 64,
            v@.len() == 64,
            forall|j: int| 0 <= j < i ==> a@[j] == v@[j],
        decreases 64 - i,
    {
        a[i] = v[i];
        i += 1;
    }
    assert(a@ == v@);
    a
}

/// Whether `signature_hex` is a signature of `data` by the holder of
/// `public_key_hex`; if not, why not.
pub fn verify(public_key_hex: &str, data: &[u8], signature_hex: &str) -> (r: Result<(), String>)
    ensures
        match r {
            Ok(_) => refusal(public_key_hex@, data@, signature_hex@) is None,
            Err(m) => refusal(public_key_hex@, data@, signature_hex@) == Some(m@),
        },
{
    let key = match hex_decode(public_key_hex) {
        Ok(b) => b,
        Err(e) => {
            return Err(cat2("invalid public key hex: ", e.as_str()));
        },
    };
    if key.len() != 32 {
        return Err("public key must be 32 bytes".to_owned());
    }
    let public = array32(&key);
    match check_key(&public) {
        Ok(_) => {},
        Err(e) => {
            return Err(cat2("invalid public key: ", e.as_str()));
        },
    }
    let signature = match hex_decode(signature_hex) {
        Ok(b) => b,
        Err(e) => {
            return Err(cat2("invalid signature hex: ", e.as_str()));
        },
    };
    if signature.len() != 64 {
        return Err("signature must be 64 bytes".to_owned());
    }
    let fixed = array64(&signature);
    match check_signature(&public, data, &fixed) {
        Ok(_) => Ok(()),
        Err(e) => Err(cat2("signature verification failed: ", e.as_str())),
    }
}

/// The key that is read back is the one that was saved.
pub proof fn saved_key_is_read_back(key: SigningKey)
    ensures
        secret_in(hex_text(key.secret@)) == Some(key.secret@),
{
    crate::codec::hex_round_trip(key.secret@);
    crate::store::lemma_hex_text_not_white(key.secret@);
}

/// Keys stand in the user's own directory, and in the administrator's where
/// there is no other.
pub proof fn keys_stand_in_the_home_directory(home: Seq<char>)
    requires
        home.len() > 0,
        home.last() != '/',
    ensures
        keys_at(Some(home)) == home + "/.kiln/key"@,
        keys_at(None) == keys_at(Some("/root"@)),
{
    reveal_strlit(".kiln");
    reveal_strlit("key");
    reveal_strlit("/.kiln/key");
    assert(keys_at(Some(home)) =~= home + "/.kiln/key"@);
}

/// A signature is accepted exactly if key and signature are of their lengths
/// and the one belongs to the other: one that does not is refused whatever it
/// says.
pub proof fn good_signatures_are_accepted(public: Seq<u8>, data: Seq<u8>, signature: Seq<u8>)
    ensures
        refusal(hex_text(public), data, hex_text(signature)) is None <==> public.len() == 32 && signature.len() == 64
            && key_fault(public) is None && signature_fault(public, data, signature) is None,
{
    crate::codec::hex_round_trip(public);
    crate::codec::hex_round_trip(signature);
}

} // verus!

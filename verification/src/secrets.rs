//! Secrets: encrypted at rest under a key that never leaves the machine. A
//! secret's file holds a random nonce followed by the ciphertext; beside it
//! a plain file keeps its history, never its value.

use crate::codec::{
    bytes_of, hex_bytes, hex_decode, hex_encode, hex_text, json_opt_number, json_opt_u64, random_bytes,
};
use crate::image::opt_text;
use crate::num::{decimal, u64_text};
use crate::paths::{joined_path, path_join};
use crate::pretty::{
    add_line, laid_member, laid_object, members_show_their_values, numbers_show_their_value, object_lines,
    objects_show_their_members, optional_numbers_show_their_value, told_apart,
};
use crate::store::{array32, FileWrite};
use crate::text::{
    cat2, cat3, contains_char, contains_str, has_run, strip_suffix, trim, trimmed, views, without_suffix,
};
use aes_gcm::aead::{Aead, KeyInit};
use vstd::prelude::*;
use vstd::utf8::encode_utf8;

verus! {

/// Why an operation on a secret failed, by the kind of failure.
#[derive(Debug)]
pub enum SecretError {
    InvalidInput(String),
    NotFound(String),
    InvalidData(String),
    Other(String),
}

impl SecretError {
    /// How the failure reads.
    pub open spec fn text(&self) -> Seq<char> {
        match *self {
            SecretError::InvalidInput(m) => m@,
            SecretError::NotFound(m) => m@,
            SecretError::InvalidData(m) => m@,
            SecretError::Other(m) => m@,
        }
    }

    /// How the failure reads.
    pub fn message(&self) -> (r: &str)
        ensures
            r@ == self.text(),
    {
        match self {
            SecretError::InvalidInput(m) => m.as_str(),
            SecretError::NotFound(m) => m.as_str(),
            SecretError::InvalidData(m) => m.as_str(),
            SecretError::Other(m) => m.as_str(),
        }
    }
}

// ---- The master key --------------------------------------------------------

/// The directory of the master key, below the user's home.
pub open spec fn master_at(home: Option<Seq<char>>) -> Seq<char> {
    let base = match home {
        Some(h) => h,
        None => "/root"@,
    };
    joined_path(joined_path(base, ".kiln"@), "secrets"@)
}

/// The directory of the master key.
pub fn master_key_dir(home: &Option<String>) -> (r: String)
    ensures
        r@ == master_at(opt_text(*home)),
{
    let base = match home {
        Some(h) => h.as_str(),
        None => "/root",
    };
    let kiln = path_join(base, ".kiln");
    path_join(kiln.as_str(), "secrets")
}

/// The file of the master key.
pub fn master_key_path(home: &Option<String>) -> (r: String)
    ensures
        r@ == joined_path(master_at(opt_text(*home)), "master.key"@),
{
    let dir = master_key_dir(home);
    path_join(dir.as_str(), "master.key")
}

/// The master key, and the file to write if it is a new one. The file gets
/// mode 0600 right after it is written.
pub struct MasterKey {
    pub key: [u8; 32],
    pub write: Option<FileWrite>,
}

/// The key that a file's text holds.
pub open spec fn key_in(text: Seq<char>) -> Option<Seq<u8>> {
    match hex_bytes(encode_utf8(trimmed(text))) {
        Some(b) => if b.len() == 32 {
            Some(b)
        } else {
            None
        },
        None => None,
    }
}

/// The key that an optional file's text holds.
pub open spec fn stored_key(read: Option<Seq<char>>) -> Option<Seq<u8>> {
    match read {
        Some(t) => key_in(t),
        None => None,
    }
}

/// The master key, given what its file holds, if it could be read: the key
/// in the file, or a new random one where the file holds none.
pub fn load_or_create_master_key(home: &Option<String>, read: &Option<String>) -> (r: MasterKey)
    ensures
        match stored_key(opt_text(*read)) {
            Some(k) => r.key@ == k && r.write is None,
            None => r.write matches Some(w) && w.dir@ == master_at(opt_text(*home)) && w.path@ == joined_path(
                w.dir@,
                "master.key"@,
            ) && w.content@ == encode_utf8(hex_text(r.key@)),
        },
{
    match read {
        Some(text) => match hex_decode(trim(text.as_str())) {
            Ok(bytes) => {
                if bytes.len() == 32 {
                    return MasterKey { key: array32(&bytes), write: None };
                }
            },
            Err(_) => {},
        },
        None => {},
    }
    let bytes = random_bytes(32);
    let key = array32(&bytes);
    let text = hex_encode(key.as_slice());
    let write = FileWrite {
        dir: master_key_dir(home),
        path: master_key_path(home),
        content: bytes_of(text.as_str()),
    };
    MasterKey { key, write: Some(write) }
}

/// A new master key is the one that is found from then on.
pub proof fn new_master_key_is_found(key: [u8; 32])
    ensures
        stored_key(Some(hex_text(key@))) == Some(key@),
{
    crate::codec::hex_round_trip(key@);
    crate::store::lemma_hex_text_not_white(key@);
}

// ---- Names -----------------------------------------------------------------

/// Whether a secret can have this name.
pub open spec fn good_name(name: Seq<char>) -> bool {
    name.len() > 0 && !name.contains('/') && !has_run(name, ".."@)
}

/// Where secrets live.
pub open spec fn secrets_at(root: Seq<char>) -> Seq<char> {
    joined_path(root, "secrets"@)
}

/// The file of a secret.
pub open spec fn secret_file(root: Seq<char>, name: Seq<char>) -> Seq<char> {
    joined_path(secrets_at(root), name + ".enc"@)
}

/// The file of a secret's history.
pub open spec fn meta_file(root: Seq<char>, name: Seq<char>) -> Seq<char> {
    joined_path(secrets_at(root), name + ".meta.json"@)
}

/// Where secrets live.
pub fn secrets_dir(root: &str) -> (r: String)
    ensures
        r@ == secrets_at(root@),
{
    path_join(root, "secrets")
}

/// Whether a secret can have this name.
fn name_is_good(name: &str) -> (r: bool)
    ensures
        r == good_name(name@),
{
    !(name.unicode_len() == 0 || contains_char(name, '/') || contains_str(name, ".."))
}

/// The file of a secret, if it can have this name.
pub fn secret_path(root: &str, name: &str) -> (r: Option<String>)
    ensures
        match r {
            Some(p) => good_name(name@) && p@ == secret_file(root@, name@),
            None => !good_name(name@),
        },
{
    if !name_is_good(name) {
        return None;
    }
    let dir = secrets_dir(root);
    let file = cat2(name, ".enc");
    Some(path_join(dir.as_str(), file.as_str()))
}

/// The file of a secret's history, if it can have this name.
pub fn meta_path(root: &str, name: &str) -> (r: Option<String>)
    ensures
        match r {
            Some(p) => good_name(name@) && p@ == meta_file(root@, name@),
            None => !good_name(name@),
        },
{
    if !name_is_good(name) {
        return None;
    }
    let dir = secrets_dir(root);
    let file = cat2(name, ".meta.json");
    Some(path_join(dir.as_str(), file.as_str()))
}

/// Where new content for `path` is written before it is renamed onto `path`,
/// so that a reader finds the old content or the new, and a failure leaves
/// the old.
pub fn write_atomic(path: &str, pid: u32) -> (r: String)
    ensures
        r@ == path@ + ".tmp-"@ + decimal(pid as nat),
{
    let n = u64_text(pid as u64);
    cat3(path, ".tmp-", n.as_str())
}

/// No secret's file lies outside the directory of secrets: its name has no
/// slash in it and does not climb.
pub proof fn secrets_stay_in_their_directory(root: Seq<char>, name: Seq<char>)
    requires
        good_name(name),
    ensures
        secrets_at(root).is_prefix_of(secret_file(root, name)),
        secrets_at(root).is_prefix_of(meta_file(root, name)),
        !name.contains('/'),
{
    let dir = secrets_at(root);
    assert(name[0] != '/') by {
        if name[0] == '/' {
            assert(name.contains('/'));
        }
    }
    assert((name + ".enc"@)[0] == name[0]);
    assert((name + ".meta.json"@)[0] == name[0]);
    assert(dir =~= secret_file(root, name).subrange(0, dir.len() as int));
    assert(dir =~= meta_file(root, name).subrange(0, dir.len() as int));
}

// ---- History ---------------------------------------------------------------

/// A secret's history. Times are seconds since 1970.
#[derive(Debug, Clone, Copy)]
pub struct SecretMeta {
    /// 1 for a new secret, and one more with every rotation.
    pub version: u32,
    pub created_at: u64,
    pub rotated_at: Option<u64>,
    /// How long a value is meant to stay in use; nothing enforces it.
    pub ttl_secs: Option<u64>,
}

/// When the current value came into use: with the creation or the last
/// rotation, whichever is later.
pub open spec fn in_use_since(m: SecretMeta) -> u64 {
    match m.rotated_at {
        Some(t) => if t > m.created_at {
            t
        } else {
            m.created_at
        },
        None => m.created_at,
    }
}

/// A point in time or a span, if there is one.
pub open spec fn opt_seconds(n: Option<u64>) -> Option<nat> {
    match n {
        Some(v) => Some(v as nat),
        None => None,
    }
}

/// The members of a secret's history.
pub open spec fn meta_line_members(m: SecretMeta) -> Seq<Seq<char>> {
    seq![
        laid_member("version"@, decimal(m.version as nat)),
        laid_member("created_at"@, decimal(m.created_at as nat)),
        laid_member("rotated_at"@, json_opt_number(opt_seconds(m.rotated_at))),
        laid_member("ttl_secs"@, json_opt_number(opt_seconds(m.ttl_secs))),
    ]
}

/// What the file of a secret's history holds.
pub open spec fn meta_file_text(m: SecretMeta) -> Seq<char> {
    laid_object(meta_line_members(m), 0)
}

impl SecretMeta {
    /// What the file of the history holds.
    pub fn file_text(&self) -> (r: String)
        ensures
            r@ == meta_file_text(*self),
    {
        let version = u64_text(self.version as u64);
        let created_at = u64_text(self.created_at);
        let rotated_at = json_opt_u64(self.rotated_at);
        let ttl_secs = json_opt_u64(self.ttl_secs);
        let mut members: Vec<String> = Vec::new();
        add_line(&mut members, "version", version.as_str());
        add_line(&mut members, "created_at", created_at.as_str());
        add_line(&mut members, "rotated_at", rotated_at.as_str());
        add_line(&mut members, "ttl_secs", ttl_secs.as_str());
        assert(views(members@) =~= meta_line_members(*self));
        object_lines(&members, 0)
    }

    /// When the current value should be replaced, if that was ever said.
    pub fn expires_at(&self) -> (r: Option<u64>)
        requires
            self.ttl_secs matches Some(ttl) ==> in_use_since(*self) + ttl <= u64::MAX,
        ensures
            r == (match self.ttl_secs {
                Some(ttl) => Some((in_use_since(*self) + ttl) as u64),
                None => None,
            }),
    {
        let base = match self.rotated_at {
            Some(t) => if t > self.created_at {
                t
            } else {
                self.created_at
            },
            None => self.created_at,
        };
        match self.ttl_secs {
            Some(ttl) => Some(base + ttl),
            None => None,
        }
    }
}

/// The history of a new secret.
pub open spec fn first_meta(now: u64, ttl: Option<u64>) -> SecretMeta {
    SecretMeta { version: 1, created_at: now, rotated_at: None, ttl_secs: ttl }
}

/// The history after a rotation. A secret without one counts as version 1.
pub open spec fn rotated_meta(previous: Option<SecretMeta>, now: u64) -> SecretMeta {
    match previous {
        Some(m) => SecretMeta {
            version: (m.version + 1) as u32,
            created_at: m.created_at,
            rotated_at: Some(now),
            ttl_secs: m.ttl_secs,
        },
        None => SecretMeta { version: 2, created_at: now, rotated_at: Some(now), ttl_secs: None },
    }
}

/// The history after the time to live was set.
pub open spec fn retimed_meta(previous: Option<SecretMeta>, now: u64, ttl: Option<u64>) -> SecretMeta {
    match previous {
        Some(m) => SecretMeta { ttl_secs: ttl, ..m },
        None => SecretMeta { version: 1, created_at: now, rotated_at: None, ttl_secs: ttl },
    }
}

/// A rotation moves the version on by one and keeps the day of creation and
/// the time to live; setting the time to live keeps everything else.
pub proof fn history_moves_on(m: SecretMeta, now: u64, ttl: Option<u64>)
    requires
        m.version < u32::MAX,
    ensures
        rotated_meta(Some(m), now).version == m.version + 1,
        rotated_meta(Some(m), now).created_at == m.created_at,
        rotated_meta(Some(m), now).ttl_secs == m.ttl_secs,
        rotated_meta(Some(m), now).rotated_at == Some(now),
        m.created_at <= now ==> in_use_since(rotated_meta(Some(m), now)) == now,
        retimed_meta(Some(m), now, ttl).version == m.version,
        retimed_meta(Some(m), now, ttl).created_at == m.created_at,
        retimed_meta(Some(m), now, ttl).rotated_at == m.rotated_at,
        retimed_meta(Some(m), now, ttl).ttl_secs == ttl,
{
}

/// The history of a secret, given what its file holds if that can be read.
pub fn meta(name: &str, read: Option<SecretMeta>) -> (r: Option<SecretMeta>)
    ensures
        r == (if good_name(name@) {
            read
        } else {
            None
        }),
{
    if name_is_good(name) {
        read
    } else {
        None
    }
}

// ---- Encryption ------------------------------------------------------------

/// The longest value that the cipher takes.
pub const LONGEST_VALUE: u64 = 0x10_0000_0000;

/// How many bytes a nonce has.
pub const NONCE_LEN: usize = 12;

/// The ciphertext of a value.
pub uninterp spec fn sealed(key: Seq<u8>, nonce: Seq<u8>, value: Seq<u8>) -> Seq<u8>;

/// The value behind a ciphertext, if the ciphertext is a genuine one.
pub uninterp spec fn opened(key: Seq<u8>, nonce: Seq<u8>, ciphertext: Seq<u8>) -> Option<Seq<u8>>;

/// `aes_gcm::Aes256Gcm::encrypt`: the ciphertext of `value`, 16 bytes longer
/// than it, from which the same key and nonce open the value again; nothing
/// for a value that is too long.
#[verifier::external_body]
fn seal(key: &[u8; 32], nonce: &[u8; 12], value: &[u8]) -> (r: Option<Vec<u8>>)
    ensures
        match r {
            Some(c) => value@.len() <= LONGEST_VALUE && c@ == sealed(key@, nonce@, value@) && c@.len() == value@.len()
                + 16 && opened(key@, nonce@, c@) == Some(value@),
            None => value@.len() > LONGEST_VALUE,
        },
{
    let cipher = aes_gcm::Aes256Gcm::new(aes_gcm::Key::<aes_gcm::Aes256Gcm>::from_slice(key));
    cipher.encrypt(aes_gcm::Nonce::from_slice(nonce), value).ok()
}

/// `aes_gcm::Aes256Gcm::decrypt`: the value behind a ciphertext, unless the
/// ciphertext is not genuine. The one error it has reads `aead::Error`.
#[verifier::external_body]
fn open(key: &[u8; 32], nonce: &[u8; 12], ciphertext: &[u8]) -> (r: Option<Vec<u8>>)
    ensures
        match r {
            Some(v) => opened(key@, nonce@, ciphertext@) == Some(v@),
            None => opened(key@, nonce@, ciphertext@) is None,
        },
{
    let cipher = aes_gcm::Aes256Gcm::new(aes_gcm::Key::<aes_gcm::Aes256Gcm>::from_slice(key));
    cipher.decrypt(aes_gcm::Nonce::from_slice(nonce), ciphertext).ok()
}

/// What a secret's file holds: the nonce, then the ciphertext.
pub open spec fn file_bytes(key: Seq<u8>, nonce: Seq<u8>, value: Seq<u8>) -> Seq<u8> {
    nonce + sealed(key, nonce, value)
}

/// The first 12 bytes of `v` as an array.
fn array12(v: &Vec<u8>) -> (r: [u8; 12])
    requires
        v@.len() >= 12,
    ensures
        r@ == v@.take(12),
{
    let mut a: [u8; 12] = [0u8; 12];
    let mut i: usize = 0;
    while i < 12
        invariant
            i <= 12,
            v@.len() >= 12,
            forall|j: int| 0 <= j < i ==> a@[j] == v@[j],
        decreases 12 - i,
    {
        a[i] = v[i];
        i += 1;
    }
    assert(a@ =~= v@.take(12));
    a
}

/// Encrypts `value` under the master key with this nonce, into the form that
/// is kept on disk. What is kept opens to the value again.
pub fn encrypt(value: &Vec<u8>, key: &[u8; 32], nonce: &[u8; 12]) -> (r: Result<Vec<u8>, SecretError>)
    ensures
        match r {
            Ok(b) => value@.len() <= LONGEST_VALUE && b@ == file_bytes(key@, nonce@, value@) && contents(b@, key@)
                == Some(value@),
            Err(e) => value@.len() > LONGEST_VALUE && (e matches SecretError::Other(m) && m@
                == "encrypting secret: aead::Error"@),
        },
{
    let mut ciphertext = match seal(key, nonce, value.as_slice()) {
        Some(c) => c,
        None => {
            return Err(SecretError::Other("encrypting secret: aead::Error".to_owned()));
        },
    };
    let ghost sealed_bytes = ciphertext@;
    let mut out: Vec<u8> = Vec::new();
    let mut i: usize = 0;
    while i < 12
        invariant
            i <= 12,
            nonce@.len() == 12,
            out@ == nonce@.take(i as int),
        decreases 12 - i,
    {
        out.push(nonce[i]);
        i += 1;
        assert(out@ =~= nonce@.take(i as int));
    }
    assert(nonce@.take(12) =~= nonce@);
    out.append(&mut ciphertext);
    proof {
        assert(out@.take(12) =~= nonce@);
        assert(out@.skip(12) =~= sealed_bytes);
    }
    Ok(out)
}

/// The value that a secret's file holds.
pub open spec fn contents(data: Seq<u8>, key: Seq<u8>) -> Option<Seq<u8>> {
    if data.len() < NONCE_LEN {
        None
    } else {
        opened(key, data.take(12), data.skip(12))
    }
}

/// What a new or changed secret is written as: its file, and its history.
pub struct SecretWrite {
    pub dir: String,
    pub path: String,
    pub content: Vec<u8>,
    pub meta_path: String,
    pub meta: SecretMeta,
}

/// Whether a write is one of this value under this key, at the right places.
pub open spec fn writes(w: SecretWrite, root: Seq<char>, name: Seq<char>, value: Seq<u8>, key: Seq<u8>) -> bool {
    &&& w.dir@ == secrets_at(root)
    &&& w.path@ == secret_file(root, name)
    &&& w.meta_path@ == meta_file(root, name)
    &&& exists|nonce: Seq<u8>| nonce.len() == NONCE_LEN && w.content@ == #[trigger] file_bytes(key, nonce, value)
    &&& contents(w.content@, key) == Some(value)
}

/// What is said of a name that no secret can have.
fn invalid_name() -> (r: SecretError)
    ensures
        r matches SecretError::InvalidInput(m) && m@ == "invalid secret name"@,
{
    SecretError::InvalidInput("invalid secret name".to_owned())
}

/// The file and history of a value, under a fresh nonce.
fn write_value(root: &str, name: &str, value: &Vec<u8>, key: &[u8; 32], meta: SecretMeta) -> (r: Result<
    SecretWrite,
    SecretError,
>)
    requires
        good_name(name@),
    ensures
        match r {
            Ok(w) => value@.len() <= LONGEST_VALUE && writes(w, root@, name@, value@, key@) && w.meta == meta,
            Err(e) => value@.len() > LONGEST_VALUE && (e matches SecretError::Other(m) && m@
                == "encrypting secret: aead::Error"@),
        },
{
    let random = random_bytes(12);
    let nonce = array12(&random);
    match encrypt(value, key, &nonce) {
        Ok(content) => {
            let dir = secrets_dir(root);
            let file = cat2(name, ".enc");
            let path = path_join(dir.as_str(), file.as_str());
            let meta_name = cat2(name, ".meta.json");
            let meta_path = path_join(dir.as_str(), meta_name.as_str());
            Ok(SecretWrite { dir, path, content, meta_path, meta })
        },
        Err(e) => Err(e),
    }
}

/// A new secret: its file and its history. Reading the file gives the value back.
pub fn create(root: &str, name: &str, value: &Vec<u8>, ttl_secs: Option<u64>, key: &[u8; 32], now: u64) -> (r: Result<
    SecretWrite,
    SecretError,
>)
    ensures
        match r {
            Ok(w) => good_name(name@) && value@.len() <= LONGEST_VALUE && writes(w, root@, name@, value@, key@)
                && w.meta == first_meta(now, ttl_secs),
            Err(SecretError::InvalidInput(m)) => !good_name(name@) && m@ == "invalid secret name"@,
            Err(SecretError::Other(m)) => good_name(name@) && value@.len() > LONGEST_VALUE && m@
                == "encrypting secret: aead::Error"@,
            Err(_) => false,
        },
{
    if !name_is_good(name) {
        return Err(invalid_name());
    }
    let meta = SecretMeta { version: 1, created_at: now, rotated_at: None, ttl_secs };
    write_value(root, name, value, key, meta)
}

/// A new value for an existing secret, under a fresh nonce. A secret that
/// does not exist is not created. Until the new file is renamed into place,
/// the old one is untouched.
pub fn rotate(
    root: &str,
    name: &str,
    exists: bool,
    new_value: &Vec<u8>,
    key: &[u8; 32],
    previous: Option<SecretMeta>,
    now: u64,
) -> (r: Result<SecretWrite, SecretError>)
    requires
        previous matches Some(m) ==> m.version < u32::MAX,
    ensures
        match r {
            Ok(w) => good_name(name@) && exists && new_value@.len() <= LONGEST_VALUE && writes(
                w,
                root@,
                name@,
                new_value@,
                key@,
            ) && w.meta == rotated_meta(previous, now),
            Err(SecretError::InvalidInput(m)) => !good_name(name@) && m@ == "invalid secret name"@,
            Err(SecretError::NotFound(m)) => good_name(name@) && !exists && m@ == "no such secret: "@ + name@,
            Err(SecretError::Other(m)) => good_name(name@) && exists && new_value@.len() > LONGEST_VALUE && m@
                == "encrypting secret: aead::Error"@,
            Err(_) => false,
        },
{
    if !name_is_good(name) {
        return Err(invalid_name());
    }
    if !exists {
        return Err(SecretError::NotFound(cat2("no such secret: ", name)));
    }
    let meta = match previous {
        Some(m) => SecretMeta {
            version: m.version + 1,
            created_at: m.created_at,
            rotated_at: Some(now),
            ttl_secs: m.ttl_secs,
        },
        None => SecretMeta { version: 2, created_at: now, rotated_at: Some(now), ttl_secs: None },
    };
    write_value(root, name, new_value, key, meta)
}

/// Another time to live for an existing secret; its value is not touched.
pub fn set_ttl(name: &str, exists: bool, previous: Option<SecretMeta>, ttl_secs: Option<u64>, now: u64) -> (r: Result<
    SecretMeta,
    SecretError,
>)
    ensures
        match r {
            Ok(m) => good_name(name@) && exists && m == retimed_meta(previous, now, ttl_secs),
            Err(SecretError::InvalidInput(m)) => !good_name(name@) && m@ == "invalid secret name"@,
            Err(SecretError::NotFound(m)) => good_name(name@) && !exists && m@ == "no such secret: "@ + name@,
            Err(_) => false,
        },
{
    if !name_is_good(name) {
        return Err(invalid_name());
    }
    if !exists {
        return Err(SecretError::NotFound(cat2("no such secret: ", name)));
    }
    Ok(
        match previous {
            Some(m) => SecretMeta {
                version: m.version,
                created_at: m.created_at,
                rotated_at: m.rotated_at,
                ttl_secs,
            },
            None => SecretMeta { version: 1, created_at: now, rotated_at: None, ttl_secs },
        },
    )
}

/// The bytes of a file, if there are any.
pub open spec fn opt_bytes(data: Option<Vec<u8>>) -> Option<Seq<u8>> {
    match data {
        Some(d) => Some(d@),
        None => None,
    }
}

/// What reading a secret comes to, given what its file holds if it is there.
pub open spec fn reading(name: Seq<char>, data: Option<Seq<u8>>, key: Seq<u8>) -> Result<Option<Seq<u8>>, Seq<char>> {
    match data {
        Some(d) if good_name(name) => match contents(d, key) {
            Some(v) => Ok(Some(v)),
            None => Err(
                if d.len() < NONCE_LEN {
                    "secret "@ + name + " is corrupt (too short)"@
                } else {
                    "decrypting secret "@ + name + ": aead::Error"@
                },
            ),
        },
        _ => Ok(None),
    }
}

/// What was written is what is read, by creating a secret or by rotating it,
/// for as long as it is there; once its file is gone there is none. Under a
/// name that no secret can have there is none either, and no failure.
pub proof fn secrets_read_back(
    root: Seq<char>,
    name: Seq<char>,
    value: Seq<u8>,
    key: Seq<u8>,
    w: SecretWrite,
    bad: Seq<char>,
    data: Option<Seq<u8>>,
)
    requires
        good_name(name),
        writes(w, root, name, value, key),
        !good_name(bad),
    ensures
        reading(name, Some(w.content@), key) == Ok::<Option<Seq<u8>>, Seq<char>>(Some(value)),
        reading(name, None, key) == Ok::<Option<Seq<u8>>, Seq<char>>(None),
        reading(bad, data, key) == Ok::<Option<Seq<u8>>, Seq<char>>(None),
{
}

/// A secret's value, given what its file holds, if it could be read: nothing
/// if there is no such secret, a failure only if something is wrong with it.
pub fn read(name: &str, data: &Option<Vec<u8>>, key: &[u8; 32]) -> (r: Result<Option<Vec<u8>>, SecretError>)
    ensures
        match (r, reading(name@, opt_bytes(*data), key@)) {
            (Ok(None), Ok(None)) => true,
            (Ok(Some(v)), Ok(Some(x))) => v@ == x,
            (Err(e), Err(m)) => e matches SecretError::InvalidData(t) && t@ == m,
            _ => false,
        },
{
    if !name_is_good(name) {
        return Ok(None);
    }
    match data {
        None => Ok(None),
        Some(d) => {
            if d.len() < 12 {
                return Err(SecretError::InvalidData(cat3("secret ", name, " is corrupt (too short)")));
            }
            let nonce = array12(d);
            let ciphertext = vstd::slice::slice_to_vec(vstd::slice::slice_subrange(d.as_slice(), 12, d.len()));
            assert(ciphertext@ =~= d@.skip(12));
            match open(key, &nonce, ciphertext.as_slice()) {
                Some(v) => Ok(Some(v)),
                None => Err(SecretError::InvalidData(cat3("decrypting secret ", name, ": aead::Error"))),
            }
        },
    }
}

/// The files to remove for a secret: its own, and then, if it is there, its history's.
pub fn remove(root: &str, name: &str) -> (r: Result<(String, String), SecretError>)
    ensures
        match r {
            Ok(p) => good_name(name@) && p.0@ == secret_file(root@, name@) && p.1@ == meta_file(root@, name@),
            Err(e) => !good_name(name@) && (e matches SecretError::InvalidInput(m) && m@ == "invalid secret name"@),
        },
{
    match (secret_path(root, name), meta_path(root, name)) {
        (Some(path), Some(meta)) => Ok((path, meta)),
        _ => Err(invalid_name()),
    }
}

/// The names of the secrets whose files are in the directory.
pub open spec fn names_in(files: Seq<Seq<char>>) -> Seq<Seq<char>>
    decreases files.len(),
{
    if files.len() == 0 {
        Seq::empty()
    } else {
        let before = names_in(files.drop_last());
        match without_suffix(files.last(), ".enc"@) {
            Some(name) => before.push(name),
            None => before,
        }
    }
}

/// The names of the secrets, given the names of the files in the directory.
pub fn list(files: &Vec<String>) -> (r: Vec<String>)
    ensures
        views(r@) == names_in(views(files@)),
{
    let ghost all = views(files@);
    let mut out: Vec<String> = Vec::new();
    let mut i: usize = 0;
    assert(views(out@) =~= names_in(all.take(0)));
    while i < files.len()
        invariant
            i <= files@.len(),
            all == views(files@),
            views(out@) == names_in(all.take(i as int)),
        decreases files.len() - i,
    {
        proof {
            assert(all.take(i + 1).drop_last() =~= all.take(i as int));
            assert(all.take(i + 1).last() == files@[i as int]@);
        }
        match strip_suffix(files[i].as_str(), ".enc") {
            Some(name) => {
                let name = name.to_owned();
                assert(views(out@.push(name)) =~= views(out@).push(name@));
                out.push(name);
            },
            None => {},
        }
        i += 1;
    }
    assert(all.take(i as int) =~= all);
    out
}

/// A secret's history can be read back in one way only: histories whose files
/// hold the same text are the same.
pub proof fn files_show_the_history(m: SecretMeta, n: SecretMeta)
    requires
        meta_file_text(m) == meta_file_text(n),
    ensures
        m == n,
{
    let a = meta_line_members(m);
    let b = meta_line_members(n);
    let rotated_m = opt_seconds(m.rotated_at);
    let rotated_n = opt_seconds(n.rotated_at);
    let ttl_m = opt_seconds(m.ttl_secs);
    let ttl_n = opt_seconds(n.ttl_secs);
    numbers_show_their_value(m.version as nat, n.version as nat);
    numbers_show_their_value(m.created_at as nat, n.created_at as nat);
    optional_numbers_show_their_value(rotated_m, rotated_n);
    optional_numbers_show_their_value(ttl_m, ttl_n);
    members_show_their_values("version"@, decimal(m.version as nat), decimal(n.version as nat));
    members_show_their_values("created_at"@, decimal(m.created_at as nat), decimal(n.created_at as nat));
    members_show_their_values("rotated_at"@, json_opt_number(rotated_m), json_opt_number(rotated_n));
    members_show_their_values("ttl_secs"@, json_opt_number(ttl_m), json_opt_number(ttl_n));
    assert forall|i: int| 0 <= i < a.len() && i < b.len() implies told_apart(#[trigger] a[i], b[i]) by {
        assert(i == 0 || i == 1 || i == 2 || i == 3);
    }
    objects_show_their_members(a, b, 0);
    assert(a[0] == b[0] && a[1] == b[1] && a[2] == b[2] && a[3] == b[3]);
    assert(rotated_m == rotated_n ==> m.rotated_at == n.rotated_at);
    assert(ttl_m == ttl_n ==> m.ttl_secs == n.ttl_secs);
}

/// A secret is listed by the name that its file was made for, file by file, and
/// no other file is.
pub proof fn secrets_are_listed_by_their_file(a: Seq<Seq<char>>, b: Seq<Seq<char>>, name: Seq<char>, other: Seq<char>)
    requires
        without_suffix(other, ".enc"@) is None,
    ensures
        names_in(a + b) == names_in(a) + names_in(b),
        names_in(seq![name + ".enc"@]) == seq![name],
        names_in(seq![other]).len() == 0,
    decreases b.len(),
{
    reveal_with_fuel(names_in, 2);
    let file = name + ".enc"@;
    crate::text::prefixes_and_suffixes_come_off(".enc"@, name, file);
    assert(seq![file].drop_last() =~= Seq::<Seq<char>>::empty());
    assert(seq![other].drop_last() =~= Seq::<Seq<char>>::empty());
    assert(names_in(seq![file]) =~= seq![name]);
    if b.len() == 0 {
        assert(a + b =~= a);
        assert(names_in(a + b) =~= names_in(a) + names_in(b));
    } else {
        secrets_are_listed_by_their_file(a, b.drop_last(), name, other);
        assert((a + b).drop_last() =~= a + b.drop_last());
        assert((a + b).last() == b.last());
        assert(names_in(a + b) =~= names_in(a) + names_in(b));
    }
}

/// A secret begins at version 1 on the day it is made, and has not been rotated.
pub proof fn histories_begin(now: u64, ttl: Option<u64>)
    ensures
        first_meta(now, ttl).version == 1,
        first_meta(now, ttl).created_at == now,
        first_meta(now, ttl).rotated_at is None,
        first_meta(now, ttl).ttl_secs == ttl,
        rotated_meta(None, now).version == 2,
        rotated_meta(None, now).rotated_at == Some(now),
        retimed_meta(None, now, ttl).version == 1,
        retimed_meta(None, now, ttl).ttl_secs == ttl,
        retimed_meta(None, now, ttl).rotated_at is None,
{
}

/// A name is good if it is there and neither leaves the directory nor climbs.
pub proof fn names_that_leave_are_refused(a: Seq<char>, b: Seq<char>)
    ensures
        !good_name(Seq::empty()),
        !good_name(a + seq!['/'] + b),
        !good_name(a + ".."@ + b),
        a.len() > 0 && !a.contains('/') && !a.contains('.') ==> good_name(a),
{
    let s = a + seq!['/'] + b;
    assert(s[a.len() as int] == '/');
    crate::text::runs_are_found(a, ".."@, b);
    reveal_strlit("..");
    if a.len() > 0 && !a.contains('/') && !a.contains('.') && has_run(a, ".."@) {
        let i = choose|i: int| crate::text::run_at(a, ".."@, i);
        assert(a.subrange(i, i + 2)[0] == '.');
        assert(a[i] == '.');
    }
}

/// The master key stands in the user's own directory, apart from the secrets,
/// which stand under their names in the store.
pub proof fn secrets_stand_under_their_name(home: Seq<char>, root: Seq<char>, name: Seq<char>)
    requires
        home.len() > 0,
        home.last() != '/',
        root.len() > 0,
        root.last() != '/',
        name.len() > 0,
        name[0] != '/',
    ensures
        master_at(Some(home)) == home + "/.kiln/secrets"@,
        master_at(None) == master_at(Some("/root"@)),
        secret_file(root, name) == root + "/secrets/"@ + name + ".enc"@,
        meta_file(root, name) == root + "/secrets/"@ + name + ".meta.json"@,
{
    reveal_strlit(".kiln");
    reveal_strlit("secrets");
    reveal_strlit("/.kiln/secrets");
    reveal_strlit("/secrets/");
    reveal_strlit(".enc");
    reveal_strlit(".meta.json");
    assert(master_at(Some(home)) =~= home + "/.kiln/secrets"@);
    assert(secret_file(root, name) =~= root + "/secrets/"@ + name + ".enc"@);
    assert(meta_file(root, name) =~= root + "/secrets/"@ + name + ".meta.json"@);
}

} // verus!

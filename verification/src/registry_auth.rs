//! Passwords, and the tokens that the registry server hands out. A token is
//! random; what it stands for is remembered here.

use crate::codec::{hex_encode, hex_text, random_bytes};
use crate::text::{cut_first, split_once, str_eq, views};
use argon2::password_hash::{PasswordHash, PasswordHasher, PasswordVerifier, SaltString};
use vstd::prelude::*;
use vstd::utf8::encode_utf8;

verus! {

/// Whether a password is the one that a hash was made of.
pub uninterp spec fn password_matches(password: Seq<char>, hash: Seq<char>) -> bool;

/// `argon2::Argon2::hash_password` with a salt from `SaltString::generate`: a
/// hash that the password matches. Which one is left to the salt. The
/// longest password `argon2` takes has 2^32 - 1 bytes.
#[verifier::external_body]
pub fn hash_password(password: &str) -> (r: String)
    requires
        encode_utf8(password@).len() <= 0xffff_ffff,
    ensures
        password_matches(password@, r@),
{
    let salt = SaltString::generate(&mut argon2::password_hash::rand_core::OsRng);
    let hash = argon2::Argon2::default().hash_password(password.as_bytes(), &salt);
    hash.expect("a password of this length can be hashed").to_string()
}

/// `argon2::Argon2::verify_password`: whether the password is the one that
/// the hash was made of. Text that is no hash is matched by no password, so
/// the answer depends on the two texts alone.
#[verifier::external_body]
pub fn verify_password(password: &str, hash: &str) -> (r: bool)
    ensures
        r == password_matches(password@, hash@),
{
    let check = |h| argon2::Argon2::default().verify_password(password.as_bytes(), &h).is_ok();
    PasswordHash::new(hash).map(check).unwrap_or(false)
}

/// A new token: 64 hexadecimal digits.
pub fn random_token() -> (r: String)
    ensures
        exists|b: Seq<u8>| b.len() == 32 && r@ == #[trigger] hex_text(b),
{
    let bytes = random_bytes(32);
    hex_encode(bytes.as_slice())
}

/// A new upload id: 32 hexadecimal digits.
pub fn random_id() -> (r: String)
    ensures
        exists|b: Seq<u8>| b.len() == 16 && r@ == #[trigger] hex_text(b),
{
    let bytes = random_bytes(16);
    hex_encode(bytes.as_slice())
}

/// How long a token is good for, in nanoseconds.
pub const TOKEN_TTL: u64 = 3_600_000_000_000;

/// What a token stands for. Times are nanoseconds since 1970.
pub struct Claims {
    pub username: String,
    pub repository: String,
    pub actions: Vec<String>,
    pub expires_at: u64,
}

/// The mathematical content of [`Claims`].
#[verifier::ext_equal]
pub struct ClaimsView {
    pub username: Seq<char>,
    pub repository: Seq<char>,
    pub actions: Seq<Seq<char>>,
    pub expires_at: u64,
}

impl View for Claims {
    type V = ClaimsView;

    open spec fn view(&self) -> ClaimsView {
        ClaimsView {
            username: self.username@,
            repository: self.repository@,
            actions: views(self.actions@),
            expires_at: self.expires_at,
        }
    }
}

/// The tokens handed out so far, in order; of two that are equal the later counts.
pub struct TokenStore {
    pub tokens: Vec<(String, Claims)>,
}

impl View for TokenStore {
    type V = Seq<(Seq<char>, ClaimsView)>;

    open spec fn view(&self) -> Seq<(Seq<char>, ClaimsView)> {
        self.tokens@.map_values(|t: (String, Claims)| (t.0@, t.1@))
    }
}

/// What a token stands for.
pub open spec fn claims_of(tokens: Seq<(Seq<char>, ClaimsView)>, token: Seq<char>) -> Option<ClaimsView>
    decreases tokens.len(),
{
    if tokens.len() == 0 {
        None
    } else if tokens.last().0 == token {
        Some(tokens.last().1)
    } else {
        claims_of(tokens.drop_last(), token)
    }
}

/// What a token issued at `now` stands for.
pub open spec fn claims_for(username: Seq<char>, repository: Seq<char>, actions: Seq<Seq<char>>, now: u64) -> ClaimsView {
    ClaimsView { username, repository, actions, expires_at: (now + TOKEN_TTL) as u64 }
}

/// Whether a token is known, not expired, and was granted `action` for
/// exactly `repository`.
pub open spec fn is_good(
    tokens: Seq<(Seq<char>, ClaimsView)>,
    token: Seq<char>,
    repository: Seq<char>,
    action: Seq<char>,
    now: u64,
) -> bool {
    claims_of(tokens, token) matches Some(c) && c.repository == repository && covers(c, action, now)
}

/// The part of a repository's name in front of the first slash: its owner.
pub open spec fn owner_of(repository: Seq<char>) -> Seq<char> {
    match cut_first(repository, '/') {
        Some((owner, _)) => owner,
        None => repository,
    }
}

/// Whether a token is known, not expired, and was granted `action` for some
/// repository of `owner`'s.
pub open spec fn is_good_for_owner(
    tokens: Seq<(Seq<char>, ClaimsView)>,
    token: Seq<char>,
    owner: Seq<char>,
    action: Seq<char>,
    now: u64,
) -> bool {
    claims_of(tokens, token) matches Some(c) && owner_of(c.repository) == owner && covers(c, action, now)
}

/// Whether claims cover an action at a time.
pub open spec fn covers(c: ClaimsView, action: Seq<char>, now: u64) -> bool {
    c.actions.contains(action) && c.expires_at > now
}

/// The part of a repository's name in front of the first slash.
pub fn owner<'a>(repository: &'a str) -> (r: &'a str)
    ensures
        r@ == owner_of(repository@),
{
    match split_once(repository, '/') {
        Some((owner, _)) => owner,
        None => repository,
    }
}

impl Default for TokenStore {
    fn default() -> (r: TokenStore)
        ensures
            r@ == Seq::<(Seq<char>, ClaimsView)>::empty(),
    {
        TokenStore::new()
    }
}

impl TokenStore {
    /// No tokens yet.
    pub fn new() -> (r: TokenStore)
        ensures
            r@ == Seq::<(Seq<char>, ClaimsView)>::empty(),
    {
        let r = TokenStore { tokens: Vec::new() };
        assert(r@ =~= Seq::<(Seq<char>, ClaimsView)>::empty());
        r
    }

    /// Remembers what `token` stands for from `now` on.
    pub fn remember(&mut self, token: &str, username: &str, repository: &str, actions: Vec<String>, now: u64)
        requires
            now + TOKEN_TTL <= u64::MAX,
        ensures
            final(self)@ == old(self)@.push(
                (token@, claims_for(username@, repository@, views(actions@), now)),
            ),
    {
        let claims = Claims {
            username: username.to_owned(),
            repository: repository.to_owned(),
            actions,
            expires_at: now + TOKEN_TTL,
        };
        let ghost before = self@;
        let entry = (token.to_owned(), claims);
        self.tokens.push(entry);
        assert(self@ =~= before.push((entry.0@, entry.1@)));
    }

    /// A new token for these actions on a repository.
    pub fn issue(&mut self, username: &str, repository: &str, actions: Vec<String>, now: u64) -> (r: String)
        requires
            now + TOKEN_TTL <= u64::MAX,
        ensures
            exists|b: Seq<u8>| b.len() == 32 && r@ == #[trigger] hex_text(b),
            final(self)@ == old(self)@.push(
                (r@, claims_for(username@, repository@, views(actions@), now)),
            ),
    {
        let token = random_token();
        self.remember(token.as_str(), username, repository, actions, now);
        token
    }

    /// What a token stands for.
    pub fn claims<'a>(&'a self, token: &str) -> (r: Option<&'a Claims>)
        ensures
            match r {
                Some(c) => claims_of(self@, token@) == Some(c@),
                None => claims_of(self@, token@) is None,
            },
    {
        let ghost all = self@;
        let mut n: usize = self.tokens.len();
        assert(all.take(n as int) =~= all);
        while n > 0
            invariant
                n <= self.tokens@.len(),
                all == self@,
                claims_of(all, token@) == claims_of(all.take(n as int), token@),
            decreases n,
        {
            let t = &self.tokens[n - 1];
            proof {
                assert(all.take(n as int).last() == (t.0@, t.1@));
                assert(all.take(n as int).drop_last() =~= all.take(n - 1));
            }
            if str_eq(t.0.as_str(), token) {
                return Some(&t.1);
            }
            n -= 1;
        }
        None
    }

    /// Whether a token is known, not expired, and was granted `action` for
    /// exactly `repository`.
    pub fn validate(&self, token: &str, repository: &str, action: &str, now: u64) -> (r: bool)
        ensures
            r == is_good(self@, token@, repository@, action@, now),
    {
        match self.claims(token) {
            Some(c) => str_eq(c.repository.as_str(), repository) && granted(&c.actions, action) && c.expires_at > now,
            None => false,
        }
    }

    /// Whether a token is known, not expired, and was granted `action` for
    /// some repository of `owner`'s.
    pub fn validate_for_owner(&self, token: &str, owner_name: &str, action: &str, now: u64) -> (r: bool)
        ensures
            r == is_good_for_owner(self@, token@, owner_name@, action@, now),
    {
        match self.claims(token) {
            Some(c) => str_eq(owner(c.repository.as_str()), owner_name) && granted(&c.actions, action)
                && c.expires_at > now,
            None => false,
        }
    }
}

/// Whether `action` is among `actions`.
pub fn granted(actions: &Vec<String>, action: &str) -> (r: bool)
    ensures
        r == views(actions@).contains(action@),
{
    crate::store::listed(actions, action)
}

/// A new token is good for exactly the repository and the actions it was
/// issued for, until its time is up, and changes nothing for other tokens.
pub proof fn issued_token_is_good(
    tokens: Seq<(Seq<char>, ClaimsView)>,
    token: Seq<char>,
    username: Seq<char>,
    repository: Seq<char>,
    actions: Seq<Seq<char>>,
    issued: u64,
)
    requires
        issued + TOKEN_TTL <= u64::MAX,
    ensures
        ({
            let after = tokens.push((token, claims_for(username, repository, actions, issued)));
            &&& forall|r: Seq<char>, a: Seq<char>, now: u64|
                #[trigger] is_good(after, token, r, a, now) <==> r == repository && actions.contains(a) && now < issued
                    + TOKEN_TTL
            &&& forall|other: Seq<char>, r: Seq<char>, a: Seq<char>, now: u64|
                other != token ==> #[trigger] is_good(after, other, r, a, now) == is_good(tokens, other, r, a, now)
        }),
{
    let claims = claims_for(username, repository, actions, issued);
    assert(tokens.push((token, claims)).drop_last() =~= tokens);
}

/// A new token is good for exactly the owner of the repository and the actions
/// it was issued for, until its time is up, and changes nothing for other
/// tokens.
pub proof fn issued_token_is_good_for_the_owner(
    tokens: Seq<(Seq<char>, ClaimsView)>,
    token: Seq<char>,
    username: Seq<char>,
    repository: Seq<char>,
    actions: Seq<Seq<char>>,
    issued: u64,
)
    requires
        issued + TOKEN_TTL <= u64::MAX,
    ensures
        ({
            let after = tokens.push((token, claims_for(username, repository, actions, issued)));
            &&& forall|o: Seq<char>, a: Seq<char>, now: u64|
                #[trigger] is_good_for_owner(after, token, o, a, now) <==> o == owner_of(repository)
                    && actions.contains(a) && now < issued + TOKEN_TTL
            &&& forall|other: Seq<char>, o: Seq<char>, a: Seq<char>, now: u64|
                other != token ==> #[trigger] is_good_for_owner(after, other, o, a, now) == is_good_for_owner(
                    tokens,
                    other,
                    o,
                    a,
                    now,
                )
        }),
{
    let claims = claims_for(username, repository, actions, issued);
    assert(tokens.push((token, claims)).drop_last() =~= tokens);
}

/// A token that is good for a repository is good for the owner of it.
pub proof fn good_tokens_are_good_for_the_owner(
    tokens: Seq<(Seq<char>, ClaimsView)>,
    token: Seq<char>,
    repository: Seq<char>,
    action: Seq<char>,
    now: u64,
)
    requires
        is_good(tokens, token, repository, action, now),
    ensures
        is_good_for_owner(tokens, token, owner_of(repository), action, now),
{
}

/// A token that was never issued is good for nothing.
pub proof fn unknown_tokens_are_no_good(
    tokens: Seq<(Seq<char>, ClaimsView)>,
    token: Seq<char>,
    repository: Seq<char>,
    action: Seq<char>,
    now: u64,
)
    requires
        forall|i: int| 0 <= i < tokens.len() ==> (#[trigger] tokens[i]).0 != token,
    ensures
        claims_of(tokens, token) is None,
        !is_good(tokens, token, repository, action, now),
        !is_good_for_owner(tokens, token, owner_of(repository), action, now),
    decreases tokens.len(),
{
    if tokens.len() > 0 {
        let before = tokens.drop_last();
        assert forall|i: int| 0 <= i < before.len() implies (#[trigger] before[i]).0 != token by {
            assert(before[i] == tokens[i]);
        }
        unknown_tokens_are_no_good(before, token, repository, action, now);
        assert(tokens[tokens.len() - 1].0 != token);
    }
}

/// A repository belongs to whoever its name begins with, up to the first
/// slash; a name without one is its own owner.
pub proof fn owners_are_named_first(owner: Seq<char>, rest: Seq<char>)
    requires
        !owner.contains('/'),
    ensures
        owner_of(owner + seq!['/'] + rest) == owner,
        owner_of(owner) == owner,
{
    crate::text::texts_are_cut_in_front(owner, '/', rest);
    crate::text::whole_texts_are_not_cut(owner, '/');
}

/// A token is good for an hour, to the nanosecond.
pub proof fn tokens_last_an_hour(
    username: Seq<char>,
    repository: Seq<char>,
    actions: Seq<Seq<char>>,
    action: Seq<char>,
    issued: u64,
    now: u64,
)
    requires
        issued + 3600 * 1_000_000_000 <= u64::MAX,
        actions.contains(action),
    ensures
        covers(claims_for(username, repository, actions, issued), action, now) <==> now < issued + 3600
            * 1_000_000_000,
{
}

} // verus!

//! The registry server's data: user accounts, blobs and manifests, in plain
//! files under one directory.
//!
//! ```text
//! <data-dir>/
//!   users.json
//!   audit.log
//!   blobs/sha256/<hex>
//!   manifests/<repository>/<tag>.json
//!   manifests/<repository>/<tag>.sig.json
//! ```

use crate::codec::{bytes_of, json_opt_str, json_opt_string, json_str, json_string};
use crate::image::{copy_opt, opt_text};
use crate::num::{is_lower_hex, lower_hex};
use crate::paths::{joined_path, path_join};
use crate::pretty::{
    add_line, array_lines, arrays_show_their_items, laid_array, laid_member, laid_object, members_show_their_values,
    object_lines, objects_show_their_members, optional_strings_show_their_text, strings_show_their_text, told_apart,
};
use crate::store::{listed, FileWrite};
use crate::text::{
    cat2, chars_of, contains_char, contains_str, has_run, joined, lemma_pieces_nonempty, pieces, pieces_make_the_text,
    prefixes_and_suffixes_come_off, texts_are_cut_behind, split, str_eq, strip_prefix, strip_suffix, views,
    without_prefix, without_suffix,
};
use vstd::prelude::*;
use vstd::utf8::encode_utf8;

verus! {

/// What an account may do. Every account may pull anything.
#[derive(Debug, Clone, Copy, PartialEq, Eq, Structural)]
pub enum Role {
    /// Push to the repositories under its own name.
    Push,
    /// Never push.
    Pull,
    /// Push anywhere.
    Admin,
}

impl Default for Role {
    fn default() -> (r: Role)
        ensures
            r == Role::Push,
    {
        Role::Push
    }
}

/// How a role is written.
pub open spec fn role_text(r: Role) -> Seq<char> {
    match r {
        Role::Push => "push"@,
        Role::Pull => "pull"@,
        Role::Admin => "admin"@,
    }
}

impl Role {
    /// How the role is written.
    pub fn name(self) -> (r: &'static str)
        ensures
            r@ == role_text(self),
    {
        match self {
            Role::Push => "push",
            Role::Pull => "pull",
            Role::Admin => "admin",
        }
    }

    /// The role that is written `s`.
    pub fn parse(s: &str) -> (r: Option<Role>)
        ensures
            match r {
                Some(role) => s@ == role_text(role),
                None => forall|role: Role| s@ != #[trigger] role_text(role),
            },
    {
        if str_eq(s, "push") {
            Some(Role::Push)
        } else if str_eq(s, "pull") {
            Some(Role::Pull)
        } else if str_eq(s, "admin") {
            Some(Role::Admin)
        } else {
            None
        }
    }
}

/// An account.
pub struct User {
    pub username: String,
    pub password_hash: String,
    /// The key its images are signed with, once it has published one.
    pub public_key: Option<String>,
    pub role: Role,
}

/// The mathematical content of a [`User`].
#[verifier::ext_equal]
pub struct UserView {
    pub username: Seq<char>,
    pub password_hash: Seq<char>,
    pub public_key: Option<Seq<char>>,
    pub role: Role,
}

impl View for User {
    type V = UserView;

    open spec fn view(&self) -> UserView {
        UserView {
            username: self.username@,
            password_hash: self.password_hash@,
            public_key: opt_text(self.public_key),
            role: self.role,
        }
    }
}

/// The contents of accounts.
pub open spec fn user_views(v: Seq<User>) -> Seq<UserView> {
    v.map_values(|u: User| u@)
}

/// The members of an account that the file of accounts holds.
pub open spec fn user_line_members(u: UserView) -> Seq<Seq<char>> {
    seq![
        laid_member("username"@, json_string(u.username)),
        laid_member("password_hash"@, json_string(u.password_hash)),
        laid_member("public_key"@, json_opt_string(u.public_key)),
        laid_member("role"@, json_string(role_text(u.role))),
    ]
}

/// What the file of accounts holds.
pub open spec fn users_file_text(users: Seq<UserView>) -> Seq<char> {
    laid_array(users.map_values(|u: UserView| laid_object(user_line_members(u), 1)), 0)
}

impl User {
    /// The account as the file of accounts holds it.
    fn lines(&self) -> (r: String)
        ensures
            r@ == laid_object(user_line_members(self@), 1),
    {
        let username = json_str(self.username.as_str());
        let password_hash = json_str(self.password_hash.as_str());
        let public_key = json_opt_str(&self.public_key);
        let role = json_str(self.role.name());
        let mut members: Vec<String> = Vec::new();
        add_line(&mut members, "username", username.as_str());
        add_line(&mut members, "password_hash", password_hash.as_str());
        add_line(&mut members, "public_key", public_key.as_str());
        add_line(&mut members, "role", role.as_str());
        assert(views(members@) =~= user_line_members(self@));
        object_lines(&members, 1)
    }
}

/// The index of the first account with this name.
pub open spec fn user_index(users: Seq<UserView>, name: Seq<char>) -> Option<int>
    decreases users.len(),
{
    if users.len() == 0 {
        None
    } else {
        match user_index(users.drop_last(), name) {
            Some(i) => Some(i),
            None => if users.last().username == name {
                Some(users.len() - 1)
            } else {
                None
            },
        }
    }
}

/// The account with this name.
pub open spec fn user_named(users: Seq<UserView>, name: Seq<char>) -> Option<UserView> {
    match user_index(users, name) {
        Some(i) => Some(users[i]),
        None => None,
    }
}

/// The first account with a name stays the first.
proof fn lemma_user_index(users: Seq<UserView>, n: int, name: Seq<char>)
    requires
        0 <= n <= users.len(),
    ensures
        user_index(users.take(n), name) matches Some(i) ==> 0 <= i < n && user_index(users, name) == Some(i)
            && users[i].username == name,
    decreases users.len(),
{
    if n == users.len() {
        assert(users.take(n) =~= users);
        if n > 0 {
            assert(users.drop_last() =~= users.take(n - 1));
            assert(users.take(n - 1).take(n - 1) =~= users.take(n - 1));
            lemma_user_index(users.take(n - 1), n - 1, name);
        }
    } else {
        assert(users.drop_last().take(n) =~= users.take(n));
        lemma_user_index(users.drop_last(), n, name);
    }
}

/// Where the account with this name is.
pub fn find_user_index(users: &Vec<User>, name: &str) -> (r: Option<usize>)
    ensures
        match r {
            Some(i) => i < users@.len() && user_index(user_views(users@), name@) == Some(i as int)
                && users@[i as int].username@ == name@,
            None => user_index(user_views(users@), name@) is None,
        },
{
    let ghost all = user_views(users@);
    let mut i: usize = 0;
    assert(all.take(0) =~= Seq::<UserView>::empty());
    while i < users.len()
        invariant
            i <= users@.len(),
            all == user_views(users@),
            user_index(all.take(i as int), name@) is None,
        decreases users.len() - i,
    {
        proof {
            assert(all.take(i + 1).drop_last() =~= all.take(i as int));
            assert(all.take(i + 1).last() == users@[i as int]@);
        }
        if str_eq(users[i].username.as_str(), name) {
            proof {
                lemma_user_index(all, i + 1, name@);
            }
            return Some(i);
        }
        i += 1;
    }
    assert(all.take(i as int) =~= all);
    None
}

/// The accounts after `name` was added, or given a new password: an account
/// that exists keeps its role unless one is given, and its key in any case.
pub open spec fn with_account(
    users: Seq<UserView>,
    name: Seq<char>,
    password_hash: Seq<char>,
    role: Option<Role>,
) -> Seq<UserView> {
    match user_index(users, name) {
        Some(i) => users.update(
            i,
            UserView {
                password_hash,
                role: match role {
                    Some(r) => r,
                    None => users[i].role,
                },
                ..users[i]
            },
        ),
        None => users.push(
            UserView {
                username: name,
                password_hash,
                public_key: None,
                role: match role {
                    Some(r) => r,
                    None => Role::Push,
                },
            },
        ),
    }
}

/// Adds an account, or gives an existing one a new password.
pub fn add_user(users: &mut Vec<User>, name: &str, password_hash: String, role: Option<Role>)
    ensures
        user_views(final(users)@) == with_account(user_views(old(users)@), name@, password_hash@, role),
{
    let ghost all = user_views(users@);
    match find_user_index(users, name) {
        Some(i) => {
            let u = User {
                username: users[i].username.clone(),
                password_hash,
                public_key: copy_opt(&users[i].public_key),
                role: match role {
                    Some(r) => r,
                    None => users[i].role,
                },
            };
            users.set(i, u);
            assert(user_views(users@) =~= all.update(i as int, u@));
        },
        None => {
            let u = User {
                username: name.to_owned(),
                password_hash,
                public_key: None,
                role: match role {
                    Some(r) => r,
                    None => Role::default(),
                },
            };
            users.push(u);
            assert(user_views(users@) =~= all.push(u@));
        },
    }
}

/// The accounts with another role for `name`.
pub open spec fn with_role(users: Seq<UserView>, name: Seq<char>, role: Role) -> Option<Seq<UserView>> {
    match user_index(users, name) {
        Some(i) => Some(users.update(i, UserView { role, ..users[i] })),
        None => None,
    }
}

/// The accounts with another key for `name`; without such an account, none changes.
pub open spec fn with_public_key(users: Seq<UserView>, name: Seq<char>, key: Seq<char>) -> Seq<UserView> {
    match user_index(users, name) {
        Some(i) => users.update(i, UserView { public_key: Some(key), ..users[i] }),
        None => users,
    }
}

/// Changing a role leaves every account's name, password and key alone, and
/// every other account's role.
pub proof fn role_change_keeps_the_rest(users: Seq<UserView>, name: Seq<char>, role: Role, other: Seq<char>)
    requires
        with_role(users, name, role) is Some,
    ensures
        ({
            let after = with_role(users, name, role)->0;
            &&& user_named(after, name) matches Some(u) && u == (UserView { role, ..user_named(users, name)->0 })
            &&& other != name ==> user_named(after, other) == user_named(users, other)
        }),
{
    let i = user_index(users, name)->0;
    assert(users.take(users.len() as int) =~= users);
    lemma_user_index(users, users.len() as int, name);
    let after = users.update(i, UserView { role, ..users[i] });
    lemma_same_names(users, after, name);
    lemma_same_names(users, after, other);
    assert(user_index(users, other) is Some ==> user_index(users, other)->0 < users.len()) by {
        lemma_user_index(users, users.len() as int, other);
    }
    if other != name && user_index(users, other) is Some {
        lemma_user_index(users, users.len() as int, other);
    }
}

/// Where names are the same, accounts are found in the same places.
proof fn lemma_same_names(a: Seq<UserView>, b: Seq<UserView>, name: Seq<char>)
    requires
        a.len() == b.len(),
        forall|i: int| 0 <= i < a.len() ==> (#[trigger] a[i]).username == b[i].username,
    ensures
        user_index(a, name) == user_index(b, name),
    decreases a.len(),
{
    if a.len() > 0 {
        assert forall|i: int| 0 <= i < a.drop_last().len() implies (#[trigger] a.drop_last()[i]).username
            == b.drop_last()[i].username by {
            assert(a[i].username == b[i].username);
        }
        lemma_same_names(a.drop_last(), b.drop_last(), name);
        assert(a[a.len() - 1].username == b[b.len() - 1].username);
    }
}

// ---- Files -----------------------------------------------------------------

/// The hexadecimal part of a digest that names a blob.
pub open spec fn digest_hex(digest: Seq<char>) -> Option<Seq<char>> {
    match without_prefix(digest, "sha256:"@) {
        Some(hex) => if hex.len() == 64 && (forall|i: int| 0 <= i < hex.len() ==> is_lower_hex(#[trigger] hex[i])) {
            Some(hex)
        } else {
            None
        },
        None => None,
    }
}

/// Whether a part of a repository's name is refused.
pub open spec fn bad_component(c: Seq<char>) -> bool {
    c.len() == 0 || c == "."@ || c == ".."@
}

/// The directory that the parts of a repository's name lead to, below `base`.
pub open spec fn directory_of(base: Seq<char>, parts: Seq<Seq<char>>) -> Option<Seq<char>>
    decreases parts.len(),
{
    if parts.len() == 0 {
        Some(base)
    } else {
        match directory_of(base, parts.drop_last()) {
            Some(dir) => if bad_component(parts.last()) {
                None
            } else {
                Some(joined_path(dir, parts.last()))
            },
            None => None,
        }
    }
}

/// Whether a tag can name a file. One that ends in `.sig` cannot: its
/// manifest would stand where the signature of another tag does.
pub open spec fn good_tag(tag: Seq<char>) -> bool {
    tag.len() > 0 && !tag.contains('/') && !has_run(tag, ".."@) && without_suffix(tag, ".sig"@) is None
}

/// The registry server's data directory.
pub struct RegistryStore {
    pub data_dir: String,
}

impl RegistryStore {
    /// Where blobs live.
    pub open spec fn blobs(&self) -> Seq<char> {
        joined_path(joined_path(self.data_dir@, "blobs"@), "sha256"@)
    }

    /// Where manifests live.
    pub open spec fn manifests(&self) -> Seq<char> {
        joined_path(self.data_dir@, "manifests"@)
    }

    /// The file of the blob with this digest.
    pub open spec fn blob_file(&self, digest: Seq<char>) -> Option<Seq<char>> {
        match digest_hex(digest) {
            Some(hex) => Some(joined_path(self.blobs(), hex)),
            None => None,
        }
    }

    /// The directory of a repository.
    pub open spec fn repository_dir(&self, repository: Seq<char>) -> Option<Seq<char>> {
        directory_of(self.manifests(), pieces(repository, '/'))
    }

    /// The file of a tag with the given ending.
    pub open spec fn tag_file(&self, repository: Seq<char>, tag: Seq<char>, ending: Seq<char>) -> Option<Seq<char>> {
        if good_tag(tag) {
            match self.repository_dir(repository) {
                Some(dir) => Some(joined_path(dir, tag + ending)),
                None => None,
            }
        } else {
            None
        }
    }

    /// The server's data at `data_dir`, with the directories that must exist.
    pub fn open(data_dir: String) -> (r: (RegistryStore, Vec<String>))
        ensures
            r.0.data_dir@ == data_dir@,
            views(r.1@) == seq![r.0.blobs(), r.0.manifests()],
    {
        let store = RegistryStore { data_dir };
        let mut dirs: Vec<String> = Vec::new();
        dirs.push(store.blobs_dir());
        dirs.push(path_join(store.data_dir.as_str(), "manifests"));
        assert(views(dirs@) =~= seq![store.blobs(), store.manifests()]);
        (store, dirs)
    }

    /// Where blobs live.
    pub fn blobs_dir(&self) -> (r: String)
        ensures
            r@ == self.blobs(),
    {
        let blobs = path_join(self.data_dir.as_str(), "blobs");
        path_join(blobs.as_str(), "sha256")
    }

    /// The file that holds the accounts.
    pub fn users_path(&self) -> (r: String)
        ensures
            r@ == joined_path(self.data_dir@, "users.json"@),
    {
        path_join(self.data_dir.as_str(), "users.json")
    }

    /// The accounts, given what reading their file came to (`None` if there is
    /// no such file, or it does not hold accounts): without them there are none.
    pub fn load_users(&self, read: Option<Vec<User>>) -> (r: Vec<User>)
        ensures
            match read {
                Some(users) => r == users,
                None => r@.len() == 0,
            },
    {
        match read {
            Some(users) => users,
            None => Vec::new(),
        }
    }

    /// The file of accounts as it has to be written.
    pub fn save_users(&self, users: &Vec<User>) -> (r: FileWrite)
        ensures
            r.dir@ == self.data_dir@,
            r.path@ == joined_path(self.data_dir@, "users.json"@),
            r.content@ == encode_utf8(users_file_text(user_views(users@))),
    {
        let ghost all = user_views(users@).map_values(|u: UserView| laid_object(user_line_members(u), 1));
        let mut items: Vec<String> = Vec::new();
        let mut i: usize = 0;
        while i < users.len()
            invariant
                i <= users@.len(),
                all == user_views(users@).map_values(|u: UserView| laid_object(user_line_members(u), 1)),
                views(items@) == all.take(i as int),
            decreases users.len() - i,
        {
            let item = users[i].lines();
            assert(all[i as int] == item@);
            assert(all.take(i + 1) =~= all.take(i as int).push(item@));
            assert(views(items@.push(item)) =~= views(items@).push(item@));
            items.push(item);
            i += 1;
        }
        assert(all.take(i as int) =~= all);
        let text = array_lines(&items, 0);
        FileWrite { dir: self.data_dir.clone(), path: self.users_path(), content: bytes_of(text.as_str()) }
    }

    /// The file that records what was authorized and what was refused.
    pub fn audit_log_path(&self) -> (r: String)
        ensures
            r@ == joined_path(self.data_dir@, "audit.log"@),
    {
        path_join(self.data_dir.as_str(), "audit.log")
    }

    /// The account with this name.
    pub fn find_user<'a>(&self, users: &'a Vec<User>, name: &str) -> (r: Option<&'a User>)
        ensures
            match r {
                Some(u) => user_named(user_views(users@), name@) == Some(u@),
                None => user_named(user_views(users@), name@) is None,
            },
    {
        match find_user_index(users, name) {
            Some(i) => Some(&users[i]),
            None => None,
        }
    }

    /// Gives an account another role; its password is not touched.
    pub fn set_role(&self, users: &mut Vec<User>, name: &str, role: Role) -> (r: Result<(), String>)
        ensures
            match r {
                Ok(_) => with_role(user_views(old(users)@), name@, role) == Some(user_views(final(users)@)),
                Err(m) => with_role(user_views(old(users)@), name@, role) is None && *final(users) == *old(users) && m@
                    == "no such user: "@ + name@,
            },
    {
        let ghost all = user_views(users@);
        match find_user_index(users, name) {
            Some(i) => {
                let u = User {
                    username: users[i].username.clone(),
                    password_hash: users[i].password_hash.clone(),
                    public_key: copy_opt(&users[i].public_key),
                    role,
                };
                users.set(i, u);
                assert(user_views(users@) =~= all.update(i as int, u@));
                Ok(())
            },
            None => Err(cat2("no such user: ", name)),
        }
    }

    /// Sets an account's key, and says whether there is something to save.
    pub fn set_public_key(&self, users: &mut Vec<User>, name: &str, key: &str) -> (r: bool)
        ensures
            user_views(final(users)@) == with_public_key(user_views(old(users)@), name@, key@),
            r == (user_index(user_views(old(users)@), name@) is Some),
    {
        let ghost all = user_views(users@);
        match find_user_index(users, name) {
            Some(i) => {
                let u = User {
                    username: users[i].username.clone(),
                    password_hash: users[i].password_hash.clone(),
                    public_key: Some(key.to_owned()),
                    role: users[i].role,
                };
                users.set(i, u);
                assert(user_views(users@) =~= all.update(i as int, u@));
                true
            },
            None => false,
        }
    }

    /// The file of the blob with this digest: `sha256:` and 64 hexadecimal
    /// digits in lower case. Anything else names no blob.
    pub fn blob_path(&self, digest: &str) -> (r: Option<String>)
        ensures
            match r {
                Some(p) => self.blob_file(digest@) == Some(p@),
                None => self.blob_file(digest@) is None,
            },
    {
        match strip_prefix(digest, "sha256:") {
            None => None,
            Some(hex) => {
                let chars = chars_of(hex);
                if chars.len() != 64 {
                    return None;
                }
                let mut i: usize = 0;
                while i < 64
                    invariant
                        i <= 64,
                        chars@ == hex@,
                        chars@.len() == 64,
                        without_prefix(digest@, "sha256:"@) == Some(hex@),
                        forall|j: int| 0 <= j < i ==> is_lower_hex(#[trigger] hex@[j]),
                    decreases 64 - i,
                {
                    if !lower_hex(chars[i]) {
                        assert(!is_lower_hex(hex@[i as int]));
                        return None;
                    }
                    i += 1;
                }
                let dir = self.blobs_dir();
                Some(path_join(dir.as_str(), hex))
            },
        }
    }

    /// The directory of a repository. A name with an empty, `.` or `..` part
    /// is refused rather than tidied up.
    pub fn repo_dir(&self, repository: &str) -> (r: Option<String>)
        ensures
            match r {
                Some(p) => self.repository_dir(repository@) == Some(p@),
                None => self.repository_dir(repository@) is None,
            },
    {
        let parts = split(repository, '/');
        let ghost all = views(parts@);
        let ghost base = self.manifests();
        let mut path = path_join(self.data_dir.as_str(), "manifests");
        let mut i: usize = 0;
        assert(all.take(0) =~= Seq::<Seq<char>>::empty());
        while i < parts.len()
            invariant
                i <= parts@.len(),
                all == views(parts@),
                all == pieces(repository@, '/'),
                base == self.manifests(),
                directory_of(base, all.take(i as int)) == Some(path@),
            decreases parts.len() - i,
        {
            proof {
                assert(all.take(i + 1).drop_last() =~= all.take(i as int));
                assert(all.take(i + 1).last() == parts@[i as int]@);
            }
            let part = parts[i].as_str();
            if part.unicode_len() == 0 || str_eq(part, ".") || str_eq(part, "..") {
                proof {
                    lemma_refused_stays(base, all, i + 1);
                }
                return None;
            }
            path = path_join(path.as_str(), part);
            i += 1;
        }
        assert(all.take(i as int) =~= all);
        Some(path)
    }

    /// The file of a tag with the given ending.
    fn tagged(&self, repository: &str, tag: &str, ending: &str) -> (r: Option<String>)
        ensures
            match r {
                Some(p) => self.tag_file(repository@, tag@, ending@) == Some(p@),
                None => self.tag_file(repository@, tag@, ending@) is None,
            },
    {
        if tag.unicode_len() == 0 || contains_char(tag, '/') || contains_str(tag, "..") {
            return None;
        }
        if strip_suffix(tag, ".sig").is_some() {
            return None;
        }
        match self.repo_dir(repository) {
            Some(dir) => {
                let name = cat2(tag, ending);
                Some(path_join(dir.as_str(), name.as_str()))
            },
            None => None,
        }
    }

    /// The file of a repository's manifest under a tag.
    pub fn manifest_path(&self, repository: &str, tag: &str) -> (r: Option<String>)
        ensures
            match r {
                Some(p) => self.tag_file(repository@, tag@, ".json"@) == Some(p@),
                None => self.tag_file(repository@, tag@, ".json"@) is None,
            },
    {
        self.tagged(repository, tag, ".json")
    }

    /// The file of the signature of a manifest.
    pub fn signature_path(&self, repository: &str, tag: &str) -> (r: Option<String>)
        ensures
            match r {
                Some(p) => self.tag_file(repository@, tag@, ".sig.json"@) == Some(p@),
                None => self.tag_file(repository@, tag@, ".sig.json"@) is None,
            },
    {
        self.tagged(repository, tag, ".sig.json")
    }

    /// The file to write for a blob.
    pub fn write_blob(&self, digest: &str, data: Vec<u8>) -> (r: Option<FileWrite>)
        ensures
            match r {
                Some(w) => w.dir@ == self.blobs() && self.blob_file(digest@) == Some(w.path@) && w.content@ == data@,
                None => self.blob_file(digest@) is None,
            },
    {
        match self.blob_path(digest) {
            Some(path) => Some(FileWrite { dir: self.blobs_dir(), path, content: data }),
            None => None,
        }
    }

    /// The file to write for a manifest.
    pub fn write_manifest(&self, repository: &str, tag: &str, data: Vec<u8>) -> (r: Option<FileWrite>)
        ensures
            match r {
                Some(w) => self.repository_dir(repository@) == Some(w.dir@) && self.tag_file(
                    repository@,
                    tag@,
                    ".json"@,
                ) == Some(w.path@) && w.content@ == data@,
                None => self.tag_file(repository@, tag@, ".json"@) is None,
            },
    {
        match (self.repo_dir(repository), self.manifest_path(repository, tag)) {
            (Some(dir), Some(path)) => Some(FileWrite { dir, path, content: data }),
            _ => None,
        }
    }

    /// The file to write for a signature.
    pub fn write_signature(&self, repository: &str, tag: &str, data: Vec<u8>) -> (r: Option<FileWrite>)
        ensures
            match r {
                Some(w) => self.repository_dir(repository@) == Some(w.dir@) && self.tag_file(
                    repository@,
                    tag@,
                    ".sig.json"@,
                ) == Some(w.path@) && w.content@ == data@,
                None => self.tag_file(repository@, tag@, ".sig.json"@) is None,
            },
    {
        match (self.repo_dir(repository), self.signature_path(repository, tag)) {
            (Some(dir), Some(path)) => Some(FileWrite { dir, path, content: data }),
            _ => None,
        }
    }

    /// Whether the blob with this digest is stored.
    pub fn blob_exists(&self, digest: &str, files: &Vec<String>) -> (r: bool)
        ensures
            r == (self.blob_file(digest@) matches Some(p) && views(files@).contains(p)),
    {
        match self.blob_path(digest) {
            Some(path) => listed(files, path.as_str()),
            None => false,
        }
    }
}

/// Whether the file at `path` below the manifests is a manifest, and not the
/// signature of one.
pub fn is_manifest(path: &str) -> (r: bool)
    ensures
        r == (without_suffix(path@, ".sig.json"@) is None),
{
    strip_suffix(path, ".sig.json").is_none()
}

/// What a tag's file is called shows in its path, behind a slash.
proof fn lemma_tag_file_ends(store: RegistryStore, repository: Seq<char>, tag: Seq<char>, ending: Seq<char>)
    requires
        store.tag_file(repository, tag, ending) is Some,
    ensures
        ({
            let p = store.tag_file(repository, tag, ending)->0;
            let name = tag + ending;
            &&& p.len() > name.len()
            &&& name == p.skip(p.len() - name.len())
            &&& p[p.len() - name.len() - 1] == '/'
        }),
{
    let dir = store.repository_dir(repository)->0;
    let name = tag + ending;
    let p = store.tag_file(repository, tag, ending)->0;
    reveal_strlit("manifests");
    lemma_directory_not_empty(store.manifests(), pieces(repository, '/'));
    assert(name[0] == tag[0]);
    assert(tag[0] != '/') by {
        if tag[0] == '/' {
            assert(tag.contains('/'));
        }
    }
    assert(name =~= p.skip(p.len() - name.len()));
}

/// A directory below one with a name has a name.
proof fn lemma_directory_not_empty(base: Seq<char>, parts: Seq<Seq<char>>)
    requires
        base.len() > 0,
        directory_of(base, parts) is Some,
    ensures
        (directory_of(base, parts)->0).len() > 0,
    decreases parts.len(),
{
    if parts.len() > 0 {
        lemma_directory_not_empty(base, parts.drop_last());
    }
}

/// A manifest never stands where a signature does: no push of a manifest,
/// under whatever repository and tag, makes an image count as signed or
/// replaces a signature.
pub proof fn manifests_are_no_signatures(
    store: RegistryStore,
    repository: Seq<char>,
    tag: Seq<char>,
    other_repository: Seq<char>,
    other_tag: Seq<char>,
)
    requires
        store.tag_file(repository, tag, ".json"@) is Some,
        store.tag_file(other_repository, other_tag, ".sig.json"@) is Some,
    ensures
        store.tag_file(repository, tag, ".json"@) != store.tag_file(other_repository, other_tag, ".sig.json"@),
        without_suffix(store.tag_file(repository, tag, ".json"@)->0, ".sig.json"@) is None,
        without_suffix(store.tag_file(other_repository, other_tag, ".sig.json"@)->0, ".sig.json"@) is Some,
{
    let p = store.tag_file(repository, tag, ".json"@)->0;
    let q = store.tag_file(other_repository, other_tag, ".sig.json"@)->0;
    reveal_strlit(".json");
    reveal_strlit(".sig.json");
    reveal_strlit(".sig");
    lemma_tag_file_ends(store, repository, tag, ".json"@);
    lemma_tag_file_ends(store, other_repository, other_tag, ".sig.json"@);
    let name = other_tag + ".sig.json"@;
    assert(".sig.json"@ =~= q.skip(q.len() - 9)) by {
        assert(q.skip(q.len() - name.len()).skip(other_tag.len() as int) =~= q.skip(q.len() - 9));
        assert(name.skip(other_tag.len() as int) =~= ".sig.json"@);
    }
    assert(".sig.json"@.is_suffix_of(q));
    if ".sig.json"@.is_suffix_of(p) {
        let n = (p.len() - 5 - tag.len()) as int;
        assert(p[p.len() - 9] == '.' && p[p.len() - 8] == 's' && p[p.len() - 7] == 'i' && p[p.len() - 6] == 'g') by {
            let tail = p.subrange(p.len() - 9, p.len() as int);
            assert(tail == ".sig.json"@);
            assert(tail[0] == '.' && tail[1] == 's' && tail[2] == 'i' && tail[3] == 'g');
        }
        assert(p[n - 1] == '/');
        assert(tag.len() >= 4);
        assert forall|k: int| 0 <= k < tag.len() implies tag[k] == p[n + k] by {
            assert((tag + ".json"@)[k] == tag[k]);
            assert(p.skip(n)[k] == p[n + k]);
        }
        assert(".sig"@ =~= tag.subrange(tag.len() - 4, tag.len() as int));
        assert(false);
    }
}

/// Once a part is refused, the whole name is.
proof fn lemma_refused_stays(base: Seq<char>, parts: Seq<Seq<char>>, n: int)
    requires
        0 <= n <= parts.len(),
        directory_of(base, parts.take(n)) is None,
    ensures
        directory_of(base, parts) is None,
    decreases parts.len(),
{
    if n == parts.len() {
        assert(parts.take(n) =~= parts);
    } else {
        assert(parts.drop_last().take(n) =~= parts.take(n));
        lemma_refused_stays(base, parts.drop_last(), n);
    }
}

/// A name with a `.` or `..` part leads nowhere: no repository name reaches
/// outside the manifests.
pub proof fn no_repository_climbs(base: Seq<char>, parts: Seq<Seq<char>>, i: int)
    requires
        0 <= i < parts.len(),
        bad_component(parts[i]),
    ensures
        directory_of(base, parts) is None,
{
    assert(parts.take(i + 1).last() == parts[i]);
    lemma_refused_stays(base, parts, i + 1);
}

/// What a repository's parts lead to lies below the directory they start in.
pub proof fn repositories_stay_below(base: Seq<char>, parts: Seq<Seq<char>>)
    requires
        forall|i: int| 0 <= i < parts.len() ==> !(#[trigger] parts[i]).contains('/'),
        directory_of(base, parts) is Some,
    ensures
        base.is_prefix_of(directory_of(base, parts)->0),
    decreases parts.len(),
{
    if parts.len() > 0 {
        let before = parts.drop_last();
        assert forall|i: int| 0 <= i < before.len() implies !(#[trigger] before[i]).contains('/') by {
            assert(before[i] == parts[i]);
        }
        repositories_stay_below(base, before);
        let dir = directory_of(base, before)->0;
        let part = parts.last();
        assert(part == parts[parts.len() - 1]);
        assert(part[0] != '/') by {
            if part[0] == '/' {
                assert(part.contains('/'));
            }
        }
        let whole = joined_path(dir, part);
        assert(dir.is_prefix_of(whole)) by {
            assert(dir =~= whole.subrange(0, dir.len() as int));
        }
        assert(base =~= whole.subrange(0, base.len() as int));
    }
}

/// A blob's file is named by hexadecimal digits alone, so no digest reaches
/// outside the blobs.
pub proof fn no_digest_climbs(store: RegistryStore, digest: Seq<char>)
    requires
        store.blob_file(digest) is Some,
    ensures
        digest_hex(digest) matches Some(hex) && hex.len() == 64 && !hex.contains('/') && !hex.contains('.'),
{
    let hex = digest_hex(digest)->0;
    assert forall|i: int| 0 <= i < hex.len() implies hex[i] != '/' && hex[i] != '.' by {
        assert(is_lower_hex(hex[i]));
    }
}

/// Accounts in a file can be told apart, and show all that is said of them.
proof fn lemma_user_lines(u: UserView, v: UserView)
    ensures
        ({
            let s = laid_object(user_line_members(u), 1);
            let t = laid_object(user_line_members(v), 1);
            told_apart(s, t) && (s == t ==> u == v)
        }),
{
    reveal_strlit("push");
    reveal_strlit("pull");
    reveal_strlit("admin");
    assert("push"@[2] == 's' && "pull"@[2] == 'l' && "admin"@[2] == 'm');
    let a = user_line_members(u);
    let b = user_line_members(v);
    strings_show_their_text(u.username, v.username);
    strings_show_their_text(u.password_hash, v.password_hash);
    optional_strings_show_their_text(u.public_key, v.public_key);
    strings_show_their_text(role_text(u.role), role_text(v.role));
    members_show_their_values("username"@, json_string(u.username), json_string(v.username));
    members_show_their_values("password_hash"@, json_string(u.password_hash), json_string(v.password_hash));
    members_show_their_values("public_key"@, json_opt_string(u.public_key), json_opt_string(v.public_key));
    members_show_their_values("role"@, json_string(role_text(u.role)), json_string(role_text(v.role)));
    assert forall|i: int| 0 <= i < a.len() && i < b.len() implies told_apart(#[trigger] a[i], b[i]) by {
        assert(i == 0 || i == 1 || i == 2 || i == 3);
    }
    objects_show_their_members(a, b, 1);
    if a == b {
        assert(a[0] == b[0] && a[1] == b[1] && a[2] == b[2] && a[3] == b[3]);
        assert(u =~= v);
    }
}

/// Saved accounts can be read back in one way only: accounts whose files hold
/// the same text are the same.
pub proof fn files_show_the_accounts(c: Seq<UserView>, d: Seq<UserView>)
    requires
        users_file_text(c) == users_file_text(d),
    ensures
        c == d,
{
    let text = |u: UserView| laid_object(user_line_members(u), 1);
    let a = c.map_values(text);
    let b = d.map_values(text);
    assert forall|i: int| 0 <= i < a.len() && i < b.len() implies told_apart(#[trigger] a[i], b[i]) by {
        lemma_user_lines(c[i], d[i]);
    }
    arrays_show_their_items(a, b, 0);
    assert(c.len() == a.len() && d.len() == b.len());
    assert forall|i: int| 0 <= i < c.len() implies c[i] == d[i] by {
        assert(a[i] == b[i]);
        lemma_user_lines(c[i], d[i]);
    }
    assert(c =~= d);
}

// ---- Where things are and who they are -------------------------------------

/// The parts of a name lead to the directory of that name.
proof fn lemma_directory_text(base: Seq<char>, parts: Seq<Seq<char>>)
    requires
        base.len() > 0,
        base.last() != '/',
        parts.len() > 0,
        forall|i: int| 0 <= i < parts.len() ==> !(#[trigger] parts[i]).contains('/'),
        directory_of(base, parts) is Some,
    ensures
        directory_of(base, parts) == Some(base + seq!['/'] + joined(parts, seq!['/'])),
        (directory_of(base, parts)->0).last() != '/',
    decreases parts.len(),
{
    let before = parts.drop_last();
    let part = parts.last();
    assert(part == parts[parts.len() - 1]);
    assert(part.len() > 0 && part[0] != '/' && part.last() != '/') by {
        assert(part.contains(part[0]));
        assert(part.contains(part.last()));
    }
    if before.len() == 0 {
        assert(directory_of(base, before) == Some(base));
        assert(joined(parts, seq!['/']) == part);
        assert(joined_path(base, part) =~= base + seq!['/'] + part);
    } else {
        assert forall|i: int| 0 <= i < before.len() implies !(#[trigger] before[i]).contains('/') by {
            assert(before[i] == parts[i]);
        }
        lemma_directory_text(base, before);
        let dir = directory_of(base, before)->0;
        assert(joined_path(dir, part) =~= dir + seq!['/'] + part);
        assert(joined_path(dir, part) =~= base + seq!['/'] + joined(parts, seq!['/']));
    }
}

/// Pieces between separators hold none.
pub proof fn lemma_pieces_free(s: Seq<char>, c: char)
    ensures
        forall|i: int| 0 <= i < pieces(s, c).len() ==> !(#[trigger] pieces(s, c)[i]).contains(c),
    decreases s.len(),
{
    let p = pieces(s, c);
    if s.len() > 0 {
        let t = s.drop_first();
        lemma_pieces_free(t, c);
        lemma_pieces_nonempty(t, c);
        let q = pieces(t, c);
        assert forall|i: int| 0 <= i < p.len() implies !(#[trigger] p[i]).contains(c) by {
            if s[0] == c {
                if i > 0 {
                    assert(p[i] == q[i - 1]);
                }
            } else if i == 0 {
                assert(!q[0].contains(c));
                if p[0].contains(c) {
                    let k = choose|k: int| 0 <= k < p[0].len() && p[0][k] == c;
                    assert(q[0].contains(q[0][k - 1]));
                }
            } else {
                assert(p[i] == q[i]);
            }
        }
    }
}

/// A tag's file stands under the repository's own name, and is called by the
/// tag.
pub proof fn tags_stand_under_their_repository(
    store: RegistryStore,
    repository: Seq<char>,
    tag: Seq<char>,
    ending: Seq<char>,
)
    requires
        store.tag_file(repository, tag, ending) is Some,
    ensures
        store.tag_file(repository, tag, ending) == Some(
            joined_path(store.data_dir@, "manifests"@) + seq!['/'] + repository + seq!['/'] + tag + ending,
        ),
{
    reveal_strlit("manifests");
    let base = joined_path(store.data_dir@, "manifests"@);
    let parts = pieces(repository, '/');
    assert(base.last() == 's');
    lemma_pieces_nonempty(repository, '/');
    lemma_pieces_free(repository, '/');
    lemma_directory_text(base, parts);
    pieces_make_the_text(repository, '/');
    let dir = store.repository_dir(repository)->0;
    let name = tag + ending;
    assert(name[0] == tag[0] && tag.contains(tag[0]));
    assert(joined_path(dir, name) =~= base + seq!['/'] + repository + seq!['/'] + tag + ending);
}

/// Two tags share a file only if they are the same tag of the same repository.
pub proof fn no_two_tags_share_a_file(
    store: RegistryStore,
    repository: Seq<char>,
    tag: Seq<char>,
    other_repository: Seq<char>,
    other_tag: Seq<char>,
    ending: Seq<char>,
)
    requires
        store.tag_file(repository, tag, ending) is Some,
        store.tag_file(repository, tag, ending) == store.tag_file(other_repository, other_tag, ending),
    ensures
        repository == other_repository,
        tag == other_tag,
{
    tags_stand_under_their_repository(store, repository, tag, ending);
    tags_stand_under_their_repository(store, other_repository, other_tag, ending);
    let base = joined_path(store.data_dir@, "manifests"@) + seq!['/'];
    let p = repository + seq!['/'] + tag;
    let q = other_repository + seq!['/'] + other_tag;
    let s = store.tag_file(repository, tag, ending)->0;
    assert(s =~= base + p + ending);
    assert(s =~= base + q + ending);
    assert(p.len() == q.len());
    assert(p =~= s.subrange(base.len() as int, (base.len() + p.len()) as int));
    assert(q =~= s.subrange(base.len() as int, (base.len() + p.len()) as int));
    texts_are_cut_behind(repository, '/', tag);
    texts_are_cut_behind(other_repository, '/', other_tag);
}

/// A blob has a file exactly if its digest is `sha256:` and 64 hexadecimal
/// digits in lower case, and the file is called by these digits, so no two
/// digests share a file.
pub proof fn blobs_stand_under_their_digest(store: RegistryStore, hex: Seq<char>, other: Seq<char>)
    ensures
        ({
            let good = hex.len() == 64 && forall|i: int|
                0 <= i < 64 ==> '0' <= #[trigger] hex[i] <= '9' || 'a' <= hex[i] <= 'f';
            store.blob_file("sha256:"@ + hex) == if good {
                Some(joined_path(joined_path(store.data_dir@, "blobs"@), "sha256"@) + seq!['/'] + hex)
            } else {
                None
            }
        }),
        store.blob_file(other) is Some ==> exists|h: Seq<char>| other == "sha256:"@ + #[trigger] h.take(64),
{
    reveal_strlit("sha256");
    prefixes_and_suffixes_come_off("sha256:"@, hex, other);
    let good = hex.len() == 64 && forall|i: int| 0 <= i < 64 ==> '0' <= #[trigger] hex[i] <= '9' || 'a' <= hex[i] <= 'f';
    assert(good <==> hex.len() == 64 && forall|i: int| 0 <= i < hex.len() ==> is_lower_hex(#[trigger] hex[i]));
    let dir = store.blobs();
    assert(dir.last() == '6');
    if good {
        assert(hex[0] != '/') by {
            assert('0' <= hex[0] <= '9' || 'a' <= hex[0] <= 'f');
        }
        assert(joined_path(dir, hex) =~= dir + seq!['/'] + hex);
    }
    if store.blob_file(other) is Some {
        let h = digest_hex(other)->0;
        assert(h.take(64) =~= h);
        assert(other == "sha256:"@ + h.take(64));
    }
}

/// An account that was added is found with its new password, and with the role
/// that was given, or the one it had, or that of an account that pushes. Its
/// key stays, and so does every other account.
pub proof fn added_accounts_are_found(
    users: Seq<UserView>,
    name: Seq<char>,
    password_hash: Seq<char>,
    role: Option<Role>,
    other: Seq<char>,
)
    ensures
        ({
            let after = with_account(users, name, password_hash, role);
            let before = user_named(users, name);
            &&& user_named(after, name) matches Some(u) && u.username == name && u.password_hash == password_hash
                && u.role == match (role, before) {
                (Some(r), _) => r,
                (None, Some(b)) => b.role,
                (None, None) => Role::Push,
            } && u.public_key == match before {
                Some(b) => b.public_key,
                None => None,
            }
            &&& other != name ==> user_named(after, other) == user_named(users, other)
            &&& after.len() == users.len() + if before is Some {
                0int
            } else {
                1int
            }
        }),
{
    let after = with_account(users, name, password_hash, role);
    assert(users.take(users.len() as int) =~= users);
    lemma_user_index(users, users.len() as int, name);
    lemma_user_index(users, users.len() as int, other);
    if user_index(users, name) is Some {
        lemma_same_names(users, after, name);
        lemma_same_names(users, after, other);
    } else {
        assert(after.drop_last() =~= users);
    }
}

/// A key that was set is found with its account, and nothing else changes.
pub proof fn set_keys_are_found(users: Seq<UserView>, name: Seq<char>, key: Seq<char>, other: Seq<char>)
    ensures
        ({
            let after = with_public_key(users, name, key);
            &&& user_named(users, name) matches Some(u) ==> user_named(after, name) == Some(
                UserView { public_key: Some(key), ..u },
            )
            &&& user_named(users, name) is None ==> after == users
            &&& other != name ==> user_named(after, other) == user_named(users, other)
        }),
{
    let after = with_public_key(users, name, key);
    assert(users.take(users.len() as int) =~= users);
    lemma_user_index(users, users.len() as int, name);
    lemma_user_index(users, users.len() as int, other);
    if user_index(users, name) is Some {
        lemma_same_names(users, after, name);
        lemma_same_names(users, after, other);
    }
}

/// The account of a name is the first one that has it.
pub proof fn accounts_are_found_by_name(users: Seq<UserView>, name: Seq<char>, i: int)
    requires
        0 <= i < users.len(),
        users[i].username == name,
        forall|k: int| 0 <= k < i ==> (#[trigger] users[k]).username != name,
    ensures
        user_named(users, name) == Some(users[i]),
{
    lemma_no_user(users.take(i), name);
    let upto = users.take(i + 1);
    assert(upto.drop_last() =~= users.take(i));
    assert(upto.last() == users[i]);
    lemma_user_index(users, i + 1, name);
}

/// A name that no account has finds none.
pub proof fn unknown_names_find_no_account(users: Seq<UserView>, name: Seq<char>)
    requires
        forall|k: int| 0 <= k < users.len() ==> (#[trigger] users[k]).username != name,
    ensures
        user_named(users, name) is None,
{
    lemma_no_user(users, name);
}

/// Where no account has a name, none is found.
proof fn lemma_no_user(users: Seq<UserView>, name: Seq<char>)
    requires
        forall|k: int| 0 <= k < users.len() ==> (#[trigger] users[k]).username != name,
    ensures
        user_index(users, name) is None,
    decreases users.len(),
{
    if users.len() > 0 {
        assert forall|k: int| 0 <= k < users.drop_last().len() implies (#[trigger] users.drop_last()[k]).username
            != name by {
            assert(users.drop_last()[k] == users[k]);
        }
        lemma_no_user(users.drop_last(), name);
        assert(users[users.len() - 1].username != name);
    }
}

} // verus!

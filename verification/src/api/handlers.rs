//! What the requests of the management interface carry, and the rules
//! they are answered by.

use crate::api::rbac::{Permission, Role, User};
use crate::sys::{is_random_id, new_id, now_millis};
use crate::text::{chars_of, find_char, piece, position_of_char, lemma_position_of_char};
use vstd::prelude::*;
use vstd::string::*;

verus! {

#[derive(Debug)]
pub struct CreateSnapshotRequest {
    pub name: Option<String>,
    pub comment: Option<String>,
}

#[derive(Debug)]
pub struct RestoreSnapshotRequest {
    pub snapshot_name: String,
}

#[derive(Debug)]
pub struct CloneFromSnapshotRequest {
    pub snapshot_name: String,
    pub new_container_name: String,
}

#[derive(Debug)]
pub struct CreateUserRequest {
    pub username: String,
    pub email: Option<String>,
    pub role: Role,
}

#[derive(Debug)]
pub struct UpdateUserRequest {
    pub email: Option<String>,
    pub role: Option<Role>,
    pub enabled: Option<bool>,
}

#[derive(Debug)]
pub struct AuditLogQuery {
    pub user: Option<String>,
    pub resource_type: Option<String>,
    pub limit: Option<usize>,
}

/// The user after a request has changed what it names, at `now`.
pub open spec fn updated_user(user: User, request: UpdateUserRequest, now: i64) -> User {
    User {
        email: match request.email {
            Some(e) => Some(e),
            None => user.email,
        },
        role: match request.role {
            Some(r) => r,
            None => user.role,
        },
        enabled: match request.enabled {
            Some(e) => e,
            None => user.enabled,
        },
        updated_at: now,
        ..user
    }
}

impl CreateUserRequest {
    /// The user that the request creates, with the given identifier, at
    /// `now`.
    pub fn into_user_with(self, id: u128, now: i64) -> (user: User)
        ensures
            user.id == id,
            user.username == self.username,
            user.email == self.email,
            user.role == self.role,
            user.custom_permissions@ == Seq::<Permission>::empty(),
            user.enabled,
            user.created_at == now,
            user.updated_at == now,
    {
        User {
            id,
            username: self.username,
            email: self.email,
            role: self.role,
            custom_permissions: Vec::new(),
            enabled: true,
            created_at: now,
            updated_at: now,
        }
    }

    /// The user that the request creates, with a fresh identifier, now.
    pub fn into_user(self) -> (user: User)
        ensures
            is_random_id(user.id),
            user.username == self.username,
            user.email == self.email,
            user.role == self.role,
            user.custom_permissions@ == Seq::<Permission>::empty(),
            user.enabled,
            user.created_at == user.updated_at,
    {
        self.into_user_with(new_id(), now_millis())
    }
}

impl UpdateUserRequest {
    /// Changes in `user` what the request names, at `now`.
    pub fn apply_at(self, user: &mut User, now: i64)
        ensures
            *final(user) == updated_user(*old(user), self, now),
    {
        match self.email {
            Some(e) => {
                user.email = Some(e);
            },
            None => {},
        }
        match self.role {
            Some(r) => {
                user.role = r;
            },
            None => {},
        }
        match self.enabled {
            Some(e) => {
                user.enabled = e;
            },
            None => {},
        }
        user.updated_at = now;
    }

    /// Changes in `user` what the request names, now.
    pub fn apply(self, user: &mut User)
        ensures
            exists|now: i64| *final(user) == #[trigger] updated_user(*old(user), self, now),
    {
        let now = now_millis();
        self.apply_at(user, now);
        assert(*user == updated_user(*old(user), self, now));
    }
}

/// How many times `c` stands in `s` from `from` on.
pub open spec fn count_char(s: Seq<char>, c: char, from: int) -> nat
    decreases s.len() - from,
{
    if from < 0 || from >= s.len() {
        0
    } else if s[from] == c {
        1 + count_char(s, c, from + 1)
    } else {
        count_char(s, c, from + 1)
    }
}

/// The two parts of a text in which `c` stands exactly once: what is
/// before it and what is behind it.
pub open spec fn halves(s: Seq<char>, c: char) -> Option<(Seq<char>, Seq<char>)> {
    if count_char(s, c, 0) == 1 {
        let at = position_of_char(s, c, 0);
        Some((s.take(at), s.skip(at + 1)))
    } else {
        None
    }
}

/// How many times `c` stands in `chars` from `from` on.
fn count(chars: &Vec<char>, c: char, from: usize) -> (n: usize)
    requires
        from <= chars@.len(),
    ensures
        n == count_char(chars@, c, from as int),
        n <= chars@.len() - from,
{
    let len = chars.len();
    let mut n: usize = 0;
    let mut i: usize = len;
    while i > from
        invariant
            from <= i <= len,
            len == chars@.len(),
            n == count_char(chars@, c, i as int),
            n <= len - i,
        decreases i,
    {
        i = i - 1;
        if chars[i] == c {
            n = n + 1;
        }
    }
    n
}

/// The server and the path of an NFS export written as `server:path`: the
/// text must hold exactly one colon.
pub fn split_nfs_path(path: &str) -> (parts: Option<(String, String)>)
    ensures
        match parts {
            Some((server, export)) => halves(path@, ':') == Some((server@, export@)),
            None => halves(path@, ':') is None,
        },
{
    let chars = chars_of(path);
    if count(&chars, ':', 0) != 1 {
        return None;
    }
    let at = find_char(&chars, ':', 0);
    proof {
        lemma_position_of_char(path@, ':', 0);
        lemma_counted_char_is_there(path@, ':', 0);
    }
    let server = piece(path, 0, at);
    let export = piece(path, at + 1, chars.len());
    proof {
        assert(server@ =~= path@.take(at as int));
        assert(export@ =~= path@.skip(at + 1));
    }
    Some((server, export))
}

/// Where the slashes at the start of `s` end that come in pairs.
pub open spec fn after_slash_pairs(s: Seq<char>, from: int) -> int
    decreases s.len() - from,
{
    if 0 <= from && from + 2 <= s.len() && s[from] == '/' && s[from + 1] == '/' {
        after_slash_pairs(s, from + 2)
    } else {
        from
    }
}

/// The server and the share of a CIFS share written as `//server/share`:
/// the text must begin with two slashes, and what follows the pairs of
/// slashes at its start must hold exactly one more.
pub open spec fn cifs_parts(s: Seq<char>) -> Option<(Seq<char>, Seq<char>)> {
    let start = after_slash_pairs(s, 0);
    if start < 2 {
        None
    } else {
        halves(s.skip(start), '/')
    }
}

/// A character that is counted once or more is found.
pub proof fn lemma_counted_char_is_there(s: Seq<char>, c: char, from: int)
    requires
        0 <= from <= s.len(),
        count_char(s, c, from) > 0,
    ensures
        position_of_char(s, c, from) < s.len(),
    decreases s.len() - from,
{
    if from < s.len() && s[from] != c {
        lemma_counted_char_is_there(s, c, from + 1);
    }
}

/// The server and the share of a CIFS share: see [`cifs_parts`].
pub fn split_cifs_path(path: &str) -> (parts: Option<(String, String)>)
    ensures
        match parts {
            Some((server, share)) => cifs_parts(path@) == Some((server@, share@)),
            None => cifs_parts(path@) is None,
        },
{
    let chars = chars_of(path);
    let n = chars.len();
    let mut start: usize = 0;
    while n - start >= 2 && chars[start] == '/' && chars[start + 1] == '/'
        invariant
            start <= n,
            n == chars@.len(),
            after_slash_pairs(chars@, 0) == after_slash_pairs(chars@, start as int),
        decreases n - start,
    {
        start = start + 2;
    }
    if start < 2 {
        return None;
    }
    let rest = piece(path, start, n);
    assert(rest@ =~= path@.skip(start as int));
    split_by(rest.as_str(), '/')
}

/// The two parts of a text in which `c` stands exactly once.
fn split_by(text: &str, c: char) -> (parts: Option<(String, String)>)
    ensures
        match parts {
            Some((a, b)) => halves(text@, c) == Some((a@, b@)),
            None => halves(text@, c) is None,
        },
{
    let chars = chars_of(text);
    if count(&chars, c, 0) != 1 {
        return None;
    }
    let at = find_char(&chars, c, 0);
    proof {
        lemma_position_of_char(text@, c, 0);
        lemma_counted_char_is_there(text@, c, 0);
    }
    let a = piece(text, 0, at);
    let b = piece(text, at + 1, chars.len());
    proof {
        assert(a@ =~= text@.take(at as int));
        assert(b@ =~= text@.skip(at + 1));
    }
    Some((a, b))
}

} // verus!

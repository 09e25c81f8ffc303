//! Roles, permissions and users.

use crate::sys::{is_random_id, new_id, now_millis};
use crate::text::equal;
use vstd::prelude::*;
use vstd::string::*;

verus! {

/// What a user may be allowed to do.
#[derive(Debug, Clone, Copy, PartialEq, Eq, Hash, Structural)]
pub enum Permission {
    ContainerCreate,
    ContainerRead,
    ContainerUpdate,
    ContainerDelete,
    ContainerStart,
    ContainerStop,
    ContainerSnapshot,
    ClusterRead,
    ClusterWrite,
    ClusterJoin,
    ClusterLeave,
    StorageRead,
    StorageWrite,
    StorageDelete,
    NetworkRead,
    NetworkWrite,
    NetworkDelete,
    SystemRead,
    SystemWrite,
    SystemAdmin,
}

/// A named set of permissions. A custom role has none of its own: what its
/// users may do is listed with each user.
#[derive(Debug, Clone, PartialEq, Eq)]
pub enum Role {
    Admin,
    Operator,
    Viewer,
    Custom(String),
}

/// Everything.
pub open spec fn admin_permissions() -> Seq<Permission> {
    seq![
        Permission::ContainerCreate,
        Permission::ContainerRead,
        Permission::ContainerUpdate,
        Permission::ContainerDelete,
        Permission::ContainerStart,
        Permission::ContainerStop,
        Permission::ContainerSnapshot,
        Permission::ClusterRead,
        Permission::ClusterWrite,
        Permission::ClusterJoin,
        Permission::ClusterLeave,
        Permission::StorageRead,
        Permission::StorageWrite,
        Permission::StorageDelete,
        Permission::NetworkRead,
        Permission::NetworkWrite,
        Permission::NetworkDelete,
        Permission::SystemRead,
        Permission::SystemWrite,
        Permission::SystemAdmin,
    ]
}

/// Reading everything, and running the containers that exist.
pub open spec fn operator_permissions() -> Seq<Permission> {
    seq![
        Permission::ContainerRead,
        Permission::ContainerStart,
        Permission::ContainerStop,
        Permission::ContainerSnapshot,
        Permission::ClusterRead,
        Permission::StorageRead,
        Permission::NetworkRead,
        Permission::SystemRead,
    ]
}

/// Reading everything.
pub open spec fn viewer_permissions() -> Seq<Permission> {
    seq![
        Permission::ContainerRead,
        Permission::ClusterRead,
        Permission::StorageRead,
        Permission::NetworkRead,
        Permission::SystemRead,
    ]
}

impl Role {
    /// The permissions of the role.
    pub open spec fn granted(self) -> Seq<Permission> {
        match self {
            Role::Admin => admin_permissions(),
            Role::Operator => operator_permissions(),
            Role::Viewer => viewer_permissions(),
            Role::Custom(_) => Seq::empty(),
        }
    }

    /// The permissions of the role.
    pub fn permissions(&self) -> (list: Vec<Permission>)
        ensures
            list@ == self.granted(),
    {
        let list = match self {
            Role::Admin => vec![
                Permission::ContainerCreate,
                Permission::ContainerRead,
                Permission::ContainerUpdate,
                Permission::ContainerDelete,
                Permission::ContainerStart,
                Permission::ContainerStop,
                Permission::ContainerSnapshot,
                Permission::ClusterRead,
                Permission::ClusterWrite,
                Permission::ClusterJoin,
                Permission::ClusterLeave,
                Permission::StorageRead,
                Permission::StorageWrite,
                Permission::StorageDelete,
                Permission::NetworkRead,
                Permission::NetworkWrite,
                Permission::NetworkDelete,
                Permission::SystemRead,
                Permission::SystemWrite,
                Permission::SystemAdmin,
            ],
            Role::Operator => vec![
                Permission::ContainerRead,
                Permission::ContainerStart,
                Permission::ContainerStop,
                Permission::ContainerSnapshot,
                Permission::ClusterRead,
                Permission::StorageRead,
                Permission::NetworkRead,
                Permission::SystemRead,
            ],
            Role::Viewer => vec![
                Permission::ContainerRead,
                Permission::ClusterRead,
                Permission::StorageRead,
                Permission::NetworkRead,
                Permission::SystemRead,
            ],
            Role::Custom(_) => Vec::new(),
        };
        assert(list@ =~= self.granted());
        list
    }

    /// Whether the role has the permission.
    pub fn has_permission(&self, permission: &Permission) -> (has: bool)
        ensures
            has == self.granted().contains(*permission),
    {
        let list = self.permissions();
        holds_permission(&list, permission)
    }
}

/// Whether the list holds the permission.
pub fn holds_permission(list: &Vec<Permission>, permission: &Permission) -> (found: bool)
    ensures
        found == list@.contains(*permission),
{
    let mut i: usize = 0;
    while i < list.len()
        invariant
            i <= list.len(),
            forall|k: int| 0 <= k < i ==> list@[k] != *permission,
        decreases list.len() - i,
    {
        if list[i] == *permission {
            return true;
        }
        i = i + 1;
    }
    false
}

/// Someone who may use the system. Points in time are milliseconds since
/// the Unix epoch.
#[derive(Debug, Clone)]
pub struct User {
    pub id: u128,
    pub username: String,
    pub email: Option<String>,
    pub role: Role,
    pub custom_permissions: Vec<Permission>,
    pub enabled: bool,
    pub created_at: i64,
    pub updated_at: i64,
}

impl User {
    /// Whether the user may do what the permission names: the user is
    /// enabled, and the role or the user's own list holds the permission.
    pub open spec fn allowed(self, permission: Permission) -> bool {
        self.enabled && (self.role.granted().contains(permission) || self.custom_permissions@.contains(
            permission,
        ))
    }

    /// Whether the user has the permission.
    pub fn has_permission(&self, permission: &Permission) -> (has: bool)
        ensures
            has == self.allowed(*permission),
    {
        if !self.enabled {
            return false;
        }
        if self.role.has_permission(permission) {
            return true;
        }
        holds_permission(&self.custom_permissions, permission)
    }

    /// Whether the user has at least one of the permissions.
    pub fn has_any_permission(&self, permissions: &[Permission]) -> (has: bool)
        ensures
            has == exists|i: int| 0 <= i < permissions@.len() && self.allowed(#[trigger] permissions@[i]),
    {
        let mut i: usize = 0;
        while i < permissions.len()
            invariant
                i <= permissions@.len(),
                forall|k: int| 0 <= k < i ==> !self.allowed(#[trigger] permissions@[k]),
            decreases permissions@.len() - i,
        {
            if self.has_permission(&permissions[i]) {
                return true;
            }
            i = i + 1;
        }
        false
    }

    /// Whether the user has every one of the permissions.
    pub fn has_all_permissions(&self, permissions: &[Permission]) -> (has: bool)
        ensures
            has == forall|i: int| 0 <= i < permissions@.len() ==> self.allowed(#[trigger] permissions@[i]),
    {
        let mut i: usize = 0;
        while i < permissions.len()
            invariant
                i <= permissions@.len(),
                forall|k: int| 0 <= k < i ==> self.allowed(#[trigger] permissions@[k]),
            decreases permissions@.len() - i,
        {
            if !self.has_permission(&permissions[i]) {
                return false;
            }
            i = i + 1;
        }
        true
    }
}

/// The administrator every store starts with.
pub open spec fn is_first_admin(user: User, id: u128, now: i64) -> bool {
    &&& user.id == id
    &&& user.username@ == "admin"@
    &&& user.email matches Some(e) && e@ == "admin@example.com"@
    &&& user.role == Role::Admin
    &&& user.custom_permissions@ == Seq::<Permission>::empty()
    &&& user.enabled
    &&& user.created_at == now
    &&& user.updated_at == now
}

/// The users of the system, by name, kept in memory.
pub struct UserStore {
    entries: Vec<(String, User)>,
}

/// The position of the entry kept under `name`, if there is one.
pub open spec fn entry_of(entries: Seq<(String, User)>, name: Seq<char>) -> Option<int> {
    if exists|i: int| 0 <= i < entries.len() && (#[trigger] entries[i]).0@ == name {
        Some(choose|i: int| 0 <= i < entries.len() && (#[trigger] entries[i]).0@ == name)
    } else {
        None
    }
}

/// No two entries are kept under the same name.
pub open spec fn names_differ(entries: Seq<(String, User)>) -> bool {
    forall|i: int, j: int|
        0 <= i < entries.len() && 0 <= j < entries.len() && i != j ==> (#[trigger] entries[i]).0@ != (
        #[trigger] entries[j]).0@
}

impl UserStore {
    /// The entries, each under its name.
    pub closed spec fn entries(&self) -> Seq<(String, User)> {
        self.entries@
    }

    /// The validity of a store: every name is there once.
    pub open spec fn wf(&self) -> bool {
        names_differ(self.entries())
    }

    /// Whether a user is kept under `name`.
    pub open spec fn has(&self, name: Seq<char>) -> bool {
        entry_of(self.entries(), name) is Some
    }

    /// The user kept under `name`.
    pub open spec fn user(&self, name: Seq<char>) -> User {
        self.entries()[entry_of(self.entries(), name).unwrap()].1
    }

    /// How many users are kept.
    pub open spec fn count(&self) -> nat {
        self.entries().len()
    }

    /// The store with `user` kept under `name`: every other name keeps its
    /// user.
    pub open spec fn is_put(&self, before: &UserStore, name: Seq<char>, user: User) -> bool {
        &&& self.wf()
        &&& self.has(name)
        &&& self.user(name) == user
        &&& forall|other: Seq<char>|
            other != name ==> (#[trigger] self.has(other) == before.has(other) && (before.has(other)
                ==> self.user(other) == before.user(other)))
        &&& self.count() == if before.has(name) {
            before.count()
        } else {
            before.count() + 1
        }
    }

    /// A store that holds the administrator with the given identifier,
    /// created at `now`.
    pub fn with_admin(id: u128, now: i64) -> (store: UserStore)
        ensures
            store.wf(),
            store.count() == 1,
            store.has("admin"@),
            is_first_admin(store.user("admin"@), id, now),
    {
        let admin = User {
            id,
            username: String::from_str("admin"),
            email: Some(String::from_str("admin@example.com")),
            role: Role::Admin,
            custom_permissions: Vec::new(),
            enabled: true,
            created_at: now,
            updated_at: now,
        };
        let mut entries: Vec<(String, User)> = Vec::new();
        entries.push((String::from_str("admin"), admin));
        let store = UserStore { entries };
        proof {
            assert(store.entries()[0].0@ == "admin"@);
            let at = entry_of(store.entries(), "admin"@).unwrap();
            assert(at == 0);
        }
        store
    }

    /// A store that holds the administrator, with a fresh identifier,
    /// created now.
    pub fn new() -> (store: UserStore)
        ensures
            store.wf(),
            store.count() == 1,
            store.has("admin"@),
            is_random_id(store.user("admin"@).id),
            exists|now: i64| #[trigger] is_first_admin(store.user("admin"@), store.user("admin"@).id, now),
    {
        let id = new_id();
        let now = now_millis();
        let store = UserStore::with_admin(id, now);
        assert(is_first_admin(store.user("admin"@), id, now));
        store
    }

    /// Where the entry for `name` is.
    fn find(&self, name: &str) -> (at: Option<usize>)
        requires
            self.wf(),
        ensures
            at is Some <==> self.has(name@),
            at matches Some(i) ==> i < self.entries().len() && entry_of(self.entries(), name@) == Some(
                i as int,
            ) && self.entries()[i as int].0@ == name@,
    {
        let mut i: usize = 0;
        while i < self.entries.len()
            invariant
                i <= self.entries.len(),
                self.wf(),
                forall|k: int| 0 <= k < i ==> (#[trigger] self.entries@[k]).0@ != name@,
            decreases self.entries.len() - i,
        {
            if equal(self.entries[i].0.as_str(), name) {
                proof {
                    assert(self.entries@[i as int].0@ == name@);
                    let c = choose|c: int| 0 <= c < self.entries@.len() && (#[trigger] self.entries@[c]).0@ == name@;
                    assert(c == i);
                }
                return Some(i);
            }
            i = i + 1;
        }
        None
    }

    /// The user kept under `username`.
    pub fn get_user(&self, username: &str) -> (user: Option<&User>)
        requires
            self.wf(),
        ensures
            user is Some <==> self.has(username@),
            user matches Some(u) ==> *u == self.user(username@),
    {
        match self.find(username) {
            Some(i) => Some(&self.entries[i].1),
            None => None,
        }
    }

    /// Keeps `user` under `name`, in place of whoever was kept there.
    fn put(&mut self, name: String, user: User)
        requires
            old(self).wf(),
        ensures
            final(self).is_put(old(self), name@, user),
    {
        let ghost before = self.entries@;
        let ghost key = name@;
        match self.find(name.as_str()) {
            Some(i) => {
                self.entries.remove(i);
                self.entries.insert(i, (name, user));
                proof {
                    let after = self.entries@;
                    assert(after.len() == before.len());
                    assert forall|k: int| 0 <= k < after.len() implies (#[trigger] after[k]).0@ == before[k].0@ by {}
                    assert(after[i as int].1 == user);
                    assert forall|k: int| 0 <= k < after.len() && k != i implies (#[trigger] after[k]) == before[k] by {}
                    lemma_same_names(before, after);
                    assert(names_differ(after));
                    assert(entry_of(after, key) == Some(i as int));
                    assert forall|other: Seq<char>| other != key implies (#[trigger] self.has(other) == old(
                        self,
                    ).has(other) && (old(self).has(other) ==> self.user(other) == old(self).user(other))) by {
                        if old(self).has(other) {
                            let b = entry_of(before, other).unwrap();
                            assert(after[b].0@ == other);
                            let a = entry_of(after, other).unwrap();
                            assert(a == b);
                        }
                        if self.has(other) {
                            let a = entry_of(after, other).unwrap();
                            assert(before[a].0@ == other);
                        }
                    }
                }
            },
            None => {
                self.entries.push((name, user));
                proof {
                    let after = self.entries@;
                    let n = before.len() as int;
                    assert(after[n].0@ == key);
                    assert forall|k: int| 0 <= k < n implies (#[trigger] after[k]) == before[k] by {}
                    assert(names_differ(after)) by {
                        assert forall|i: int, j: int|
                            0 <= i < after.len() && 0 <= j < after.len() && i != j implies (
                        #[trigger] after[i]).0@ != (#[trigger] after[j]).0@ by {
                            if i < n && j < n {
                                assert(before[i].0@ != before[j].0@);
                            } else if i < n {
                                assert(before[i].0@ != key);
                            } else {
                                assert(before[j].0@ != key);
                            }
                        }
                    }
                    let a = entry_of(after, key).unwrap();
                    assert(a == n);
                    assert forall|other: Seq<char>| other != key implies (#[trigger] self.has(other) == old(
                        self,
                    ).has(other) && (old(self).has(other) ==> self.user(other) == old(self).user(other))) by {
                        if old(self).has(other) {
                            let b = entry_of(before, other).unwrap();
                            assert(after[b].0@ == other);
                            let a = entry_of(after, other).unwrap();
                            assert(a == b);
                        }
                        if self.has(other) {
                            let a = entry_of(after, other).unwrap();
                            assert(a < n);
                            assert(before[a].0@ == other);
                        }
                    }
                }
            },
        }
    }

    /// Keeps `user` under its own name, in place of whoever was kept there.
    pub fn add_user(&mut self, user: User)
        requires
            old(self).wf(),
        ensures
            final(self).is_put(old(self), user.username@, user),
    {
        let name = user.username.clone();
        self.put(name, user);
    }

    /// Puts `user` in the place of the user kept under `username`. Fails,
    /// changing nothing, where no user is kept under that name.
    pub fn update_user(&mut self, username: &str, user: User) -> (outcome: Result<(), &'static str>)
        requires
            old(self).wf(),
        ensures
            outcome is Ok <==> old(self).has(username@),
            outcome is Ok ==> final(self).is_put(old(self), username@, user),
            outcome matches Err(e) ==> e@ == "User not found"@ && final(self).entries() == old(self).entries(),
    {
        match self.find(username) {
            Some(_) => {
                self.put(String::from_str(username), user);
                Ok(())
            },
            None => Err("User not found"),
        }
    }

    /// Forgets the user kept under `username`. The administrator cannot be
    /// forgotten, nor a user that is not there.
    pub fn delete_user(&mut self, username: &str) -> (outcome: Result<(), &'static str>)
        requires
            old(self).wf(),
        ensures
            final(self).wf(),
            outcome is Ok <==> username@ != "admin"@ && old(self).has(username@),
            outcome is Ok ==> {
                &&& !final(self).has(username@)
                &&& final(self).count() == old(self).count() - 1
                &&& forall|other: Seq<char>|
                    other != username@ ==> (#[trigger] final(self).has(other) == old(self).has(other) && (old(
                        self,
                    ).has(other) ==> final(self).user(other) == old(self).user(other)))
            },
            outcome matches Err(e) ==> {
                &&& final(self).entries() == old(self).entries()
                &&& e@ == if username@ == "admin"@ {
                    "Cannot delete admin user"@
                } else {
                    "User not found"@
                }
            },
    {
        if equal(username, "admin") {
            return Err("Cannot delete admin user");
        }
        let ghost before = self.entries@;
        let ghost key = username@;
        match self.find(username) {
            Some(i) => {
                self.entries.remove(i);
                proof {
                    let after = self.entries@;
                    assert forall|k: int| 0 <= k < after.len() implies (#[trigger] after[k]) == before[if k < i {
                        k
                    } else {
                        k + 1
                    }] by {}
                    assert(names_differ(after)) by {
                        assert forall|x: int, y: int|
                            0 <= x < after.len() && 0 <= y < after.len() && x != y implies (
                        #[trigger] after[x]).0@ != (#[trigger] after[y]).0@ by {
                            let bx = if x < i {
                                x
                            } else {
                                x + 1
                            };
                            let by = if y < i {
                                y
                            } else {
                                y + 1
                            };
                            assert(before[bx].0@ != before[by].0@);
                        }
                    }
                    if self.has(key) {
                        let a = entry_of(after, key).unwrap();
                        let b = if a < i {
                            a
                        } else {
                            a + 1
                        };
                        assert(before[b].0@ == key);
                        assert(before[i as int].0@ == key);
                    }
                    assert forall|other: Seq<char>| other != key implies (#[trigger] self.has(other) == old(
                        self,
                    ).has(other) && (old(self).has(other) ==> self.user(other) == old(self).user(other))) by {
                        if old(self).has(other) {
                            let b = entry_of(before, other).unwrap();
                            assert(b != i);
                            let a0 = if b < i {
                                b
                            } else {
                                b - 1
                            };
                            assert(after[a0].0@ == other);
                            let a = entry_of(after, other).unwrap();
                            assert(a == a0);
                        }
                        if self.has(other) {
                            let a = entry_of(after, other).unwrap();
                            let b = if a < i {
                                a
                            } else {
                                a + 1
                            };
                            assert(before[b].0@ == other);
                        }
                    }
                }
                Ok(())
            },
            None => Err("User not found"),
        }
    }

    /// Every user, in the order in which their names came.
    pub fn list_users(&self) -> (users: Vec<&User>)
        ensures
            users@.len() == self.count(),
            forall|i: int| 0 <= i < users@.len() ==> *(#[trigger] users@[i]) == self.entries()[i].1,
    {
        let mut users: Vec<&User> = Vec::new();
        let mut i: usize = 0;
        while i < self.entries.len()
            invariant
                i <= self.entries.len(),
                users@.len() == i,
                forall|k: int| 0 <= k < i ==> *(#[trigger] users@[k]) == self.entries@[k].1,
            decreases self.entries.len() - i,
        {
            users.push(&self.entries[i].1);
            i = i + 1;
        }
        users
    }
}

/// Entries with the same names at the same places have names that differ
/// if the others' do.
pub proof fn lemma_same_names(before: Seq<(String, User)>, after: Seq<(String, User)>)
    requires
        names_differ(before),
        after.len() == before.len(),
        forall|k: int| 0 <= k < after.len() ==> (#[trigger] after[k]).0@ == before[k].0@,
    ensures
        names_differ(after),
{
    assert forall|i: int, j: int| 0 <= i < after.len() && 0 <= j < after.len() && i != j implies (
    #[trigger] after[i]).0@ != (#[trigger] after[j]).0@ by {
        assert(before[i].0@ != before[j].0@);
    }
}

} // verus!

//! The built-in native providers and the registry that resolves component
//! names to them: an in-memory document collection, an authentication and
//! permission store, and the plain test components.
use crate::assoc::assoc_get;
use crate::assoc::assoc_map;
use crate::assoc::assoc_put;
use crate::assoc::assoc_remove;
use crate::assoc::assoc_unique;
use vstd::prelude::*;

verus! {

/// A map of string keys to string values, at the character level.
pub open spec fn string_map(s: Seq<(String, String)>) -> Map<Seq<char>, Seq<char>> {
    assoc_map(s).map_values(|v: String| v@)
}

/// A map of string keys to lists of strings, at the character level.
pub open spec fn string_list_map(s: Seq<(String, Vec<String>)>) -> Map<Seq<char>, Seq<Seq<char>>> {
    assoc_map(s).map_values(|v: Vec<String>| v.deep_view())
}

pub proof fn lemma_map_values_insert<V, W>(m: Map<Seq<char>, V>, f: spec_fn(V) -> W, k: Seq<char>, v: V)
    ensures
        m.insert(k, v).map_values(f) == m.map_values(f).insert(k, f(v)),
{
    assert(m.insert(k, v).map_values(f) =~= m.map_values(f).insert(k, f(v)));
}

pub proof fn lemma_map_values_remove<V, W>(m: Map<Seq<char>, V>, f: spec_fn(V) -> W, k: Seq<char>)
    ensures
        m.remove(k).map_values(f) == m.map_values(f).remove(k),
{
    assert(m.remove(k).map_values(f) =~= m.map_values(f).remove(k));
}

/// Provider failure modes; none is retried by the provider itself.
#[derive(Debug)]
pub enum ProviderError {
    /// The target component is not hosted here.
    ComponentNotFound(String),
    /// A payload value did not decode under the declared port type.
    TypeMismatch(String),
    /// Opaque provider failure, passed through.
    ProviderFailure(String),
}

/// State of the in-memory collection provider: documents by id, and the ids
/// of each collection in insertion order.
pub struct State {
    pub documents: Vec<(String, String)>,
    pub collections: Vec<(String, Vec<String>)>,
}

impl State {
    /// Keys are unique in both maps.
    pub open spec fn wf(&self) -> bool {
        assoc_unique(self.documents@) && assoc_unique(self.collections@)
    }

    /// An empty store.
    pub fn new() -> (r: State)
        ensures
            r.wf(),
            string_map(r.documents@) == Map::<Seq<char>, Seq<char>>::empty(),
            string_list_map(r.collections@) == Map::<Seq<char>, Seq<Seq<char>>>::empty(),
    {
        let r = State { documents: Vec::new(), collections: Vec::new() };
        proof {
            assert(string_map(r.documents@) =~= Map::<Seq<char>, Seq<char>>::empty());
            assert(string_list_map(r.collections@) =~= Map::<Seq<char>, Seq<Seq<char>>>::empty());
        }
        r
    }

    /// Stores `document` under `document_id` and appends the id to the
    /// collection's list; returns the document id.
    pub fn add_item(&mut self, document_id: &String, collection_id: &String, document: &String)
        -> (r: String)
        requires
            old(self).wf(),
        ensures
            final(self).wf(),
            r@ == document_id@,
            string_map(final(self).documents@) == string_map(old(self).documents@).insert(
                document_id@,
                document@,
            ),
            string_list_map(final(self).collections@) == string_list_map(
                old(self).collections@,
            ).insert(
                collection_id@,
                (if string_list_map(old(self).collections@).contains_key(collection_id@) {
                    string_list_map(old(self).collections@)[collection_id@]
                } else {
                    Seq::empty()
                }).push(document_id@),
            ),
    {
        assoc_put(&mut self.documents, document_id.clone(), document.clone());
        proof {
            lemma_map_values_insert(
                assoc_map(old(self).documents@),
                |v: String| v@,
                document_id@,
                final(self).documents@.last().1,
            );
        }
        let ghost old_lists = string_list_map(old(self).collections@);
        let mut ids: Vec<String> = match assoc_get(&self.collections, collection_id) {
            Some(l) => l.clone(),
            None => Vec::new(),
        };
        let ghost pre_ids = ids.deep_view();
        proof {
            assert(pre_ids == (if old_lists.contains_key(collection_id@) {
                old_lists[collection_id@]
            } else {
                Seq::empty()
            }));
        }
        ids.push(document_id.clone());
        proof {
            assert(ids.deep_view() =~= pre_ids.push(document_id@));
        }
        let ghost mid = self.collections@;
        assoc_put(&mut self.collections, collection_id.clone(), ids);
        proof {
            lemma_map_values_insert(
                assoc_map(mid),
                |v: Vec<String>| v.deep_view(),
                collection_id@,
                final(self).collections@.last().1,
            );
        }
        document_id.clone()
    }

    /// The document stored under `document_id`, if any.
    pub fn get_item(&self, document_id: &String) -> (r: Option<String>)
        ensures
            match r {
                Some(d) => string_map(self.documents@).contains_key(document_id@) && d@
                    == string_map(self.documents@)[document_id@],
                None => !string_map(self.documents@).contains_key(document_id@),
            },
            r is Some <==> string_map(self.documents@).contains_key(document_id@),
    {
        match assoc_get(&self.documents, document_id) {
            Some(d) => Some(d.clone()),
            None => None,
        }
    }

    /// The ids of the documents added to `collection_id`, in insertion order.
    pub fn list_items(&self, collection_id: &String) -> (r: Vec<String>)
        ensures
            string_list_map(self.collections@).contains_key(collection_id@) ==> r.deep_view()
                == string_list_map(self.collections@)[collection_id@],
            !string_list_map(self.collections@).contains_key(collection_id@) ==> r.deep_view()
                == Seq::<Seq<char>>::empty(),
    {
        match assoc_get(&self.collections, collection_id) {
            Some(l) => l.clone(),
            None => {
                let r: Vec<String> = Vec::new();
                proof {
                    assert(r.deep_view() =~= Seq::<Seq<char>>::empty());
                }
                r
            },
        }
    }
}

/// One user record of the authentication provider.
pub struct UserRecord {
    pub user_id: String,
    pub password: String,
}

/// State of the authentication provider: users by username, sessions by
/// session token, permissions by user id.
pub struct AuthState {
    pub users: Vec<(String, UserRecord)>,
    pub sessions: Vec<(String, String)>,
    pub permissions: Vec<(String, Vec<String>)>,
}

/// The user ids by username, at the character level.
pub open spec fn users_map(s: Seq<(String, UserRecord)>) -> Map<Seq<char>, Seq<char>> {
    assoc_map(s).map_values(|v: UserRecord| v.user_id@)
}

/// The passwords by username, at the character level.
pub open spec fn passwords_map(s: Seq<(String, UserRecord)>) -> Map<Seq<char>, Seq<char>> {
    assoc_map(s).map_values(|v: UserRecord| v.password@)
}

impl AuthState {
    pub open spec fn wf(&self) -> bool {
        assoc_unique(self.users@) && assoc_unique(self.sessions@) && assoc_unique(
            self.permissions@,
        )
    }

    /// An empty store.
    pub fn new() -> (r: AuthState)
        ensures
            r.wf(),
            users_map(r.users@) == Map::<Seq<char>, Seq<char>>::empty(),
            string_map(r.sessions@) == Map::<Seq<char>, Seq<char>>::empty(),
            string_list_map(r.permissions@) == Map::<Seq<char>, Seq<Seq<char>>>::empty(),
    {
        let r = AuthState { users: Vec::new(), sessions: Vec::new(), permissions: Vec::new() };
        proof {
            assert(users_map(r.users@) =~= Map::<Seq<char>, Seq<char>>::empty());
            assert(string_map(r.sessions@) =~= Map::<Seq<char>, Seq<char>>::empty());
            assert(string_list_map(r.permissions@) =~= Map::<Seq<char>, Seq<Seq<char>>>::empty());
        }
        r
    }

    /// Registers `username` with the given id and password; returns the id.
    pub fn create_user(&mut self, username: &String, user_id: &String, password: &String) -> (r:
        String)
        requires
            old(self).wf(),
        ensures
            final(self).wf(),
            r@ == user_id@,
            users_map(final(self).users@) == users_map(old(self).users@).insert(
                username@,
                user_id@,
            ),
            passwords_map(final(self).users@) == passwords_map(old(self).users@).insert(
                username@,
                password@,
            ),
            final(self).sessions == old(self).sessions,
            final(self).permissions == old(self).permissions,
    {
        let rec = UserRecord { user_id: user_id.clone(), password: password.clone() };
        assoc_put(&mut self.users, username.clone(), rec);
        proof {
            lemma_map_values_insert(
                assoc_map(old(self).users@),
                |v: UserRecord| v.user_id@,
                username@,
                final(self).users@.last().1,
            );
            lemma_map_values_insert(
                assoc_map(old(self).users@),
                |v: UserRecord| v.password@,
                username@,
                final(self).users@.last().1,
            );
        }
        user_id.clone()
    }

    /// Unregisters `username`; returns the removed user's id, if any.
    pub fn remove_user(&mut self, username: &String) -> (r: Option<String>)
        requires
            old(self).wf(),
        ensures
            final(self).wf(),
            users_map(final(self).users@) == users_map(old(self).users@).remove(username@),
            match r {
                Some(id) => users_map(old(self).users@).contains_key(username@) && id@
                    == users_map(old(self).users@)[username@],
                None => !users_map(old(self).users@).contains_key(username@),
            },
            final(self).sessions == old(self).sessions,
            final(self).permissions == old(self).permissions,
    {
        let r = match assoc_get(&self.users, username) {
            Some(rec) => Some(rec.user_id.clone()),
            None => None,
        };
        assoc_remove(&mut self.users, username);
        proof {
            lemma_map_values_remove(
                assoc_map(old(self).users@),
                |v: UserRecord| v.user_id@,
                username@,
            );
        }
        r
    }

    /// Number of registered users.
    pub fn user_count(&self) -> (r: usize)
        requires
            self.wf(),
        ensures
            r == self.users@.len(),
    {
        self.users.len()
    }

    /// Checks the password and binds the session token to the user; returns
    /// the session token on success.
    pub fn authenticate(&mut self, username: &String, password: &String, session: &String) -> (r:
        Option<String>)
        requires
            old(self).wf(),
        ensures
            final(self).wf(),
            final(self).users == old(self).users,
            final(self).permissions == old(self).permissions,
            r is Some <==> (passwords_map(old(self).users@).contains_key(username@)
                && passwords_map(old(self).users@)[username@] == password@),
            match r {
                Some(s) => s@ == session@ && string_map(final(self).sessions@) == string_map(
                    old(self).sessions@,
                ).insert(session@, users_map(old(self).users@)[username@]),
                None => final(self).sessions == old(self).sessions,
            },
    {
        let rec = match assoc_get(&self.users, username) {
            Some(rec) => rec,
            None => {
                return None;
            },
        };
        if rec.password != *password {
            return None;
        }
        let uid = rec.user_id.clone();
        assoc_put(&mut self.sessions, session.clone(), uid);
        proof {
            lemma_map_values_insert(
                assoc_map(old(self).sessions@),
                |v: String| v@,
                session@,
                final(self).sessions@.last().1,
            );
        }
        Some(session.clone())
    }

    /// The user id a session token was bound to, if any.
    pub fn validate_session(&self, session: &String) -> (r: Option<String>)
        ensures
            r is Some <==> string_map(self.sessions@).contains_key(session@),
            r matches Some(id) ==> id@ == string_map(self.sessions@)[session@],
    {
        match assoc_get(&self.sessions, session) {
            Some(id) => Some(id.clone()),
            None => None,
        }
    }

    /// Replaces the permission list of `user_id`; returns the new list.
    pub fn update_permissions(&mut self, user_id: &String, permissions: Vec<String>) -> (r: Vec<
        String,
    >)
        requires
            old(self).wf(),
        ensures
            final(self).wf(),
            final(self).users == old(self).users,
            final(self).sessions == old(self).sessions,
            r.deep_view() == permissions.deep_view(),
            string_list_map(final(self).permissions@) == string_list_map(
                old(self).permissions@,
            ).insert(user_id@, permissions.deep_view()),
    {
        let r = permissions.clone();
        proof {
            assert(r.deep_view() =~= permissions.deep_view());
        }
        assoc_put(&mut self.permissions, user_id.clone(), permissions);
        proof {
            lemma_map_values_insert(
                assoc_map(old(self).permissions@),
                |v: Vec<String>| v.deep_view(),
                user_id@,
                final(self).permissions@.last().1,
            );
        }
        r
    }

    /// The permission list of `user_id`, empty when none was ever set.
    pub fn list_permissions(&self, user_id: &String) -> (r: Vec<String>)
        ensures
            string_list_map(self.permissions@).contains_key(user_id@) ==> r.deep_view()
                == string_list_map(self.permissions@)[user_id@],
            !string_list_map(self.permissions@).contains_key(user_id@) ==> r.deep_view()
                == Seq::<Seq<char>>::empty(),
    {
        match assoc_get(&self.permissions, user_id) {
            Some(l) => l.clone(),
            None => {
                let r: Vec<String> = Vec::new();
                proof {
                    assert(r.deep_view() =~= Seq::<Seq<char>>::empty());
                }
                r
            },
        }
    }

    /// Whether `user_id` holds `permission`: the user id comes back when it
    /// does, nothing when it does not.
    pub fn has_permission(&self, user_id: &String, permission: &String) -> (r: Option<String>)
        ensures
            r is Some <==> (string_list_map(self.permissions@).contains_key(user_id@)
                && string_list_map(self.permissions@)[user_id@].contains(permission@)),
            r matches Some(id) ==> id@ == user_id@,
    {
        let perms = self.list_permissions(user_id);
        let n = perms.len();
        let mut i: usize = 0;
        while i < n
            invariant
                n == perms@.len(),
                i <= n,
                forall|j: int| 0 <= j < i ==> (#[trigger] perms@[j])@ != permission@,
                string_list_map(self.permissions@).contains_key(user_id@) ==> perms.deep_view()
                    == string_list_map(self.permissions@)[user_id@],
                !string_list_map(self.permissions@).contains_key(user_id@) ==> perms.deep_view()
                    == Seq::<Seq<char>>::empty(),
            decreases n - i,
        {
            if perms[i] == *permission {
                proof {
                    assert(perms.deep_view()[i as int] == permission@);
                }
                return Some(user_id.clone());
            }
            i = i + 1;
        }
        proof {
            if string_list_map(self.permissions@).contains_key(user_id@) {
                if string_list_map(self.permissions@)[user_id@].contains(permission@) {
                    let j = choose|j: int|
                        0 <= j < perms.deep_view().len() && perms.deep_view()[j] == permission@;
                    assert(perms@[j]@ == permission@);
                }
            }
        }
        None
    }

    /// The user id registered under `username`, if any.
    pub fn get_id(&self, username: &String) -> (r: Option<String>)
        ensures
            r is Some <==> users_map(self.users@).contains_key(username@),
            r matches Some(id) ==> id@ == users_map(self.users@)[username@],
    {
        match assoc_get(&self.users, username) {
            Some(rec) => Some(rec.user_id.clone()),
            None => None,
        }
    }
}

} // verus!

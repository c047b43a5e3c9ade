//! Users: login keys stored as hashes, rebuilt from configuration. The
//! rebuild pipeline itself does not touch this table; it serves the
//! presentation layer's login lookup.

use crate::error::{Error, ErrorKind};
use crate::ident::derived_id;
use crate::store::{Store, StoreView, UserRowV};
use crate::text::str_eq;
use vstd::prelude::*;

verus! {

/// The stored hash of a login key: the same 64-bit hash and 16-digit
/// rendering used for content addresses.
pub open spec fn key_hash_of(key: Seq<char>) -> Seq<char> {
    derived_id(key)
}

/// A user as callers see it: the hash of its login key and its group.
pub struct User {
    pub key_hash: String,
    pub group_name: String,
}

pub ghost struct UserV {
    pub key_hash: Seq<char>,
    pub group_name: Seq<char>,
}

impl View for User {
    type V = UserV;

    open spec fn view(&self) -> UserV {
        UserV { key_hash: self.key_hash@, group_name: self.group_name@ }
    }
}

/// Whether some user row holds this key hash.
pub open spec fn has_user_hash(users: Seq<UserRowV>, key_hash: Seq<char>) -> bool {
    exists|i: int| 0 <= i < users.len() && (#[trigger] users[i]).key_hash == key_hash
}

impl User {
    /// Hashes a login key into its stored form.
    pub fn key_hash(key: &str) -> (r: String)
        ensures
            r@ == key_hash_of(key@),
    {
        crate::ident::derive_id(key)
    }

    /// Inserts a user under the hash of `key`. Fails with a store error
    /// exactly when that hash is already stored.
    pub fn new(store: &mut Store, key: &str, group_name: &str) -> (r: Result<User, Error>)
        ensures
            r is Ok <==> !has_user_hash(old(store)@.users, key_hash_of(key@)),
            r matches Ok(u) ==> {
                &&& u@.key_hash == key_hash_of(key@)
                &&& u@.group_name == group_name@
                &&& final(store)@ == (StoreView {
                    users: old(store)@.users.push(
                        UserRowV { key_hash: key_hash_of(key@), group_name: group_name@ },
                    ),
                    ..old(store)@
                })
            },
            r matches Err(e) ==> final(store)@ == old(store)@ && e.kind == ErrorKind::Store,
            old(store)@.wf() ==> final(store)@.wf(),
    {
        let hash = User::key_hash(key);
        let n = store.users.len();
        let mut i: usize = 0;
        while i < n
            invariant
                n == store.users.len(),
                0 <= i <= n,
                hash@ == key_hash_of(key@),
                forall|j: int| 0 <= j < i ==> (#[trigger] store@.users[j]).key_hash != hash@,
            decreases n - i,
        {
            proof {
                assert(store@.users[i as int] == store.users@[i as int]@);
            }
            if str_eq(store.users[i].key_hash.as_str(), hash.as_str()) {
                return Err(Error::new(ErrorKind::Store, "user key hash already stored"));
            }
            i = i + 1;
        }
        let u = User { key_hash: hash.clone(), group_name: crate::text::copy_str(group_name) };
        store.users.push(
            crate::store::UserRow { key_hash: hash, group_name: crate::text::copy_str(group_name) },
        );
        proof {
            assert(final(store)@ =~~= (StoreView {
                users: old(store)@.users.push(
                    UserRowV { key_hash: key_hash_of(key@), group_name: group_name@ },
                ),
                ..old(store)@
            }));
            let users1 = store@.users;
            assert forall|a: int, b: int|
                0 <= a < b < users1.len() && old(store)@.wf() implies (#[trigger] users1[a]).key_hash
                != (#[trigger] users1[b]).key_hash by {
                if b == users1.len() - 1 {
                    assert(old(store)@.users[a].key_hash != hash@);
                }
            }
        }
        Ok(u)
    }

    /// Looks a user up by its stored key hash.
    pub fn by_hash(store: &Store, key_hash: &str) -> (r: Option<User>)
        ensures
            r is Some <==> has_user_hash(store@.users, key_hash@),
            r matches Some(u) ==> exists|i: int|
                0 <= i < store@.users.len() && (#[trigger] store@.users[i]).key_hash == key_hash@
                    && u@.key_hash == key_hash@ && u@.group_name == store@.users[i].group_name,
    {
        let n = store.users.len();
        let mut i: usize = 0;
        while i < n
            invariant
                n == store.users.len(),
                0 <= i <= n,
                forall|j: int| 0 <= j < i ==> (#[trigger] store@.users[j]).key_hash != key_hash@,
            decreases n - i,
        {
            proof {
                assert(store@.users[i as int] == store.users@[i as int]@);
            }
            if str_eq(store.users[i].key_hash.as_str(), key_hash) {
                return Some(
                    User {
                        key_hash: crate::text::copy_str(key_hash),
                        group_name: store.users[i].group_name.clone(),
                    },
                );
            }
            i = i + 1;
        }
        None
    }

    /// Clears the user table.
    pub fn delete_all(store: &mut Store)
        ensures
            final(store)@ == (StoreView { users: Seq::<UserRowV>::empty(), ..old(store)@ }),
            old(store)@.wf() ==> final(store)@.wf(),
    {
        store.users = Vec::new();
        proof {
            assert(final(store)@ =~~= (StoreView {
                users: Seq::<UserRowV>::empty(),
                ..old(store)@
            }));
        }
    }
}

} // verus!

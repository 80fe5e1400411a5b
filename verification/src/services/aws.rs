//! User identities and an object store, kept in memory.

use vstd::prelude::*;

use crate::ids::{id_text, random_id, rfc4122_variant, uuid_text, uuid_version};
use crate::keyed::{
    has_key, keyed_map, keys_unique, lemma_keyed_map_at, lemma_keyed_map_push, lemma_keyed_map_update,
};
use crate::text::text_eq;

verus! {

/// Why an identity or storage operation failed.
#[derive(Debug)]
pub enum AwsError {
    Op(String),
}

/// Users are keyed by their identifier text.
pub open spec fn user_key() -> spec_fn((String, String)) -> Seq<char> {
    |e: (String, String)| e.0@
}

/// A user's email address.
pub open spec fn user_val() -> spec_fn((String, String)) -> Seq<char> {
    |e: (String, String)| e.1@
}

/// Objects are keyed by (bucket, key).
pub open spec fn object_key() -> spec_fn((String, String, Vec<u8>)) -> (Seq<char>, Seq<char>) {
    |e: (String, String, Vec<u8>)| (e.0@, e.1@)
}

/// An object's bytes.
pub open spec fn object_val() -> spec_fn((String, String, Vec<u8>)) -> Seq<u8> {
    |e: (String, String, Vec<u8>)| e.2@
}

/// A copy of `v`, byte by byte.
fn copy_bytes(v: &Vec<u8>) -> (r: Vec<u8>)
    ensures
        r@ == v@,
{
    let mut r: Vec<u8> = Vec::new();
    let mut i: usize = 0;
    while i < v.len()
        invariant
            i <= v.len(),
            r@ == v@.take(i as int),
        decreases v.len() - i,
    {
        r.push(v[i]);
        i += 1;
        assert(r@ =~= v@.take(i as int));
    }
    assert(v@.take(v.len() as int) =~= v@);
    r
}

/// An identity provider kept in memory: user identifier to email address.
#[derive(Debug)]
pub struct MockIdentityProvider {
    users: Vec<(String, String)>,
}

impl View for MockIdentityProvider {
    type V = Map<Seq<char>, Seq<char>>;

    closed spec fn view(&self) -> Map<Seq<char>, Seq<char>> {
        keyed_map(self.users@, user_key(), user_val())
    }
}

impl MockIdentityProvider {
    /// One user per identifier.
    #[verifier::type_invariant]
    closed spec fn wf(&self) -> bool {
        keys_unique(self.users@, user_key())
    }

    /// No users.
    pub fn new() -> (r: MockIdentityProvider)
        ensures
            r@ == Map::<Seq<char>, Seq<char>>::empty(),
    {
        let r = MockIdentityProvider { users: Vec::new() };
        assert(r@ =~= Map::<Seq<char>, Seq<char>>::empty());
        r
    }

    /// The position of user `id`, if present.
    fn user_index(&self, id: &str) -> (r: Option<usize>)
        ensures
            match r {
                Some(i) => i < self.users@.len() && self.users@[i as int].0@ == id@,
                None => !has_key(self.users@, user_key(), id@),
            },
    {
        let mut i: usize = 0;
        while i < self.users.len()
            invariant
                i <= self.users@.len(),
                forall|k: int| 0 <= k < i ==> user_key()(#[trigger] self.users@[k]) != id@,
            decreases self.users.len() - i,
        {
            if text_eq(self.users[i].0.as_str(), id) {
                return Some(i);
            }
            i += 1;
        }
        None
    }

    /// Records `email` under identifier `id`, replacing any user there.
    pub fn add_user(&mut self, id: String, email: &str)
        ensures
            final(self)@ == old(self)@.insert(id@, email@),
    {
        proof {
            use_type_invariant(&*self);
        }
        let entry = (id, email.to_owned());
        let ghost before = self.users@;
        let found = self.user_index(entry.0.as_str());
        let mut users: Vec<(String, String)> = Vec::new();
        std::mem::swap(&mut users, &mut self.users);
        match found {
            Some(i) => {
                proof {
                    lemma_keyed_map_update(before, user_key(), user_val(), i as int, entry);
                }
                users.set(i, entry);
            },
            None => {
                proof {
                    lemma_keyed_map_push(before, user_key(), user_val(), entry);
                }
                users.push(entry);
            },
        }
        self.users = users;
    }

    /// Creates a user with a fresh random identifier (a version 4 UUID) and
    /// returns the identifier's text.
    pub fn create_user(&mut self, email: &str) -> (r: Result<String, AwsError>)
        ensures
            r matches Ok(id) && final(self)@ == old(self)@.insert(id@, email@) && exists|n: u128|
                uuid_version(n) == 4 && rfc4122_variant(n) && id@ == uuid_text(n),
    {
        let n = random_id();
        let id = id_text(n);
        let text = id.clone();
        self.add_user(id, email);
        Ok(text)
    }

    /// The email address of user `id`, if there is one.
    pub fn get_user(&self, id: &str) -> (r: Result<Option<String>, AwsError>)
        ensures
            r matches Ok(o) && match o {
                Some(e) => self@.contains_key(id@) && self@[id@] == e@,
                None => !self@.contains_key(id@),
            },
    {
        proof {
            use_type_invariant(self);
        }
        match self.user_index(id) {
            Some(i) => {
                proof {
                    lemma_keyed_map_at(self.users@, user_key(), user_val(), i as int);
                }
                Ok(Some(self.users[i].1.clone()))
            },
            None => Ok(None),
        }
    }
}

/// An object store kept in memory: (bucket, key) to bytes.
#[derive(Debug)]
pub struct MockObjectStore {
    objects: Vec<(String, String, Vec<u8>)>,
}

impl View for MockObjectStore {
    type V = Map<(Seq<char>, Seq<char>), Seq<u8>>;

    closed spec fn view(&self) -> Map<(Seq<char>, Seq<char>), Seq<u8>> {
        keyed_map(self.objects@, object_key(), object_val())
    }
}

impl MockObjectStore {
    /// One object per (bucket, key).
    #[verifier::type_invariant]
    closed spec fn wf(&self) -> bool {
        keys_unique(self.objects@, object_key())
    }

    /// No objects.
    pub fn new() -> (r: MockObjectStore)
        ensures
            r@ == Map::<(Seq<char>, Seq<char>), Seq<u8>>::empty(),
    {
        let r = MockObjectStore { objects: Vec::new() };
        assert(r@ =~= Map::<(Seq<char>, Seq<char>), Seq<u8>>::empty());
        r
    }

    /// The position of object (bucket, key), if present.
    fn object_index(&self, bucket: &str, key: &str) -> (r: Option<usize>)
        ensures
            match r {
                Some(i) => i < self.objects@.len() && object_key()(self.objects@[i as int]) == (bucket@, key@),
                None => !has_key(self.objects@, object_key(), (bucket@, key@)),
            },
    {
        let mut i: usize = 0;
        while i < self.objects.len()
            invariant
                i <= self.objects@.len(),
                forall|k: int| 0 <= k < i ==> object_key()(#[trigger] self.objects@[k]) != (bucket@, key@),
            decreases self.objects.len() - i,
        {
            if text_eq(self.objects[i].0.as_str(), bucket) && text_eq(self.objects[i].1.as_str(), key) {
                return Some(i);
            }
            i += 1;
        }
        None
    }

    /// Stores `body` under (bucket, key), replacing any object there.
    pub fn put(&mut self, bucket: &str, key: &str, body: Vec<u8>) -> (r: Result<(), AwsError>)
        ensures
            r is Ok,
            final(self)@ == old(self)@.insert((bucket@, key@), body@),
    {
        proof {
            use_type_invariant(&*self);
        }
        let entry = (bucket.to_owned(), key.to_owned(), body);
        let ghost before = self.objects@;
        let found = self.object_index(bucket, key);
        let mut objects: Vec<(String, String, Vec<u8>)> = Vec::new();
        std::mem::swap(&mut objects, &mut self.objects);
        match found {
            Some(i) => {
                proof {
                    lemma_keyed_map_update(before, object_key(), object_val(), i as int, entry);
                }
                objects.set(i, entry);
            },
            None => {
                proof {
                    lemma_keyed_map_push(before, object_key(), object_val(), entry);
                }
                objects.push(entry);
            },
        }
        self.objects = objects;
        Ok(())
    }

    /// The bytes stored under (bucket, key), if any.
    pub fn get(&self, bucket: &str, key: &str) -> (r: Result<Option<Vec<u8>>, AwsError>)
        ensures
            r matches Ok(o) && match o {
                Some(b) => self@.contains_key((bucket@, key@)) && self@[(bucket@, key@)] == b@,
                None => !self@.contains_key((bucket@, key@)),
            },
    {
        proof {
            use_type_invariant(self);
        }
        match self.object_index(bucket, key) {
            Some(i) => {
                proof {
                    lemma_keyed_map_at(self.objects@, object_key(), object_val(), i as int);
                }
                Ok(Some(copy_bytes(&self.objects[i].2)))
            },
            None => Ok(None),
        }
    }
}

} // verus!

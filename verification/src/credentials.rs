//! The credential store: one salt and one password digest per username.
//!
//! Registration is implicit.  The first password ever presented for a
//! username is hashed and recorded as its permanent credential; every
//! later attempt is checked against that record.

use vstd::prelude::*;

use crate::crypto::is_alnum_char;
use crate::crypto::rand_string;
use crate::strmap::StrMap;

verus! {

/// The length of every generated salt.
pub const SALT_LEN: usize = 50;

/// A well-formed salt: fifty alphanumeric characters.
pub open spec fn salt_wf(s: Seq<char>) -> bool {
    s.len() == SALT_LEN && forall|i: int| 0 <= i < s.len() ==> is_alnum_char(#[trigger] s[i])
}

/// Durable authentication state: a salt table and a digest table, both
/// keyed by username.
pub struct CredentialStore {
    pub salts: StrMap<String>,
    pub hashes: StrMap<String>,
}

impl CredentialStore {
    /// Both tables are well formed and every stored salt has the shape a
    /// generated salt has.
    pub open spec fn wf(&self) -> bool {
        &&& self.salts.wf()
        &&& self.hashes.wf()
        &&& forall|k: Seq<char>| self.salts@.contains_key(k) ==> salt_wf(
            (#[trigger] self.salts@[k])@,
        )
    }

    pub fn new() -> (store: Self)
        ensures
            store.wf(),
            store.salts@ == Map::<Seq<char>, String>::empty(),
            store.hashes@ == Map::<Seq<char>, String>::empty(),
    {
        CredentialStore { salts: StrMap::new(), hashes: StrMap::new() }
    }

    /// Returns the salt of `username`, generating and recording a fresh
    /// random one on first sight of the name.
    pub fn get_or_create_salt(&mut self, username: &String) -> (salt: String)
        requires
            old(self).wf(),
        ensures
            final(self).wf(),
            final(self).hashes@ == old(self).hashes@,
            salt_wf(salt@),
            final(self).salts@.contains_key(username@),
            final(self).salts@[username@] == salt,
            old(self).salts@.contains_key(username@) ==> {
                &&& final(self).salts@ == old(self).salts@
                &&& salt == old(self).salts@[username@]
            },
            !old(self).salts@.contains_key(username@) ==> final(self).salts@ == old(
                self,
            ).salts@.insert(username@, salt),
    {
        match self.salts.get(username) {
            Some(stored) => stored.clone(),
            None => {
                let salt = rand_string(SALT_LEN);
                self.salts.insert(username.clone(), salt.clone());
                salt
            },
        }
    }

    /// Whether `digest` is the credential the store holds (or now holds)
    /// for `username`.
    pub open spec fn check_spec(hashes: Map<Seq<char>, String>, u: Seq<char>, digest: Seq<char>) -> bool {
        hashes.contains_key(u) ==> hashes[u]@ == digest
    }

    /// Checks a salted digest against the stored credential; a username
    /// with no credential yet gets this digest as its permanent one and
    /// passes.
    pub fn verify_or_register(&mut self, username: &String, salted_hash: String) -> (ok: bool)
        requires
            old(self).wf(),
        ensures
            final(self).wf(),
            final(self).salts@ == old(self).salts@,
            ok == Self::check_spec(old(self).hashes@, username@, salted_hash@),
            old(self).hashes@.contains_key(username@) ==> final(self).hashes@ == old(
                self,
            ).hashes@,
            !old(self).hashes@.contains_key(username@) ==> final(self).hashes@ == old(
                self,
            ).hashes@.insert(username@, salted_hash),
    {
        match self.hashes.get(username) {
            Some(stored) => *stored == salted_hash,
            None => {
                self.hashes.insert(username.clone(), salted_hash);
                true
            },
        }
    }
}

} // verus!

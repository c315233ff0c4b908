//! The hub's authoritative state: configured channels, credentials, the
//! user registry, live sessions, and message history.

use vstd::prelude::*;

use crate::credentials::CredentialStore;
use crate::dm::dm_parts;
use crate::dm::is_dm_name;
use crate::dm::lemma_dm_parts;
use crate::dm::parse_dm;
use crate::dm::user_hash;
use crate::history::HistoryStore;
use crate::registry::has_name;
use crate::registry::SessionRegistry;
use crate::strmap::has_value;
use crate::strmap::StrMap;

verus! {

/// A hash that belongs to some user who has logged in at least once.
pub open spec fn registered_hash(users: Map<Seq<char>, i64>, h: u64) -> bool {
    h as int <= i64::MAX as int && has_value(users, h as i64)
}

/// A DM channel name is valid only if it encodes two identity hashes in
/// ascending order and both belong to users the hub has seen log in.
pub open spec fn valid_dm_spec(users: Map<Seq<char>, i64>, ch: Seq<char>) -> bool {
    &&& is_dm_name(ch)
    &&& dm_parts(ch).0 <= dm_parts(ch).1
    &&& registered_hash(users, dm_parts(ch).0)
    &&& registered_hash(users, dm_parts(ch).1)
}

/// Decides whether a DM channel name may be materialized: it must be the
/// canonical rendering of an ascending pair of registered identity
/// hashes.
pub fn is_valid_dm(channel: &str, users: &StrMap<i64>) -> (r: bool)
    requires
        users.wf(),
    ensures
        r == valid_dm_spec(users@, channel@),
{
    match parse_dm(channel) {
        Some((a, b)) => {
            proof {
                lemma_dm_parts(a, b);
            }
            if a > b {
                return false;
            }
            if a > i64::MAX as u64 || b > i64::MAX as u64 {
                return false;
            }
            users.contains_value(a as i64) && users.contains_value(b as i64)
        },
        None => false,
    }
}

/// Everything the hub owns, durable and in-memory.
pub struct ServerState {
    /// The channel names provisioned from configuration at startup.
    pub channels: Vec<String>,
    /// Salts and password digests.
    pub creds: CredentialStore,
    /// The identity hash of every username that has logged in, with the
    /// hashes pairwise distinct.
    pub users: StrMap<i64>,
    /// Session tokens and live connections.
    pub registry: SessionRegistry,
    /// Per-channel message logs.
    pub history: HistoryStore,
}

impl ServerState {
    pub open spec fn wf(&self) -> bool {
        &&& self.creds.wf()
        &&& self.users.wf()
        &&& self.registry.wf()
        &&& self.history.wf()
        &&& forall|k1: Seq<char>, k2: Seq<char>|
            self.users@.contains_key(k1) && self.users@.contains_key(k2) && k1 != k2
                ==> #[trigger] self.users@[k1] != #[trigger] self.users@[k2]
    }

    /// A fresh hub with one empty history table per configured channel
    /// and no users, sessions, or connections.
    pub fn new(channels: Vec<String>) -> (s: Self)
        ensures
            s.wf(),
            s.channels@ == channels@,
            s.creds.salts@ == Map::<Seq<char>, String>::empty(),
            s.creds.hashes@ == Map::<Seq<char>, String>::empty(),
            s.users@ == Map::<Seq<char>, i64>::empty(),
            s.registry.tokens@ == Map::<Seq<char>, String>::empty(),
            s.registry.connections@ == Seq::<String>::empty(),
            forall|i: int|
                0 <= i < channels@.len() ==> {
                    &&& s.history.tables@.contains_key((#[trigger] channels@[i])@)
                    &&& s.history.tables@[channels@[i]@]@.len() == 0
                },
            forall|ch: Seq<char>| s.history.tables@.contains_key(ch) ==> has_name(channels@, ch),
    {
        let mut history = HistoryStore::new();
        let n = channels.len();
        let mut i: usize = 0;
        while i < n
            invariant
                history.wf(),
                n == channels@.len(),
                i <= n,
                forall|j: int|
                    0 <= j < i ==> {
                        &&& history.tables@.contains_key((#[trigger] channels@[j])@)
                        &&& history.tables@[channels@[j]@]@.len() == 0
                    },
                forall|ch: Seq<char>| history.tables@.contains_key(ch) ==> has_name(
                    channels@.subrange(0, i as int),
                    ch,
                ),
            decreases n - i,
        {
            let ghost prefix = channels@.subrange(0, i as int);
            let ghost grown = channels@.subrange(0, i + 1);
            history.create_channel(&channels[i]);
            proof {
                assert(forall|j: int| 0 <= j < prefix.len() ==> #[trigger] grown[j] == prefix[j]);
                assert(grown[i as int] == channels@[i as int]);
                assert forall|ch: Seq<char>| history.tables@.contains_key(ch) implies has_name(
                    grown,
                    ch,
                ) by {
                    if ch != channels@[i as int]@ {
                        let w = choose|w: int|
                            0 <= w < prefix.len() && (#[trigger] prefix[w])@ == ch;
                        assert(grown[w]@ == ch);
                    } else {
                        assert(grown[i as int]@ == ch);
                    }
                }
                assert(has_name(prefix, channels@[i as int]@) ==> exists|j: int|
                    0 <= j < i && (#[trigger] channels@[j])@ == channels@[i as int]@) by {
                    if has_name(prefix, channels@[i as int]@) {
                        let w = choose|w: int|
                            0 <= w < prefix.len() && (#[trigger] prefix[w])@ == channels@[
                                i as int
                            ]@;
                        assert(channels@[w]@ == channels@[i as int]@);
                    }
                }
            }
            i = i + 1;
        }
        proof {
            assert(channels@.subrange(0, n as int) =~= channels@);
        }
        ServerState {
            channels,
            creds: CredentialStore::new(),
            users: StrMap::new(),
            registry: SessionRegistry::new(),
            history,
        }
    }

    /// Records the identity hash of a username that just logged in.  The
    /// row is keyed by username with a uniqueness constraint on the
    /// hash, so a name already present, or a hash already taken by
    /// another name, leaves the registry as it is.
    pub fn record_user(&mut self, username: &String)
        requires
            old(self).wf(),
        ensures
            final(self).wf(),
            final(self).channels@ == old(self).channels@,
            final(self).creds == old(self).creds,
            final(self).registry == old(self).registry,
            final(self).history == old(self).history,
            ({
                let h = user_hash(username@) as i64;
                if old(self).users@.contains_key(username@) || has_value(old(self).users@, h) {
                    final(self).users@ == old(self).users@
                } else {
                    final(self).users@ == old(self).users@.insert(username@, h)
                }
            }),
    {
        let h = crate::dm::hash_username(username.as_str());
        if self.users.contains_key(username) {
            return;
        }
        if self.users.contains_value(h) {
            return;
        }
        self.users.insert(username.clone(), h);
        assert(final(self).wf()) by {
            let updated = final(self).users@;
            assert forall|k1: Seq<char>, k2: Seq<char>|
                updated.contains_key(k1) && updated.contains_key(k2) && k1 != k2
                implies #[trigger] updated[k1] != #[trigger] updated[k2] by {
                if k1 != username@ && k2 != username@ {
                    assert(old(self).users@.contains_key(k1));
                    assert(old(self).users@.contains_key(k2));
                } else if k1 == username@ {
                    assert(old(self).users@.contains_key(k2));
                } else {
                    assert(old(self).users@.contains_key(k1));
                }
            }
        }
    }
}

} // verus!

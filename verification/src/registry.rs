//! The session registry: who is authenticated and who is reachable.
//!
//! The registry owns two maps.  `tokens` holds the session token issued
//! to each authenticated username; every message is checked against it.
//! `connections` lists the usernames with a live outbound stream; the
//! transport layer keeps the stream handles themselves and tells the
//! registry when a peer registers, disconnects, or fails a write.

use vstd::prelude::*;

use crate::crypto::is_alnum_char;
use crate::crypto::rand_string;
use crate::messages::Message;
use crate::strmap::StrMap;

verus! {

/// The length of every issued session token.
pub const TOKEN_LEN: usize = 100;

/// Some element of `s` reads `u`.
pub open spec fn has_name(s: Seq<String>, u: Seq<char>) -> bool {
    exists|i: int| 0 <= i < s.len() && (#[trigger] s[i])@ == u
}

/// The position of the element reading `u`.
pub open spec fn name_index(s: Seq<String>, u: Seq<char>) -> int {
    choose|i: int| 0 <= i < s.len() && (#[trigger] s[i])@ == u
}

/// No two elements read the same.
pub open spec fn unique_names(s: Seq<String>) -> bool {
    forall|i: int, j: int| 0 <= i < j < s.len() ==> (#[trigger] s[i])@ != (#[trigger] s[j])@
}

/// `s` with every name listed in `bad` left out, in order.
pub open spec fn prune_names(s: Seq<String>, bad: Seq<String>) -> Seq<String>
    decreases s.len(),
{
    if s.len() == 0 {
        s
    } else if has_name(bad, s.last()@) {
        prune_names(s.drop_last(), bad)
    } else {
        prune_names(s.drop_last(), bad).push(s.last())
    }
}

/// Law: pruning removes exactly the failed names.  A name survives the
/// prune if and only if it was connected and did not fail, so a pruned
/// peer is gone from the live set while every other peer stays.
pub proof fn lemma_prune_names(s: Seq<String>, bad: Seq<String>, u: Seq<char>)
    ensures
        has_name(prune_names(s, bad), u) <==> (has_name(s, u) && !has_name(bad, u)),
    decreases s.len(),
{
    if s.len() > 0 {
        let p = s.drop_last();
        lemma_prune_names(p, bad, u);
        assert(has_name(s, u) <==> (has_name(p, u) || s.last()@ == u)) by {
            if has_name(s, u) {
                let i = choose|i: int| 0 <= i < s.len() && (#[trigger] s[i])@ == u;
                if i < s.len() - 1 {
                    assert(p[i]@ == u);
                }
            }
            if has_name(p, u) {
                let i = choose|i: int| 0 <= i < p.len() && (#[trigger] p[i])@ == u;
                assert(s[i]@ == u);
            }
            assert(s.last() == s[s.len() - 1]);
        }
        if !has_name(bad, s.last()@) {
            let q = prune_names(p, bad).push(s.last());
            assert(has_name(q, u) <==> (has_name(prune_names(p, bad), u) || s.last()@ == u)) by {
                let r = prune_names(p, bad);
                if has_name(q, u) {
                    let i = choose|i: int| 0 <= i < q.len() && (#[trigger] q[i])@ == u;
                    if i < r.len() {
                        assert(r[i]@ == u);
                    }
                }
                if has_name(r, u) {
                    let i = choose|i: int| 0 <= i < r.len() && (#[trigger] r[i])@ == u;
                    assert(q[i]@ == u);
                }
                assert(q[q.len() - 1] == s.last());
            }
        }
    }
}

/// Pruning keeps names pairwise distinct.
pub proof fn lemma_prune_unique(s: Seq<String>, bad: Seq<String>)
    requires
        unique_names(s),
    ensures
        unique_names(prune_names(s, bad)),
    decreases s.len(),
{
    if s.len() > 0 {
        let p = s.drop_last();
        assert(unique_names(p)) by {
            assert(forall|i: int| 0 <= i < p.len() ==> #[trigger] p[i] == s[i]);
        }
        lemma_prune_unique(p, bad);
        if !has_name(bad, s.last()@) {
            let r = prune_names(p, bad);
            let q = r.push(s.last());
            assert(!has_name(p, s.last()@)) by {
                if has_name(p, s.last()@) {
                    let i = choose|i: int| 0 <= i < p.len() && (#[trigger] p[i])@ == s.last()@;
                    assert(s[i]@ == s[s.len() - 1]@);
                }
            }
            lemma_prune_names(p, bad, s.last()@);
            assert(unique_names(q)) by {
                assert(forall|i: int| 0 <= i < r.len() ==> #[trigger] q[i] == r[i]);
                assert(q[q.len() - 1] == s.last());
                assert forall|i: int, j: int| 0 <= i < j < q.len() implies (#[trigger] q[i])@
                    != (#[trigger] q[j])@ by {
                    if j == q.len() - 1 {
                        assert(has_name(r, q[i]@));
                    }
                }
            }
        }
    }
}

/// In-memory session state: issued tokens and live connections.
pub struct SessionRegistry {
    pub tokens: StrMap<String>,
    pub connections: Vec<String>,
}

/// Whether a message presents the token the registry currently holds for
/// the username it claims.  A message with no token, or naming a user
/// that never authenticated, is never authentic.
pub open spec fn authentic_spec(tokens: Map<Seq<char>, String>, m: &Message) -> bool {
    match m.spec_auth_token() {
        Some(t) => tokens.contains_key(m.spec_username()) && tokens[m.spec_username()]@ == t,
        None => false,
    }
}

impl SessionRegistry {
    pub open spec fn wf(&self) -> bool {
        self.tokens.wf() && unique_names(self.connections@)
    }

    /// Whether `u` has a live connection.
    pub open spec fn connected(&self, u: Seq<char>) -> bool {
        has_name(self.connections@, u)
    }

    pub fn new() -> (r: Self)
        ensures
            r.wf(),
            r.tokens@ == Map::<Seq<char>, String>::empty(),
            r.connections@ == Seq::<String>::empty(),
    {
        let r = SessionRegistry { tokens: StrMap::new(), connections: Vec::new() };
        proof {
            assert(r.connections@ =~= Seq::<String>::empty());
        }
        r
    }

    /// Issues a fresh random session token to `username`, replacing any
    /// earlier one.  The replaced token stops being authentic; the old
    /// session's connection, if any, stays registered until it fails.
    pub fn issue_token(&mut self, username: &String) -> (token: String)
        requires
            old(self).wf(),
        ensures
            final(self).wf(),
            token@.len() == TOKEN_LEN,
            forall|i: int| 0 <= i < token@.len() ==> is_alnum_char(#[trigger] token@[i]),
            final(self).tokens@ == old(self).tokens@.insert(username@, token),
            final(self).connections@ == old(self).connections@,
    {
        let token = rand_string(TOKEN_LEN);
        self.tokens.insert(username.clone(), token.clone());
        token
    }

    /// Checks a message's claimed identity and presented token against
    /// the issued tokens.
    pub fn is_authentic(&self, message: &Message) -> (r: bool)
        requires
            self.wf(),
        ensures
            r == authentic_spec(self.tokens@, message),
    {
        let presented = match message.auth_token() {
            Some(t) => t,
            None => {
                return false;
            },
        };
        let name = message.username();
        match self.tokens.get(&name) {
            Some(stored) => *stored == presented,
            None => false,
        }
    }

    /// Records a live connection for `username`.  Registering an already
    /// connected name keeps the set as it is; the transport layer
    /// replaces its stored stream handle.
    pub fn register(&mut self, username: String)
        requires
            old(self).wf(),
        ensures
            final(self).wf(),
            final(self).tokens@ == old(self).tokens@,
            final(self).connected(username@),
            old(self).connected(username@) ==> final(self).connections@ == old(
                self,
            ).connections@,
            !old(self).connected(username@) ==> final(self).connections@ == old(
                self,
            ).connections@.push(username),
    {
        if !contains_name(&self.connections, &username) {
            let ghost before = self.connections@;
            self.connections.push(username);
            proof {
                assert(forall|i: int|
                    0 <= i < before.len() ==> #[trigger] self.connections@[i] == before[i]);
                assert(self.connections@[before.len() as int]@ == username@);
            }
        }
    }

    /// Drops the live connection of `username`, if any.
    pub fn unregister(&mut self, username: &String)
        requires
            old(self).wf(),
        ensures
            final(self).wf(),
            final(self).tokens@ == old(self).tokens@,
            !final(self).connected(username@),
            forall|q: Seq<char>|
                q != username@ ==> (final(self).connected(q) <==> old(self).connected(q)),
            old(self).connected(username@) ==> final(self).connections@ == old(
                self,
            ).connections@.remove(name_index(old(self).connections@, username@)),
            !old(self).connected(username@) ==> final(self).connections@ == old(
                self,
            ).connections@,
    {
        let n = self.connections.len();
        let mut i: usize = 0;
        while i < n
            invariant
                self.wf(),
                self == old(self),
                n == self.connections@.len(),
                i <= n,
                forall|j: int| 0 <= j < i ==> (#[trigger] self.connections@[j])@ != username@,
            decreases n - i,
        {
            if self.connections[i] == *username {
                let ghost before = self.connections@;
                proof {
                    assert forall|w: int|
                        0 <= w < before.len() && (#[trigger] before[w])@ == username@
                        implies w == i as int by {
                        if w < i as int {
                            assert(before[w]@ != username@);
                        } else if w > i as int {
                            assert(before[i as int]@ != before[w]@);
                        }
                    }
                    assert(name_index(before, username@) == i as int);
                }
                self.connections.remove(i);
                proof {
                    let after = self.connections@;
                    assert(forall|j: int| 0 <= j < i ==> #[trigger] after[j] == before[j]);
                    assert(forall|j: int|
                        i <= j < after.len() ==> #[trigger] after[j] == before[j + 1]);
                    assert(unique_names(after));
                    assert(!has_name(after, username@)) by {
                        if has_name(after, username@) {
                            let j = choose|j: int|
                                0 <= j < after.len() && (#[trigger] after[j])@ == username@;
                        }
                    }
                    assert forall|q: Seq<char>|
                        q != username@ implies (has_name(after, q) <==> has_name(before, q)) by {
                        if has_name(after, q) {
                            let j = choose|j: int|
                                0 <= j < after.len() && (#[trigger] after[j])@ == q;
                            if j < i {
                                assert(before[j]@ == q);
                            } else {
                                assert(before[j + 1]@ == q);
                            }
                        }
                        if has_name(before, q) {
                            let j = choose|j: int|
                                0 <= j < before.len() && (#[trigger] before[j])@ == q;
                            if j < i {
                                assert(after[j]@ == q);
                            } else {
                                assert(j != i as int);
                                assert(after[j - 1]@ == q);
                            }
                        }
                    }
                }
                return;
            }
            i = i + 1;
        }
        assert(!has_name(self.connections@, username@));
    }

    /// Drops every connection whose write failed.  The remaining
    /// connections keep their order.
    pub fn prune(&mut self, bad: &Vec<String>)
        requires
            old(self).wf(),
        ensures
            final(self).wf(),
            final(self).tokens@ == old(self).tokens@,
            final(self).connections@ == prune_names(old(self).connections@, bad@),
    {
        let n = self.connections.len();
        let mut kept: Vec<String> = Vec::new();
        let mut i: usize = 0;
        while i < n
            invariant
                self.wf(),
                self == old(self),
                n == self.connections@.len(),
                i <= n,
                kept@ == prune_names(self.connections@.subrange(0, i as int), bad@),
            decreases n - i,
        {
            let ghost prefix = self.connections@.subrange(0, i as int);
            let ghost grown = self.connections@.subrange(0, i + 1);
            assert(grown.drop_last() =~= prefix);
            assert(grown.last() == self.connections@[i as int]);
            if !contains_name(bad, &self.connections[i]) {
                let name = self.connections[i].clone();
                kept.push(name);
            }
            i = i + 1;
        }
        assert(self.connections@.subrange(0, n as int) =~= self.connections@);
        proof {
            lemma_prune_unique(self.connections@, bad@);
        }
        self.connections = kept;
    }
}

/// Whether some element of `v` reads the same as `u`.
pub fn contains_name(v: &Vec<String>, u: &String) -> (r: bool)
    ensures
        r == has_name(v@, u@),
{
    let n = v.len();
    let mut i: usize = 0;
    while i < n
        invariant
            n == v@.len(),
            i <= n,
            forall|j: int| 0 <= j < i ==> (#[trigger] v@[j])@ != u@,
        decreases n - i,
    {
        if v[i] == *u {
            return true;
        }
        i = i + 1;
    }
    false
}

} // verus!

//! The per-channel durable message log.
//!
//! Each channel owns one append-only table of history entries.  The
//! store assigns the row identifier: the `n`-th entry of a channel gets
//! id `n`, counted from one, and entries are never changed or removed.

use vstd::prelude::*;

use crate::strmap::StrMap;

verus! {

/// One stored message: the row of a channel's history table.
pub struct HistoryEntry {
    pub id: u32,
    pub username: String,
    pub body: String,
    pub timestamp: u64,
    pub embed_pointer: Option<usize>,
    pub embed_type: Option<String>,
}

impl HistoryEntry {
    /// A field-for-field copy.
    pub fn duplicate(&self) -> (r: Self)
        ensures
            r == *self,
    {
        HistoryEntry {
            id: self.id,
            username: self.username.clone(),
            body: self.body.clone(),
            timestamp: self.timestamp,
            embed_pointer: self.embed_pointer,
            embed_type: match &self.embed_type {
                Some(t) => Some(t.clone()),
                None => None,
            },
        }
    }
}

/// A channel log numbers its entries from one, in insertion order, and
/// has room left for another row identifier.
pub open spec fn log_wf(log: Seq<HistoryEntry>) -> bool {
    &&& log.len() <= u32::MAX
    &&& forall|i: int| 0 <= i < log.len() ==> (#[trigger] log[i]).id == i + 1
}

/// The most recent `count` entries of a log, oldest first.
pub open spec fn tail_of(log: Seq<HistoryEntry>, count: nat) -> Seq<HistoryEntry> {
    if log.len() <= count {
        log
    } else {
        log.subrange(log.len() - count, log.len() as int)
    }
}

/// Law: history replay round-trips insertion order.  Three messages
/// appended to a channel in order come back from a replay of the three
/// most recent entries in exactly that order — oldest first, not
/// reversed, not reordered — whatever the log held before.
pub proof fn lemma_history_round_trip(
    log: Seq<HistoryEntry>,
    e1: HistoryEntry,
    e2: HistoryEntry,
    e3: HistoryEntry,
)
    ensures
        tail_of(log.push(e1).push(e2).push(e3), 3) == seq![e1, e2, e3],
{
    assert(tail_of(log.push(e1).push(e2).push(e3), 3) =~= seq![e1, e2, e3]);
}

/// All channel histories, keyed by channel name.  A channel has history
/// exactly when its table exists.
pub struct HistoryStore {
    pub tables: StrMap<Vec<HistoryEntry>>,
}

impl HistoryStore {
    pub open spec fn wf(&self) -> bool {
        &&& self.tables.wf()
        &&& forall|ch: Seq<char>| self.tables@.contains_key(ch) ==> log_wf(
            (#[trigger] self.tables@[ch])@,
        )
    }

    pub fn new() -> (r: Self)
        ensures
            r.wf(),
            r.tables@ == Map::<Seq<char>, Vec<HistoryEntry>>::empty(),
    {
        HistoryStore { tables: StrMap::new() }
    }

    /// Whether a channel's table exists.
    pub fn channel_exists(&self, channel: &String) -> (r: bool)
        requires
            self.wf(),
        ensures
            r == self.tables@.contains_key(channel@),
    {
        self.tables.contains_key(channel)
    }

    /// Creates a channel's table if it does not exist yet.
    pub fn create_channel(&mut self, channel: &String)
        requires
            old(self).wf(),
        ensures
            final(self).wf(),
            final(self).tables@.contains_key(channel@),
            old(self).tables@.contains_key(channel@) ==> final(self).tables@ == old(
                self,
            ).tables@,
            !old(self).tables@.contains_key(channel@) ==> {
                &&& final(self).tables@.dom() == old(self).tables@.dom().insert(channel@)
                &&& final(self).tables@[channel@]@.len() == 0
                &&& forall|ch: Seq<char>|
                    ch != channel@ && old(self).tables@.contains_key(ch)
                        ==> final(self).tables@[ch] == old(self).tables@[ch]
            },
    {
        if !self.tables.contains_key(channel) {
            let empty: Vec<HistoryEntry> = Vec::new();
            self.tables.insert(channel.clone(), empty);
            proof {
                assert(final(self).tables@.dom() =~= old(self).tables@.dom().insert(channel@));
            }
        }
    }

    /// Appends a message to a channel's table and hands back the row
    /// identifier the store assigned.  Fails exactly when the channel
    /// has no table or its log has run out of row identifiers.
    pub fn append(
        &mut self,
        channel: &String,
        username: String,
        body: String,
        timestamp: u64,
        embed_pointer: Option<usize>,
        embed_type: Option<String>,
    ) -> (r: Option<u32>)
        requires
            old(self).wf(),
        ensures
            final(self).wf(),
            match r {
                Some(id) => {
                    &&& old(self).tables@.contains_key(channel@)
                    &&& old(self).tables@[channel@]@.len() < u32::MAX
                    &&& id == old(self).tables@[channel@]@.len() + 1
                    &&& final(self).tables@.dom() == old(self).tables@.dom()
                    &&& final(self).tables@[channel@]@ == old(self).tables@[channel@]@.push(
                        HistoryEntry {
                            id,
                            username,
                            body,
                            timestamp,
                            embed_pointer,
                            embed_type,
                        },
                    )
                    &&& forall|ch: Seq<char>|
                        ch != channel@ && old(self).tables@.contains_key(ch)
                            ==> final(self).tables@[ch] == old(self).tables@[ch]
                },
                None => {
                    &&& final(self).tables@ == old(self).tables@
                    &&& (old(self).tables@.contains_key(channel@) ==> old(
                        self,
                    ).tables@[channel@]@.len() >= u32::MAX)
                },
            },
{
        match self.tables.take(channel) {
            Some(mut log) => {
                let n = log.len();
                if n >= u32::MAX as usize {
                    // The table is full: no row identifier is left.
                    self.tables.insert(channel.clone(), log);
                    proof {
                        assert(final(self).tables@ =~= old(self).tables@);
                    }
                    return None;
                }
                let id: u32 = (n as u32) + 1;
                let entry = HistoryEntry {
                    id,
                    username,
                    body,
                    timestamp,
                    embed_pointer,
                    embed_type,
                };
                log.push(entry);
                self.tables.insert(channel.clone(), log);
                proof {
                    assert(final(self).tables@.dom() =~= old(self).tables@.dom());
                }
                Some(id)
            },
            None => None,
        }
    }

    /// The most recent `count` entries of a channel, oldest first, as
    /// copies.  A channel without a table has no history.
    pub fn tail(&self, channel: &String, count: usize) -> (r: Vec<HistoryEntry>)
        requires
            self.wf(),
        ensures
            self.tables@.contains_key(channel@) ==> r@ == tail_of(
                self.tables@[channel@]@,
                count as nat,
            ),
            !self.tables@.contains_key(channel@) ==> r@ == Seq::<HistoryEntry>::empty(),
    {
        let mut out: Vec<HistoryEntry> = Vec::new();
        let log = match self.tables.get(channel) {
            Some(log) => log,
            None => {
                proof {
                    assert(out@ =~= Seq::<HistoryEntry>::empty());
                }
                return out;
            },
        };
        let n = log.len();
        let start = if n <= count {
            0
        } else {
            n - count
        };
        let mut i: usize = start;
        while i < n
            invariant
                start <= i <= n,
                n == log@.len(),
                out@ == log@.subrange(start as int, i as int),
            decreases n - i,
        {
            let entry = log[i].duplicate();
            out.push(entry);
            proof {
                assert(log@.subrange(start as int, i + 1 as int) =~= log@.subrange(
                    start as int,
                    i as int,
                ).push(log@[i as int]));
            }
            i = i + 1;
        }
        proof {
            assert(out@ =~= tail_of(self.tables@[channel@]@, count as nat));
        }
        out
    }
}

} // verus!

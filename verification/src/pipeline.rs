//! The message pipeline and the broadcaster.
//!
//! A text message that passed the token check flows through here: the
//! pipeline validates its channel (materializing a DM table on first
//! valid use), overwrites the client-supplied timestamp with the
//! server's clock, appends the message to the channel's log, takes the
//! assigned row identifier as the message id, and hands the finished
//! message on for delivery.  The broadcaster decides who receives it: a
//! DM channel reaches only its two encoded participants, every other
//! channel reaches every live connection.

use vstd::prelude::*;

use crate::dm::allowed_dm;
use crate::dm::allowed_dm_spec;
use crate::dm::dm_parts;
use crate::dm::is_dm;
use crate::dm::is_dm_name;
use crate::dm::is_dm_prefix;
use crate::dm::lemma_dm_name_shape;
use crate::dm::user_hash;
use crate::history::HistoryEntry;
use crate::messages::TextMessage;
use crate::registry::has_name;
use crate::registry::prune_names;
use crate::registry::lemma_prune_names;
use crate::registry::SessionRegistry;
use crate::state::is_valid_dm;
use crate::state::valid_dm_spec;
use crate::state::ServerState;

verus! {

/// The log a channel had, or an empty one for a channel without a table
/// yet.
pub open spec fn prior_log(tables: Map<Seq<char>, Vec<HistoryEntry>>, ch: Seq<char>) -> Seq<
    HistoryEntry,
> {
    if tables.contains_key(ch) {
        tables[ch]@
    } else {
        Seq::empty()
    }
}

/// Whether the pipeline accepts a text message for channel `ch`: the
/// channel's table exists and has a row identifier left, or the channel
/// is a valid DM channel whose table is created on the spot.
pub open spec fn text_accepted(
    users: Map<Seq<char>, i64>,
    tables: Map<Seq<char>, Vec<HistoryEntry>>,
    ch: Seq<char>,
) -> bool {
    if tables.contains_key(ch) {
        tables[ch]@.len() < u32::MAX
    } else {
        is_dm_prefix(ch) && valid_dm_spec(users, ch)
    }
}

/// The republished message keeps the sender's identity and content and
/// carries the server-assigned stamps.
pub open spec fn stamped(msg: TextMessage, out: TextMessage, now: u64, id: u32) -> bool {
    &&& out.username@ == msg.username@
    &&& out.auth_token@ == msg.auth_token@
    &&& out.body@ == msg.body@
    &&& out.channel@ == msg.channel@
    &&& out.embed_pointer == msg.embed_pointer
    &&& out.embed_type.deep_view() == msg.embed_type.deep_view()
    &&& out.timestamp == now
    &&& out.message_id == Some(id)
}

/// The channel log grew by exactly the stored form of `out`.
pub open spec fn persisted(
    prior: Seq<HistoryEntry>,
    log: Seq<HistoryEntry>,
    out: TextMessage,
    now: u64,
) -> bool {
    &&& log.len() == prior.len() + 1
    &&& log.drop_last() == prior
    &&& log.last().id == prior.len() + 1
    &&& log.last().username@ == out.username@
    &&& log.last().body@ == out.body@
    &&& log.last().timestamp == now
    &&& log.last().embed_pointer == out.embed_pointer
    &&& log.last().embed_type.deep_view() == out.embed_type.deep_view()
}

/// Validates, stamps, and persists one authenticated text message.
/// Returns the finished message to broadcast, or nothing if the message
/// was discarded; a discarded message leaves the hub unchanged.
pub fn process_text(state: &mut ServerState, message: TextMessage, now: u64) -> (r: Option<
    TextMessage,
>)
    requires
        old(state).wf(),
    ensures
        final(state).wf(),
        final(state).channels@ == old(state).channels@,
        final(state).creds == old(state).creds,
        final(state).users == old(state).users,
        final(state).registry == old(state).registry,
        ({
            let ch = message.channel@;
            let accepted = text_accepted(old(state).users@, old(state).history.tables@, ch);
            let prior = prior_log(old(state).history.tables@, ch);
            match r {
                Some(out) => {
                    &&& accepted
                    &&& prior.len() + 1 <= u32::MAX
                    &&& stamped(message, out, now, (prior.len() + 1) as u32)
                    &&& final(state).history.tables@.contains_key(ch)
                    &&& persisted(prior, final(state).history.tables@[ch]@, out, now)
                    &&& forall|c: Seq<char>|
                        c != ch && old(state).history.tables@.contains_key(c)
                            ==> final(state).history.tables@[c] == old(state).history.tables@[c]
                    &&& (old(state).history.tables@.contains_key(ch)
                        ==> final(state).history.tables@.dom() == old(state).history.tables@.dom())
                    &&& (!old(state).history.tables@.contains_key(ch)
                        ==> final(state).history.tables@.dom()
                            == old(state).history.tables@.dom().insert(ch))
                },
                None => {
                    &&& !accepted
                    &&& final(state).history.tables@ == old(state).history.tables@
                },
            }
        }),
{
    let dm_routed = is_dm(message.channel.as_str());
    if dm_routed && !state.history.channel_exists(&message.channel) {
        if !is_valid_dm(message.channel.as_str(), &state.users) {
            return None;
        }
        state.history.create_channel(&message.channel);
    }
    let mut out = message;
    out.timestamp = now;
    let embed_type_copy = match &out.embed_type {
        Some(t) => Some(t.clone()),
        None => None,
    };
    let ghost mid_tables = state.history.tables@;
    let ghost prior = prior_log(old(state).history.tables@, out.channel@);
    proof {
        if mid_tables.contains_key(out.channel@) {
            assert(mid_tables[out.channel@]@ =~= prior);
        }
    }
    let id_assigned = state.history.append(
        &out.channel,
        out.username.clone(),
        out.body.clone(),
        now,
        out.embed_pointer,
        embed_type_copy,
    );
    match id_assigned {
        Some(id) => {
            out.message_id = Some(id);
            proof {
                let ch = out.channel@;
                let log = state.history.tables@[ch]@;
                assert(log.drop_last() =~= prior);
            }
            Some(out)
        },
        None => None,
    }
}

/// The connections a message into `ch` is delivered to: all of them,
/// unless `ch` is routed as a DM channel, which restricts delivery to
/// the participants its name encodes.
pub open spec fn recipients_spec(conns: Seq<String>, ch: Seq<char>) -> Seq<String>
    decreases conns.len(),
{
    if conns.len() == 0 {
        conns
    } else {
        let rest = recipients_spec(conns.drop_last(), ch);
        if is_dm_prefix(ch) && !allowed_dm_spec(ch, conns.last()@) {
            rest
        } else {
            rest.push(conns.last())
        }
    }
}

/// Computes the delivery list for a message into `channel`, in registry
/// order.
pub fn broadcast_targets(registry: &SessionRegistry, channel: &String) -> (targets: Vec<String>)
    requires
        registry.wf(),
    ensures
        targets@ == recipients_spec(registry.connections@, channel@),
{
    let dm_routed = is_dm(channel.as_str());
    let n = registry.connections.len();
    let mut targets: Vec<String> = Vec::new();
    let mut i: usize = 0;
    while i < n
        invariant
            registry.wf(),
            n == registry.connections@.len(),
            i <= n,
            dm_routed == is_dm_prefix(channel@),
            targets@ == recipients_spec(registry.connections@.subrange(0, i as int), channel@),
        decreases n - i,
    {
        let ghost prefix = registry.connections@.subrange(0, i as int);
        let ghost grown = registry.connections@.subrange(0, i + 1);
        assert(grown.drop_last() =~= prefix);
        assert(grown.last() == registry.connections@[i as int]);
        let name = &registry.connections[i];
        if !(dm_routed && !allowed_dm(channel.as_str(), name.as_str())) {
            targets.push(name.clone());
        }
        i = i + 1;
    }
    assert(registry.connections@.subrange(0, n as int) =~= registry.connections@);
    targets
}

/// Who ends up on the delivery list: exactly the live connections the
/// channel admits.
pub proof fn lemma_recipients(conns: Seq<String>, ch: Seq<char>, u: Seq<char>)
    ensures
        has_name(recipients_spec(conns, ch), u) <==> (has_name(conns, u) && (is_dm_prefix(ch)
            ==> allowed_dm_spec(ch, u))),
    decreases conns.len(),
{
    if conns.len() > 0 {
        let p = conns.drop_last();
        lemma_recipients(p, ch, u);
        assert(has_name(conns, u) <==> (has_name(p, u) || conns.last()@ == u)) by {
            if has_name(conns, u) {
                let i = choose|i: int| 0 <= i < conns.len() && (#[trigger] conns[i])@ == u;
                if i < conns.len() - 1 {
                    assert(p[i]@ == u);
                }
            }
            if has_name(p, u) {
                let i = choose|i: int| 0 <= i < p.len() && (#[trigger] p[i])@ == u;
                assert(conns[i]@ == u);
            }
            assert(conns.last() == conns[conns.len() - 1]);
        }
        let rest = recipients_spec(p, ch);
        if !(is_dm_prefix(ch) && !allowed_dm_spec(ch, conns.last()@)) {
            let q = rest.push(conns.last());
            assert(has_name(q, u) <==> (has_name(rest, u) || conns.last()@ == u)) by {
                if has_name(q, u) {
                    let i = choose|i: int| 0 <= i < q.len() && (#[trigger] q[i])@ == u;
                    if i < rest.len() {
                        assert(rest[i]@ == u);
                    }
                }
                if has_name(rest, u) {
                    let i = choose|i: int| 0 <= i < rest.len() && (#[trigger] rest[i])@ == u;
                    assert(q[i]@ == u);
                }
                assert(q[q.len() - 1] == conns.last());
            }
        }
    }
}

/// A channel without the DM marker is delivered to every live
/// connection.
pub proof fn lemma_recipients_everyone(conns: Seq<String>, ch: Seq<char>)
    requires
        !is_dm_prefix(ch),
    ensures
        recipients_spec(conns, ch) == conns,
    decreases conns.len(),
{
    if conns.len() > 0 {
        lemma_recipients_everyone(conns.drop_last(), ch);
        assert(recipients_spec(conns, ch) =~= conns);
    }
}

/// Law: DM isolation.  A message into a valid DM channel reaches only
/// the two participants encoded in the channel name: a connected user
/// whose identity hash is neither of the two is never on the delivery
/// list, while each encoded participant with a live connection is.
pub proof fn lemma_dm_isolation(conns: Seq<String>, ch: Seq<char>, member: Seq<char>, other: Seq<char>)
    requires
        is_dm_name(ch),
        user_hash(member) == dm_parts(ch).0 || user_hash(member) == dm_parts(ch).1,
        user_hash(other) != dm_parts(ch).0,
        user_hash(other) != dm_parts(ch).1,
    ensures
        !has_name(recipients_spec(conns, ch), other),
        has_name(conns, member) ==> has_name(recipients_spec(conns, ch), member),
{
    let p = choose|p: (u64, u64)| ch == crate::dm::dm_name(p.0, p.1);
    lemma_dm_name_shape(p.0, p.1);
    assert(is_dm_prefix(ch));
    lemma_recipients(conns, ch, other);
    lemma_recipients(conns, ch, member);
}

/// Law: dead-peer pruning.  After the connections that failed a write
/// are pruned, none of them is on the delivery list of any later
/// broadcast, and every connection that did not fail still is, exactly
/// as before.
pub proof fn lemma_dead_peer_pruning(
    conns: Seq<String>,
    bad: Seq<String>,
    ch: Seq<char>,
    u: Seq<char>,
)
    ensures
        has_name(bad, u) ==> !has_name(recipients_spec(prune_names(conns, bad), ch), u),
        !has_name(bad, u) ==> (has_name(recipients_spec(prune_names(conns, bad), ch), u)
            <==> has_name(recipients_spec(conns, ch), u)),
{
    lemma_prune_names(conns, bad, u);
    lemma_recipients(prune_names(conns, bad), ch, u);
    lemma_recipients(conns, ch, u);
}

} // verus!

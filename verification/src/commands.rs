//! The command processor: history replay and channel listing.
//!
//! A `Command` message that passed the token check is dispatched on its
//! `command_type`.  A history request replays the most recent entries of
//! one channel to the requester alone, oldest first, and is silently
//! denied for a DM channel the requester does not belong to.  A channel
//! request answers with the configured channel list.  Anything else —
//! including a malformed history request — is ignored without error.

use vstd::prelude::*;

use crate::digits::all_digits;
use crate::digits::dec_value;
use crate::digits::parse_digit_run;
use crate::dm::allowed_dm;
use crate::dm::allowed_dm_spec;
use crate::dm::is_dm;
use crate::dm::is_dm_prefix;
use crate::history::tail_of;
use crate::history::HistoryEntry;
use crate::messages::CommandMessage;
use crate::messages::TextMessage;
use crate::state::ServerState;

verus! {

/// Whether `s` and the pattern read the same.
fn str_is(s: &String, pat: &str) -> (r: bool)
    ensures
        r == (s@ == pat@),
{
    let n = s.as_str().unicode_len();
    let m = pat.unicode_len();
    if n != m {
        return false;
    }
    let mut i: usize = 0;
    while i < n
        invariant
            n == s@.len(),
            n == pat@.len(),
            i <= n,
            forall|j: int| 0 <= j < i ==> s@[j] == pat@[j],
        decreases n - i,
    {
        if s.as_str().get_char(i) != pat.get_char(i) {
            return false;
        }
        i = i + 1;
    }
    proof {
        assert(s@ =~= pat@);
    }
    true
}

/// A well-formed history count: a nonempty run of digits denoting a
/// number that fits the machine.
pub open spec fn count_ok(s: Seq<char>) -> bool {
    s.len() > 0 && all_digits(s) && dec_value(s) <= usize::MAX
}

/// Reads a history count.  Rejects exactly the strings that are not a
/// digit run or denote too large a number.
pub fn parse_count(s: &String) -> (r: Option<usize>)
    ensures
        match r {
            Some(v) => count_ok(s@) && v as nat == dec_value(s@),
            None => !count_ok(s@),
        },
{
    let text = s.as_str();
    let len = text.unicode_len();
    proof {
        assert(text@.subrange(0, len as int) =~= text@);
    }
    match parse_digit_run(text, 0, len) {
        Some(v) => {
            if v <= usize::MAX as u64 {
                Some(v as usize)
            } else {
                None
            }
        },
        None => None,
    }
}

/// Whether `user` may read the history of `ch`: always, unless `ch` is
/// routed as a DM channel, which only its two participants may replay.
pub open spec fn history_allowed(ch: Seq<char>, user: Seq<char>) -> bool {
    is_dm_prefix(ch) ==> allowed_dm_spec(ch, user)
}

/// How a replayed history entry is rendered back on the wire: a `Text`
/// message of its channel with the stored fields and no session token.
pub open spec fn entry_line_ok(e: HistoryEntry, ch: Seq<char>, m: TextMessage) -> bool {
    &&& m.username@ == e.username@
    &&& m.auth_token@ == Seq::<char>::empty()
    &&& m.body@ == e.body@
    &&& m.channel@ == ch
    &&& m.embed_pointer == e.embed_pointer
    &&& m.embed_type.deep_view() == e.embed_type.deep_view()
    &&& m.message_id == Some(e.id)
    &&& m.timestamp == e.timestamp
}

/// What a history request yields: nothing for a denied or unknown
/// channel, else the most recent `count` entries in chronological
/// order.
pub open spec fn history_reply_ok(
    tables: Map<Seq<char>, Vec<HistoryEntry>>,
    user: Seq<char>,
    ch: Seq<char>,
    count: nat,
    out: Seq<TextMessage>,
) -> bool {
    if !history_allowed(ch, user) || !tables.contains_key(ch) {
        out.len() == 0
    } else {
        let t = tail_of(tables[ch]@, count);
        out.len() == t.len() && forall|i: int|
            0 <= i < out.len() ==> entry_line_ok(t[i], ch, #[trigger] out[i])
    }
}

/// Replays the most recent `count` messages of a channel for one
/// requester, oldest first.  A DM channel is replayed only to its
/// participants; anyone else, and any unknown channel, gets nothing.
pub fn retrieve_history(
    state: &ServerState,
    username: &String,
    channel: &String,
    count: usize,
) -> (r: Vec<TextMessage>)
    requires
        state.wf(),
    ensures
        history_reply_ok(state.history.tables@, username@, channel@, count as nat, r@),
{
    if is_dm(channel.as_str()) && !allowed_dm(channel.as_str(), username.as_str()) {
        let empty: Vec<TextMessage> = Vec::new();
        return empty;
    }
    let entries = state.history.tail(channel, count);
    let n = entries.len();
    let mut out: Vec<TextMessage> = Vec::new();
    let mut i: usize = 0;
    while i < n
        invariant
            n == entries@.len(),
            i <= n,
            out@.len() == i,
            forall|j: int| 0 <= j < i ==> entry_line_ok(
                entries@[j],
                channel@,
                #[trigger] out@[j],
            ),
        decreases n - i,
    {
        let e = &entries[i];
        let line = TextMessage {
            username: e.username.clone(),
            auth_token: String::new(),
            body: e.body.clone(),
            channel: channel.clone(),
            embed_pointer: e.embed_pointer,
            embed_type: match &e.embed_type {
                Some(t) => Some(t.clone()),
                None => None,
            },
            message_id: Some(e.id),
            timestamp: e.timestamp,
        };
        out.push(line);
        i = i + 1;
    }
    out
}

/// A copy of the configured channel list.
pub fn list_channels(state: &ServerState) -> (r: Vec<String>)
    ensures
        r@ == state.channels@,
{
    let n = state.channels.len();
    let mut out: Vec<String> = Vec::new();
    let mut i: usize = 0;
    while i < n
        invariant
            n == state.channels@.len(),
            i <= n,
            out@ == state.channels@.subrange(0, i as int),
        decreases n - i,
    {
        out.push(state.channels[i].clone());
        proof {
            assert(state.channels@.subrange(0, i + 1) =~= state.channels@.subrange(
                0,
                i as int,
            ).push(state.channels@[i as int]));
        }
        i = i + 1;
    }
    proof {
        assert(state.channels@.subrange(0, n as int) =~= state.channels@);
    }
    out
}

/// What the command processor decides for one command.
pub enum CommandOutcome {
    /// History lines to write back to the requester only.
    History(Vec<TextMessage>),
    /// The channel list to push to the requester only.
    Channels(Vec<String>),
    /// An unknown or malformed command, dropped without error.
    Ignored,
}

/// A history request the processor acts on: the right command word with
/// a channel argument and a readable count.
pub open spec fn is_history_request(cmd: &CommandMessage) -> bool {
    &&& cmd.command_type@ == "history"@
    &&& cmd.args@.len() >= 2
    &&& count_ok(cmd.args@[1]@)
}

/// Dispatches one authenticated command.
pub fn handle_command(state: &ServerState, cmd: &CommandMessage) -> (r: CommandOutcome)
    requires
        state.wf(),
    ensures
        match r {
            CommandOutcome::History(lines) => {
                &&& is_history_request(cmd)
                &&& history_reply_ok(
                    state.history.tables@,
                    cmd.username@,
                    cmd.args@[0]@,
                    dec_value(cmd.args@[1]@),
                    lines@,
                )
            },
            CommandOutcome::Channels(names) => {
                &&& cmd.command_type@ == "channels"@
                &&& names@ == state.channels@
            },
            CommandOutcome::Ignored => !is_history_request(cmd) && cmd.command_type@
                != "channels"@,
        },
{
    proof {
        reveal_strlit("history");
        reveal_strlit("channels");
        assert("history"@.len() != "channels"@.len());
        assert("history"@ != "channels"@);
    }
    if str_is(&cmd.command_type, "history") {
        if cmd.args.len() < 2 {
            return CommandOutcome::Ignored;
        }
        let count = match parse_count(&cmd.args[1]) {
            Some(c) => c,
            None => {
                return CommandOutcome::Ignored;
            },
        };
        CommandOutcome::History(retrieve_history(state, &cmd.username, &cmd.args[0], count))
    } else if str_is(&cmd.command_type, "channels") {
        CommandOutcome::Channels(list_channels(state))
    } else {
        CommandOutcome::Ignored
    }
}

} // verus!

//! The per-message step of the connection read loop.
//!
//! Every line read from an authenticated connection decodes to one
//! `Message` and takes one step here: the session token is checked
//! first, and a mismatch is a protocol violation that disconnects the
//! offending socket without touching any state.  An authentic `Text`
//! message runs the pipeline and yields a broadcast; an authentic
//! `Command` runs the command processor and yields a reply to the
//! requester; everything else is ignored.

use vstd::prelude::*;

use crate::commands::handle_command;
use crate::commands::history_reply_ok;
use crate::commands::is_history_request;
use crate::commands::CommandOutcome;
use crate::digits::dec_value;
use crate::messages::Message;
use crate::messages::TextMessage;
use crate::pipeline::broadcast_targets;
use crate::pipeline::persisted;
use crate::pipeline::prior_log;
use crate::pipeline::process_text;
use crate::pipeline::recipients_spec;
use crate::pipeline::stamped;
use crate::pipeline::text_accepted;
use crate::registry::authentic_spec;
use crate::state::ServerState;

verus! {

/// What the transport layer must do after one message step.
pub enum ServerAction {
    /// Write `message` to every connection named in `targets`.
    Broadcast { message: TextMessage, targets: Vec<String> },
    /// Write these history lines to the requesting connection only.
    Reply(Vec<TextMessage>),
    /// Push the channel list to the requesting connection only.
    ChannelList(Vec<String>),
    /// Nothing to send.
    NoAction,
    /// Protocol violation: drop the offending connection.
    Disconnect,
}

/// Takes one step for one decoded message: token gate, then routing by
/// kind.  A message whose token does not match is never persisted and
/// never broadcast — the hub is left exactly as it was and the
/// connection is disconnected.
pub fn handle_message(state: &mut ServerState, message: Message, now: u64) -> (action:
    ServerAction)
    requires
        old(state).wf(),
    ensures
        final(state).wf(),
        final(state).channels@ == old(state).channels@,
        final(state).creds == old(state).creds,
        final(state).users == old(state).users,
        final(state).registry == old(state).registry,
        !authentic_spec(old(state).registry.tokens@, &message) ==> {
            &&& action is Disconnect
            &&& final(state).history.tables@ == old(state).history.tables@
        },
        authentic_spec(old(state).registry.tokens@, &message) ==> match message {
            Message::Text(text) => ({
                let ch = text.channel@;
                let accepted = text_accepted(old(state).users@, old(state).history.tables@, ch);
                let prior = prior_log(old(state).history.tables@, ch);
                if accepted {
                    action matches ServerAction::Broadcast { message: out, targets }
                        && stamped(text, out, now, (prior.len() + 1) as u32)
                        && final(state).history.tables@.contains_key(ch)
                        && persisted(prior, final(state).history.tables@[ch]@, out, now)
                        && (forall|c: Seq<char>|
                            c != ch && old(state).history.tables@.contains_key(c)
                                ==> final(state).history.tables@[c]
                                    == old(state).history.tables@[c])
                        && targets@ == recipients_spec(old(state).registry.connections@, ch)
                } else {
                    action is NoAction && final(state).history.tables@ == old(
                        state,
                    ).history.tables@
                }
            }),
            Message::Command(cmd) => final(state).history.tables@ == old(state).history.tables@
                && match action {
                    ServerAction::Reply(lines) => is_history_request(&cmd) && history_reply_ok(
                        old(state).history.tables@,
                        cmd.username@,
                        cmd.args@[0]@,
                        dec_value(cmd.args@[1]@),
                        lines@,
                    ),
                    ServerAction::ChannelList(names) => cmd.command_type@ == "channels"@
                        && names@ == old(state).channels@,
                    ServerAction::NoAction => !is_history_request(&cmd) && cmd.command_type@
                        != "channels"@,
                    _ => false,
                },
            _ => action is NoAction && final(state).history.tables@ == old(
                state,
            ).history.tables@,
        },
{
    if !state.registry.is_authentic(&message) {
        return ServerAction::Disconnect;
    }
    match message {
        Message::Text(text) => match process_text(state, text, now) {
            Some(out) => {
                let targets = broadcast_targets(&state.registry, &out.channel);
                ServerAction::Broadcast { message: out, targets }
            },
            None => ServerAction::NoAction,
        },
        Message::Command(cmd) => match handle_command(state, &cmd) {
            CommandOutcome::History(lines) => ServerAction::Reply(lines),
            CommandOutcome::Channels(names) => ServerAction::ChannelList(names),
            CommandOutcome::Ignored => ServerAction::NoAction,
        },
        _ => ServerAction::NoAction,
    }
}

} // verus!

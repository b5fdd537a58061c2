//! What holds of a channel's members over every step: the capacity is kept,
//! talk reaches every other member once, and a kick removes exactly its
//! target.

use vstd::prelude::*;
use crate::channel::{
    chat_to, failure, refusal, request_of, ChannelView, OutboundView, ReactionView, Request,
};
use crate::clock::Timestamp;
use crate::directory::{
    distinct, includes, lemma_others, lemma_without, others, position, EntryView,
};
use crate::protocol::{
    ActionView, ClientResultView, EventView, CHANNEL_FULL_ERROR, CHANNEL_FULL_HINT, KICKED,
    USER_NOT_FOUND_ERROR, USER_NOT_FOUND_HINT,
};
use crate::text::argument;

verus! {

/// Whether `out` is addressed to the member called `nick`.
pub open spec fn addressed<C, M>(out: OutboundView<C, M>, nick: Seq<char>) -> bool {
    out matches OutboundView::Member { nick: to, .. } && to == nick
}

/// Every step keeps a channel well formed: its nicknames stay distinct and
/// its members within the capacity.
pub proof fn lemma_react_wf<S, C, M>(channel: ChannelView<C, M>, event: EventView<S, C>)
    requires
        channel.wf(),
    ensures
        channel.react(event).wf(),
{
    match event {
        EventView::Client { nick, sender } => {
            lemma_attach(channel, nick, sender);
        },
        EventView::Message { nick, msg } => {
            lemma_without(channel.clients, nick);
            lemma_without(channel.clients, argument(msg));
        },
        EventView::Depart { nick } => {
            lemma_without(channel.clients, nick);
        },
        _ => {},
    }
}

/// Letting a client in keeps the channel well formed. Where the channel is
/// not full, a member is called `nick` afterwards; under every other
/// nickname there is a member exactly if there was one before.
pub proof fn lemma_attach<C, M>(channel: ChannelView<C, M>, nick: Seq<char>, sender: C)
    requires
        channel.wf(),
    ensures
        channel.attach(nick, sender).wf(),
        !channel.full() ==> includes(channel.attach(nick, sender).clients, nick),
        forall|other: Seq<char>|
            other != nick ==> (includes(channel.attach(nick, sender).clients, other) <==> includes(
                channel.clients,
                other,
            )),
{
    let after = channel.attach(nick, sender).clients;
    if !channel.full() && !includes(channel.clients, nick) {
        assert(after[after.len() - 1].name == nick);
        assert forall|i: int, j: int| 0 <= i < j < after.len() implies (#[trigger] after[i]).name
            != (#[trigger] after[j]).name by {
            assert(after[i] == channel.clients[i]);
            if j < channel.clients.len() {
                assert(after[j] == channel.clients[j]);
            }
        }
        assert forall|other: Seq<char>| other != nick implies (includes(after, other) <==> includes(
            channel.clients,
            other,
        )) by {
            if includes(after, other) {
                let i = choose|i: int| 0 <= i < after.len() && (#[trigger] after[i]).name == other;
                assert(channel.clients[i].name == other);
            }
            if includes(channel.clients, other) {
                let i = choose|i: int|
                    0 <= i < channel.clients.len() && (#[trigger] channel.clients[i]).name == other;
                assert(after[i].name == other);
            }
        }
    }
}

/// A channel never has more members than its capacity: a client who asks
/// to be let into a full channel is not let in, whoever it is, and receives
/// the refusal.
pub proof fn capacity_is_kept<C, M>(
    channel: ChannelView<C, M>,
    nick: Seq<char>,
    sender: C,
    rebind: M,
)
    requires
        channel.wf(),
    ensures
        channel.attach(nick, sender).clients.len() <= channel.info.capacity,
        channel.full() ==> channel.attach(nick, sender) == channel && channel.attach_out(
            nick,
            sender,
            rebind,
        ) == seq![refusal::<C, M>(sender, CHANNEL_FULL_ERROR@, CHANNEL_FULL_HINT@)],
{
}

/// How many of `out` are addressed to the member called `nick`.
pub open spec fn copies<C, M>(out: Seq<OutboundView<C, M>>, nick: Seq<char>) -> nat
    decreases out.len(),
{
    if out.len() == 0 {
        0
    } else {
        copies(out.drop_last(), nick) + if addressed(out.last(), nick) {
            1nat
        } else {
            0nat
        }
    }
}

/// Of a line for each of `to`, whose names are distinct, one is addressed to
/// each name among them and none to any other.
proof fn lemma_copies<C, M>(
    to: Seq<EntryView<C>>,
    nick: Seq<char>,
    text: Seq<char>,
    time: Timestamp,
    name: Seq<char>,
)
    requires
        distinct(to),
    ensures
        copies(chat_to::<C, M>(to, nick, text, time), name) == if includes(to, name) {
            1nat
        } else {
            0nat
        },
    decreases to.len(),
{
    let out = chat_to::<C, M>(to, nick, text, time);
    if to.len() > 0 {
        let rest = to.drop_last();
        assert forall|i: int, j: int| 0 <= i < j < rest.len() implies (#[trigger] rest[i]).name != (
        #[trigger] rest[j]).name by {
            assert(rest[i] == to[i] && rest[j] == to[j]);
        }
        lemma_copies::<C, M>(rest, nick, text, time, name);
        assert(out.drop_last() =~= chat_to::<C, M>(rest, nick, text, time));
        assert(addressed(out.last(), name) <==> to.last().name == name);
        if includes(rest, name) {
            let k = choose|k: int| 0 <= k < rest.len() && (#[trigger] rest[k]).name == name;
            assert(to[k].name == name);
            assert(to[to.len() - 1].name != name);
        } else if to.last().name == name {
            assert(to[to.len() - 1].name == name);
        } else if includes(to, name) {
            let k = choose|k: int| 0 <= k < to.len() && (#[trigger] to[k]).name == name;
            assert(rest[k].name == name);
        }
    }
}

/// Talk from `nick` changes no membership. What the channel sends for it is
/// the line and nothing else, in one copy for each member that is not
/// called `nick`, and in none for anybody else: none for `nick`.
pub proof fn talk_reaches_the_others_once<C, M>(
    channel: ChannelView<C, M>,
    nick: Seq<char>,
    text: Seq<char>,
    time: Timestamp,
)
    requires
        channel.wf(),
        request_of(channel.settings, text) == Request::Chat,
    ensures
        channel.message(nick, text) == channel,
        ({
            let out = channel.message_out(nick, text, time);
            &&& forall|i: int|
                0 <= i < out.len() ==> (#[trigger] out[i] matches OutboundView::Member {
                    action,
                    ..
                } && action == ActionView::<M>::Send(
                    ClientResultView::Message { time, nick, message: text },
                ))
            &&& forall|to: Seq<char>|
                #[trigger] copies(out, to) == if includes(channel.clients, to) && to != nick {
                    1nat
                } else {
                    0nat
                }
        }),
{
    let to_all = others(channel.clients, nick);
    let out = channel.message_out(nick, text, time);
    lemma_others(channel.clients, nick);
    assert(out == chat_to::<C, M>(to_all, nick, text, time));
    assert forall|to: Seq<char>| #[trigger]
        copies(out, to) == if includes(channel.clients, to) && to != nick {
            1nat
        } else {
            0nat
        } by {
        lemma_copies::<C, M>(to_all, nick, text, time, to);
        if includes(to_all, to) {
            let k = choose|k: int| 0 <= k < to_all.len() && (#[trigger] to_all[k]).name == to;
            assert(to_all[k].name != nick && includes(channel.clients, to_all[k].name));
        }
    }
}

/// A kick of a member removes it and no other, and it receives the notice;
/// a kick of one who is no member changes nothing, and the kicker, if a
/// member, is told that the user does not exist.
pub proof fn kick_removes_its_target<C, M>(
    channel: ChannelView<C, M>,
    nick: Seq<char>,
    line: Seq<char>,
    time: Timestamp,
)
    requires
        channel.wf(),
        request_of(channel.settings, line) == Request::Kick,
    ensures
        channel.message(nick, line).wf(),
        !includes(channel.message(nick, line).clients, argument(line)),
        forall|other: Seq<char>|
            other != argument(line) ==> (includes(channel.message(nick, line).clients, other)
                <==> includes(channel.clients, other)),
        includes(channel.clients, argument(line)) ==> channel.message_out(nick, line, time) == seq![
            OutboundView::<C, M>::Mailbox {
                sender: channel.clients[position(channel.clients, argument(line))].sender,
                action: ActionView::Send(ClientResultView::CommandSuccess { data: KICKED@ }),
            },
        ],
        !includes(channel.clients, argument(line)) ==> channel.message(nick, line) == channel,
        !includes(channel.clients, argument(line)) && includes(channel.clients, nick)
            ==> channel.message_out(nick, line, time) == seq![
            failure::<C, M>(nick, USER_NOT_FOUND_ERROR@, USER_NOT_FOUND_HINT@),
        ],
{
    lemma_without(channel.clients, argument(line));
}

/// What a channel addresses to a member by its nickname finds the member:
/// after the step, the channel holds a mailbox under that nickname.
pub proof fn members_addressed_are_members<S, C, M>(
    channel: ChannelView<C, M>,
    event: EventView<S, C>,
    rebind: M,
    time: Timestamp,
)
    requires
        channel.wf(),
    ensures
        channel.react_out(event, rebind, time) matches ReactionView::Send(out) ==> forall|i: int|
            0 <= i < out.len() ==> (#[trigger] out[i] matches OutboundView::Member { nick, .. }
                ==> includes(channel.react(event).clients, nick)),
{
    match event {
        EventView::Client { nick, sender } => {
            lemma_attach(channel, nick, sender);
        },
        EventView::Message { nick, msg } => {
            lemma_others(channel.clients, nick);
            lemma_without(channel.clients, nick);
            lemma_without(channel.clients, argument(msg));
        },
        _ => {},
    }
}

} // verus!

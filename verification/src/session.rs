//! A session: the mirror and the picture of the client together, and the
//! entry points that the driver calls.

use crate::command::command_print;
use crate::connection::{channel_shown, ensured, ChannelData};
use crate::event::Event;
use crate::event_proc::{acted, all_opened, dispatched, on_event, open_and_sync_buffers};
use crate::host::{Buffer, Command, CommandView, Host, HostView};
use crate::message::{all_names, candidate_rows, sort_rows, find_user_named, format_message_send, names_everywhere, outgoing, user_named};
use crate::state::{snapshot_state, MalformedSnapshot, ReadyEvent, State, StateView};
use crate::text::{push_str, to_text};
use crate::types::{NameFormat, 
    channel_ref_id, ChannelRef, ChannelRefView, Id, Options, OptionsView, PrivateChannel,
    PrivateChannelView, UserId,
};
use crate::update::apply_event;
use vstd::prelude::*;
use vstd::string::*;

verus! {

/// The mirror of the service and the picture of the client.
#[derive(Debug, PartialEq, Eq)]
pub struct Session {
    pub state: State,
    pub host: Host,
}

/// What the listener handed over: an event, an error of the transport, or
/// the news that the listener has stopped.
#[derive(Debug, PartialEq, Eq)]
pub enum Received {
    Event(Event),
    Error(String),
    Disconnected,
}

/// Mirror and picture after one event: the mirror takes the event in, then
/// the dispatcher acts on it.
pub open spec fn stepped(s: StateView, h: HostView, e: Event, opts: OptionsView) -> (
    StateView,
    HostView,
) {
    let s1 = apply_event(s, e);
    (s1, dispatched(s1, h, e, opts))
}

/// Mirror and picture after what the listener handed over is worked off in
/// the order of arrival. An error is reported and the work goes on; the news
/// that the listener has stopped is reported and ends the work.
pub open spec fn poked(s: StateView, h: HostView, received: Seq<Received>, opts: OptionsView) -> (
    StateView,
    HostView,
)
    decreases received.len(),
{
    if received.len() == 0 {
        (s, h)
    } else {
        match received[0] {
            Received::Event(e) => {
                let next = stepped(s, h, e, opts);
                poked(next.0, next.1, received.skip(1), opts)
            },
            Received::Error(text) => poked(
                s,
                h.noted(0, "discord: "@ + ("listening thread had error - "@ + text@)),
                received.skip(1),
                opts,
            ),
            Received::Disconnected => (s, h.noted(0, "discord: "@ + "Listening thread stopped!"@)),
        }
    }
}

/// The position of the first private channel with the recipient, or the
/// number of channels if there is none.
pub open spec fn private_with(privates: Seq<PrivateChannelView>, user: UserId) -> int
    decreases privates.len(),
{
    if privates.len() == 0 {
        0
    } else if privates[0].recipient.id == user {
        0
    } else {
        1 + private_with(privates.skip(1), user)
    }
}

/// The picture after the user asks for a conversation with someone by name:
/// the buffer of the private channel with that user is opened; where there
/// is no such channel, the service is asked for one; where nobody has the
/// name, the asking buffer is told so.
pub open spec fn queried(
    s: StateView,
    h: HostView,
    from: int,
    nick: Seq<char>,
    opts: OptionsView,
) -> HostView {
    match user_named(names_everywhere(s, opts), nick) {
        Some(user) => {
            let p = private_with(s.private_channels, user);
            if p < s.private_channels.len() {
                ensured(h, s.user, ChannelRefView::Private(s.private_channels[p]), true, opts)
            } else {
                h.emit(CommandView::OpenPrivate { user })
            }
        },
        None => h.noted(from, "User not found: "@ + nick),
    }
}

/// The picture after the user types a line into a buffer: the line goes to
/// the channel that the buffer shows, with names turned into mentions; a
/// buffer that shows no channel is told so.
pub open spec fn typed(s: StateView, h: HostView, from: int, line: Seq<char>, opts: OptionsView) -> HostView {
    match channel_shown(s, h.surfaces[from].name) {
        Some(c) => h.emit(
            CommandView::SendMessage {
                channel: channel_ref_id(c),
                text: outgoing(c, line, opts),
                strip_colors: false,
            },
        ),
        None => h.noted(from, "Associated channel not found!?"@),
    }
}

/// Sends what was typed into a buffer to the channel that the buffer shows.
pub fn buffer_input(state: &State, host: &mut Host, buffer: Buffer, message: &str, opts: &Options)
    requires
        buffer.valid(old(host)@),
    ensures
        final(host)@ == typed(state@, old(host)@, buffer.index as int, message@, opts@),
        old(host)@.wf() ==> final(host)@.wf(),
{
    match ChannelData::from_buffer(state, host, buffer) {
        Some(channel) => {
            let to_send = format_message_send(&channel.channel, String::from_str(message), opts);
            host.send(channel.channel.id(), to_send, false);
        },
        None => {
            buffer.print(host, "Associated channel not found!?");
        },
    }
}

/// Finds the first private channel with the recipient.
fn find_private(privates: &Vec<PrivateChannel>, user: UserId) -> (r: Option<usize>)
    ensures
        match r {
            Some(p) => p < privates.len() && p == private_with(privates.deep_view(), user),
            None => private_with(privates.deep_view(), user) == privates.len(),
        },
{
    let ghost all = privates.deep_view();
    let mut i: usize = 0;
    assert(all.skip(0) =~= all);
    while i < privates.len()
        invariant
            i <= privates.len(),
            all == privates.deep_view(),
            private_with(all, user) == i + private_with(all.skip(i as int), user),
        decreases privates.len() - i,
    {
        let ghost tail = all.skip(i as int);
        assert(tail.skip(1) =~= all.skip(i + 1));
        if privates[i].recipient.id.0 == user.0 {
            return Some(i);
        }
        i += 1;
    }
    None
}

/// Opens a conversation with the user of the given name.
pub fn query_command(state: &State, host: &mut Host, buffer: Buffer, nick: &str, opts: &Options)
    requires
        buffer.valid(old(host)@),
    ensures
        final(host)@ == queried(state@, old(host)@, buffer.index as int, nick@, opts@),
        old(host)@.wf() ==> final(host)@.wf(),
{
    let name = String::from_str(nick);
    match find_user_named(state, &name, opts) {
        Some(user) => match find_private(&state.private_channels, user) {
            Some(p) => {
                ChannelData::from_channel(
                    state,
                    host,
                    ChannelRef::Private(&state.private_channels[p]),
                    true,
                    opts,
                );
            },
            None => {
                host.open_private(user);
            },
        },
        None => {
            let mut text: Vec<char> = Vec::new();
            push_str(&mut text, "User not found: ");
            push_str(&mut text, nick);
            let line = to_text(&text);
            buffer.print(host, line.as_str());
        },
    }
}

/// The picture after each row is printed to the main buffer as a name, a
/// colon and a mention.
pub open spec fn rows_printed(h: HostView, rows: Seq<(Seq<char>, Seq<char>)>) -> HostView
    decreases rows.len(),
{
    if rows.len() == 0 {
        h
    } else {
        rows_printed(h, rows.drop_last()).noted(0, rows.last().0 + " : "@ + rows.last().1)
    }
}

/// The picture after the names of the first `upto` servers are listed: for
/// each server its name, then every name that can be written in its first
/// channel with the mention that stands for it. A server without channels
/// shows its name only.
pub open spec fn names_listed(s: StateView, h: HostView, upto: int, opts: OptionsView) -> HostView
    decreases upto,
{
    if upto <= 0 {
        h
    } else {
        let server = s.servers[upto - 1];
        let h1 = names_listed(s, h, upto - 1, opts).noted(0, "Server: "@ + server.name);
        if server.channels.len() == 0 {
            h1
        } else {
            match s.find_channel(server.channels[0].id) {
                Some(chan) => rows_printed(
                    h1,
                    sort_rows(
                        candidate_rows(
                            chan,
                            NameFormat { include_prefix: true, include_color: false },
                            opts,
                        ),
                    ),
                ),
                None => h1,
            }
        }
    }
}

/// The picture after a diagnostic is run. The one diagnostic, `replace`,
/// lists the names that are turned into mentions; any other word does
/// nothing.
pub open spec fn debugged(s: StateView, h: HostView, command: Seq<char>, opts: OptionsView) -> HostView {
    if command == "replace"@ {
        names_listed(s, h, s.servers.len() as int, opts)
    } else {
        h
    }
}

/// Runs a diagnostic and prints what it finds to the main buffer.
pub fn debug_command(state: &State, host: &mut Host, command: &str, opts: &Options)
    requires
        old(host)@.surfaces.len() >= 1,
    ensures
        final(host)@ == debugged(state@, old(host)@, command@, opts@),
        old(host)@.wf() ==> final(host)@.wf(),
{
    if String::from_str(command) != String::from_str("replace") {
        return ;
    }
    let main = Buffer::main();
    let mut i: usize = 0;
    while i < state.servers.len()
        invariant
            i <= state.servers.len(),
            main.index == 0,
            host@.surfaces.len() >= 1,
            host@ == names_listed(state@, old(host)@, i as int, opts@),
            old(host)@.wf() ==> host@.wf(),
        decreases state.servers.len() - i,
    {
        let server = &state.servers[i];
        let mut line: Vec<char> = Vec::new();
        push_str(&mut line, "Server: ");
        push_str(&mut line, server.name.as_str());
        main.print(host, to_text(&line).as_str());
        if server.channels.len() > 0 {
            if let Some(chan) = state.find_channel(server.channels[0].id) {
                let rows = all_names(&chan, &NameFormat::prefix(), opts);
                let ghost before = host@;
                let mut k: usize = 0;
                while k < rows.len()
                    invariant
                        k <= rows.len(),
                        main.index == 0,
                        host@.surfaces.len() >= 1,
                        host@ == rows_printed(before, rows.deep_view().take(k as int)),
                        before.wf() ==> host@.wf(),
                    decreases rows.len() - k,
                {
                    proof {
                        let now = rows.deep_view().take(k + 1);
                        assert(now.drop_last() =~= rows.deep_view().take(k as int));
                    }
                    let mut text: Vec<char> = Vec::new();
                    push_str(&mut text, rows[k].0.as_str());
                    push_str(&mut text, " : ");
                    push_str(&mut text, rows[k].1.as_str());
                    main.print(host, to_text(&text).as_str());
                    k += 1;
                }
                assert(rows.deep_view().take(k as int) =~= rows.deep_view());
            }
        }
        i += 1;
    }
}

impl Session {
    /// Starts a session from the first snapshot: builds the mirror and opens
    /// the buffers of every server. Fails on a malformed snapshot.
    pub fn new(ready: ReadyEvent, host: Host, opts: &Options) -> (r: Result<
        Session,
        MalformedSnapshot,
    >)
        ensures
            match r {
                Ok(session) => snapshot_state(ready).wf() && session.state@ == snapshot_state(ready)
                    && session.host@ == all_opened(
                    host@,
                    snapshot_state(ready),
                    snapshot_state(ready).servers.len() as int,
                    opts@,
                ) && (host@.wf() ==> session.host@.wf()),
                Err(_) => !snapshot_state(ready).wf(),
            },
    {
        let state = match State::new(ready) {
            Ok(state) => state,
            Err(e) => {
                return Err(e);
            },
        };
        let mut host = host;
        open_and_sync_buffers(&state, &mut host, opts);
        Ok(Session { state, host })
    }

    /// Takes one event in: first the mirror, then the buffers.
    pub fn step(&mut self, event: &Event, opts: &Options)
        ensures
            (final(self).state@, final(self).host@) == stepped(
                old(self).state@,
                old(self).host@,
                *event,
                opts@,
            ),
            old(self).state@.wf() ==> final(self).state@.wf(),
            old(self).host@.wf() ==> final(self).host@.wf(),
    {
        self.state.update(event);
        on_event(&self.state, &mut self.host, event, opts);
    }

    /// Works off what the listener handed over, in the order of arrival,
    /// and hands the commands for the client to the driver.
    pub fn on_poke(&mut self, received: &Vec<Received>, opts: &Options) -> (r: Vec<Command>)
        requires
            old(self).host@.wf(),
        ensures
            final(self).state@ == poked(old(self).state@, old(self).host@, received@, opts@).0,
            final(self).host@ == (HostView {
                commands: Seq::empty(),
                ..poked(old(self).state@, old(self).host@, received@, opts@).1
            }),
            r.deep_view() == poked(old(self).state@, old(self).host@, received@, opts@).1.commands,
            old(self).state@.wf() ==> final(self).state@.wf(),
            final(self).host@.wf(),
    {
        let ghost want = poked(old(self).state@, old(self).host@, received@, opts@);
        let mut i: usize = 0;
        assert(received@.skip(0) =~= received@);
        while i < received.len()
            invariant_except_break
                i <= received.len(),
                poked(self.state@, self.host@, received@.skip(i as int), opts@) == want,
            invariant
                self.host@.wf(),
                old(self).state@.wf() ==> self.state@.wf(),
            ensures
                (self.state@, self.host@) == want,
            decreases received.len() - i,
        {
            let ghost tail = received@.skip(i as int);
            assert(tail.skip(1) =~= received@.skip(i + 1));
            match &received[i] {
                Received::Event(event) => {
                    self.step(event, opts);
                },
                Received::Error(text) => {
                    let mut line: Vec<char> = Vec::new();
                    push_str(&mut line, "listening thread had error - ");
                    push_str(&mut line, text.as_str());
                    let line = to_text(&line);
                    command_print(&mut self.host, line.as_str());
                },
                Received::Disconnected => {
                    command_print(&mut self.host, "Listening thread stopped!");
                    break;
                },
            }
            i += 1;
        }
        self.host.take_commands()
    }
}

/// An event of a kind outside the vocabulary changes neither the mirror
/// nor the picture, and counts as handled.
pub proof fn lemma_unknown_is_ignored(s: StateView, h: HostView, kind: String, opts: OptionsView)
    ensures
        apply_event(s, Event::Unknown(kind)) == s,
        dispatched(s, h, Event::Unknown(kind), opts) == h,
        acted(s, h, Event::Unknown(kind), opts),
        stepped(s, h, Event::Unknown(kind), opts) == (s, h),
        poked(s, h, seq![Received::Event(Event::Unknown(kind))], opts) == (s, h),
{
    let one = seq![Received::Event(Event::Unknown(kind))];
    assert(poked(s, h, one.skip(1), opts) == (s, h));
}

/// Working off two batches one after the other is working off the two as
/// one, as long as the listener has not stopped in the first: events take
/// effect in the order of arrival, each on what the earlier ones left.
pub proof fn lemma_poked_in_order(
    s: StateView,
    h: HostView,
    first: Seq<Received>,
    second: Seq<Received>,
    opts: OptionsView,
)
    requires
        forall|k: int| 0 <= k < first.len() ==> !(#[trigger] first[k] is Disconnected),
    ensures
        poked(s, h, first + second, opts) == poked(
            poked(s, h, first, opts).0,
            poked(s, h, first, opts).1,
            second,
            opts,
        ),
    decreases first.len(),
{
    if first.len() == 0 {
    } else {
        let all = first + second;
        assert(all.skip(1) =~= first.skip(1) + second);
        assert forall|k: int| 0 <= k < first.skip(1).len() implies !(#[trigger] first.skip(
            1,
        )[k] is Disconnected) by {
        }
        match first[0] {
            Received::Event(e) => {
                let next = stepped(s, h, e, opts);
                lemma_poked_in_order(next.0, next.1, first.skip(1), second, opts);
            },
            Received::Error(text) => {
                lemma_poked_in_order(
                    s,
                    h.noted(0, "discord: "@ + ("listening thread had error - "@ + text@)),
                    first.skip(1),
                    second,
                    opts,
                );
            },
            Received::Disconnected => {},
        }
    }
}

} // verus!

//! The dispatcher: what each event, once the mirror has taken it in, does to
//! the buffers.

use crate::connection::{buffer_of, ensured, roster_synced, server_shown, shown, ChannelData};
use crate::event::{Attachment, Event, Message};
use crate::host::{last_n, Buffer, CommandView, HISTORY_WINDOW, Host, HostView};
use crate::keyed::find_key;
use crate::message::{
    attachment_urls, format_message, formatted, is_self_mentioned, message_tag, opt_roles, opt_str,
    opt_urls, opt_user, opt_user_id, opt_users, recover, resolved, self_mentioned, FormattedMessage,
    FormattedMessageView,
};
use crate::state::{State, StateView};
use crate::text::{push_str, to_text};
use crate::types::{
    assoc, channel_id_of, opt_text, ChannelId, ChannelRef, ChannelRefView, Id, LiveServer,
    MessageId, Options, OptionsView, RoleId, ServerId, ServerView, User, UserId, UserView,
};
use vstd::prelude::*;
use vstd::string::*;

verus! {

/// What an event tells of a message.
pub struct Notice {
    pub channel_id: ChannelId,
    pub message_id: MessageId,
    pub author: Option<UserView>,
    pub content: Option<Seq<char>>,
    pub mention_everyone: bool,
    pub mentions: Option<Seq<UserView>>,
    pub roles: Option<Seq<RoleId>>,
    pub urls: Seq<Seq<char>>,
    pub prefix: Seq<char>,
    pub placeholder: bool,
}

/// The identifier of an optional user view.
pub open spec fn author_id(a: Option<UserView>) -> Option<UserId> {
    match a {
        Some(u) => Some(u.id),
        None => None,
    }
}

/// The picture after the buffer for a message's channel is looked for.
/// Buffers of private channels and groups open by themselves.
pub open spec fn opened_for(s: StateView, h: HostView, n: Notice, opts: OptionsView) -> HostView {
    match s.find_channel(n.channel_id) {
        Some(c) => ensured(h, s.user, c, !(c is Public), opts),
        None => h,
    }
}

/// The message that is printed for a notice, if any: none where the channel
/// is unknown or has no buffer, and none where author or text are missing
/// and cannot be made up.
pub open spec fn rendering(s: StateView, h: HostView, n: Notice, opts: OptionsView) -> Option<
    FormattedMessageView,
> {
    match s.find_channel(n.channel_id) {
        Some(c) => {
            let h1 = opened_for(s, h, n, opts);
            if shown(h, c, !(c is Public)) {
                match resolved(
                    c,
                    n.author,
                    n.content,
                    recover(
                        last_n(h1.surfaces[buffer_of(h1, c)].lines, HISTORY_WINDOW as nat),
                        message_tag(n.message_id.0),
                    ),
                    n.placeholder,
                    opts,
                ) {
                    Some((a, t)) => Some(
                        formatted(
                            c,
                            n.message_id,
                            a,
                            t,
                            n.urls,
                            n.prefix,
                            self_mentioned(
                                s.user.id,
                                c,
                                n.mention_everyone,
                                author_id(n.author),
                                n.mentions,
                                n.roles,
                            ),
                            opts,
                        ),
                    ),
                    None => None,
                }
            } else {
                None
            }
        },
        None => None,
    }
}

/// The picture after a notice of a message is handled: the buffer of the
/// channel is looked for, and the message is printed to it if there is one
/// to print.
pub open spec fn message_shown(s: StateView, h: HostView, n: Notice, opts: OptionsView) -> HostView {
    let h1 = opened_for(s, h, n, opts);
    match rendering(s, h, n, opts) {
        Some(f) => h1.printed(buffer_of(h1, s.find_channel(n.channel_id)->0), f.line()),
        None => h1,
    }
}

/// The text that reports a deleted message.
pub open spec fn report_text(f: FormattedMessageView) -> Seq<char> {
    "AUTO: Deleted message by "@ + f.author + " in "@ + f.channel + ": "@ + f.content
}

/// The picture after a deleted message is reported: where the options name
/// a report channel for the server of the message and the mirror knows that
/// channel, a report is sent there.
pub open spec fn relayed(
    s: StateView,
    h: HostView,
    chan: ChannelRefView,
    f: FormattedMessageView,
    opts: OptionsView,
) -> HostView {
    match chan {
        ChannelRefView::Public(server, _) => match assoc(opts.on_delete, server.id.0) {
            Some(dest) => if s.find_channel(ChannelId(dest)) is Some {
                h.emit(
                    CommandView::SendMessage {
                        channel: ChannelId(dest),
                        text: report_text(f),
                        strip_colors: true,
                    },
                )
            } else {
                h
            },
            None => h,
        },
        _ => h,
    }
}

/// The picture after the buffers of the first `upto` channels of a server
/// are looked for, opened where asked, and given the server's roster.
pub open spec fn server_resynced(
    h: HostView,
    s: StateView,
    server: ServerView,
    upto: int,
    auto_open: bool,
    opts: OptionsView,
) -> HostView
    decreases upto,
{
    if upto <= 0 {
        h
    } else {
        let h1 = server_resynced(h, s, server, upto - 1, auto_open, opts);
        let chan = ChannelRefView::Public(server, server.channels[upto - 1]);
        let h2 = ensured(h1, s.user, chan, auto_open, opts);
        if shown(h1, chan, auto_open) {
            roster_synced(h2, buffer_of(h2, chan), chan, opts)
        } else {
            h2
        }
    }
}

/// The picture after every buffer of the server with the identifier is
/// brought up to date; unchanged if the mirror has no such server.
pub open spec fn server_updated(
    h: HostView,
    s: StateView,
    id: ServerId,
    auto_open: bool,
    opts: OptionsView,
) -> HostView {
    match s.find_server(id) {
        Some(server) => server_resynced(
            h,
            s,
            server,
            server.channels.len() as int,
            auto_open,
            opts,
        ),
        None => h,
    }
}

/// The picture after a server comes into view: its placeholder buffer and a
/// buffer for each of its channels.
pub open spec fn server_opened(h: HostView, s: StateView, id: ServerId, opts: OptionsView) -> HostView {
    match s.find_server(id) {
        Some(server) => server_resynced(
            server_shown(h, server, opts),
            s,
            server,
            server.channels.len() as int,
            true,
            opts,
        ),
        None => h,
    }
}

/// The picture after the first `upto` servers of the mirror come into view.
pub open spec fn all_opened(h: HostView, s: StateView, upto: int, opts: OptionsView) -> HostView
    decreases upto,
{
    if upto <= 0 {
        h
    } else {
        let h1 = all_opened(h, s, upto - 1, opts);
        let server = s.servers[upto - 1];
        server_resynced(
            server_shown(h1, server, opts),
            s,
            server,
            server.channels.len() as int,
            true,
            opts,
        )
    }
}

/// The notice that a new message gives.
pub open spec fn notice_of(m: Message) -> Notice {
    Notice {
        channel_id: m.channel_id,
        message_id: m.id,
        author: Some(m.author@),
        content: Some(m.content@),
        mention_everyone: m.mention_everyone,
        mentions: Some(m.mentions.deep_view()),
        roles: Some(m.mention_roles@),
        urls: attachment_urls(m.attachments@),
        prefix: ""@,
        placeholder: false,
    }
}

/// The notice that the deletion of a message gives.
pub open spec fn deletion(channel_id: ChannelId, message_id: MessageId) -> Notice {
    Notice {
        channel_id,
        message_id,
        author: None,
        content: None,
        mention_everyone: false,
        mentions: None,
        roles: None,
        urls: Seq::empty(),
        prefix: "DELETE: "@,
        placeholder: false,
    }
}

/// The view of an optional list of users held by value.
pub open spec fn users_view(v: Option<Vec<User>>) -> Option<Seq<UserView>> {
    match v {
        Some(u) => Some(u.deep_view()),
        None => None,
    }
}

/// The view of an optional list of roles held by value.
pub open spec fn roles_view(v: Option<Vec<RoleId>>) -> Option<Seq<RoleId>> {
    match v {
        Some(r) => Some(r@),
        None => None,
    }
}

/// The view of an optional user held by value.
pub open spec fn user_view(v: Option<User>) -> Option<UserView> {
    match v {
        Some(u) => Some(u@),
        None => None,
    }
}

/// The addresses of an optional list of attachments held by value.
pub open spec fn urls_view(v: Option<Vec<Attachment>>) -> Seq<Seq<char>> {
    match v {
        Some(a) => attachment_urls(a@),
        None => Seq::empty(),
    }
}

/// The picture after an event that the mirror `s` has already taken in.
///
/// A message is printed to the buffer of its channel; an edited message
/// with a marker, filled up from what was printed before; a deleted message
/// as it was printed before, and reported where the options ask for it. A
/// new server opens the buffers of its channels. An event that touches the
/// roster of a server brings the open buffers of that server up to date. A
/// new channel opens its buffer, a changed channel refreshes it. Every other
/// event, known or unknown, leaves the picture as it is; so does a snapshot
/// that arrives in the stream, since buffers are opened for a snapshot only
/// when a session starts.
pub open spec fn dispatched(s: StateView, h: HostView, e: Event, opts: OptionsView) -> HostView {
    match e {
        Event::MessageCreate(m) => message_shown(s, h, notice_of(m), opts),
        Event::MessageUpdate {
            id,
            channel_id,
            content,
            author,
            mention_everyone,
            mentions,
            mention_roles,
            attachments,
        } => message_shown(
            s,
            h,
            Notice {
                channel_id,
                message_id: id,
                author: user_view(author),
                content: opt_text(content),
                mention_everyone: mention_everyone == Some(true),
                mentions: users_view(mentions),
                roles: roles_view(mention_roles),
                urls: urls_view(attachments),
                prefix: "EDIT: "@,
                placeholder: true,
            },
            opts,
        ),
        Event::MessageDelete { channel_id, message_id } => {
            let n = deletion(channel_id, message_id);
            let h1 = message_shown(s, h, n, opts);
            match rendering(s, h, n, opts) {
                Some(f) => relayed(s, h1, s.find_channel(channel_id)->0, f, opts),
                None => h1,
            }
        },
        Event::ServerCreate(server) => server_opened(h, s, server.id, opts),
        Event::ServerMemberAdd(id, _) => server_updated(h, s, id, false, opts),
        Event::ServerMemberUpdate { server_id, .. } => server_updated(h, s, server_id, false, opts),
        Event::ServerMemberRemove(id, _) => server_updated(h, s, id, false, opts),
        Event::ServerMembersChunk(id, _) => server_updated(h, s, id, false, opts),
        Event::ServerSync { server_id, .. } => server_updated(h, s, server_id, false, opts),
        Event::PresenceUpdate { server_id, .. } => match server_id {
            Some(id) => server_updated(h, s, id, false, opts),
            None => h,
        },
        Event::ChannelCreate(ch) => match s.find_channel(channel_id_of(ch@)) {
            Some(c) => ensured(h, s.user, c, true, opts),
            None => h,
        },
        Event::ChannelUpdate(ch) => match s.find_channel(channel_id_of(ch@)) {
            Some(c) => ensured(h, s.user, c, false, opts),
            None => h,
        },
        Event::Ready(_) => h,
        Event::UserUpdate(_) => h,
        Event::ServerUpdate { .. } => h,
        Event::ServerDelete(_) => h,
        Event::ServerRoleCreate(_, _) => h,
        Event::ServerRoleUpdate(_, _) => h,
        Event::ServerRoleDelete(_, _) => h,
        Event::ChannelDelete(_) => h,
        Event::ChannelRecipientAdd(_, _) => h,
        Event::ChannelRecipientRemove(_, _) => h,
        Event::TypingStart { .. } => h,
        Event::Unknown(_) => h,
    }
}

/// Whether the event is of a kind that the dispatcher leaves alone: a
/// snapshot in the stream, a change of the user's own account, of a server's
/// name or of its roles, the deletion of a server or a channel, a change of
/// a group's recipients, a typing notice, and every kind outside the
/// vocabulary.
pub open spec fn left_alone(e: Event) -> bool {
    match e {
        Event::Ready(_) => true,
        Event::UserUpdate(_) => true,
        Event::ServerUpdate { .. } => true,
        Event::ServerDelete(_) => true,
        Event::ServerRoleCreate(_, _) => true,
        Event::ServerRoleUpdate(_, _) => true,
        Event::ServerRoleDelete(_, _) => true,
        Event::ChannelDelete(_) => true,
        Event::ChannelRecipientAdd(_, _) => true,
        Event::ChannelRecipientRemove(_, _) => true,
        Event::TypingStart { .. } => true,
        Event::Unknown(_) => true,
        _ => false,
    }
}

/// An event of a kind that the dispatcher leaves alone touches no buffer:
/// none is opened, no property set, no line printed, no nick added or
/// removed, nothing sent; and the event counts as handled.
pub proof fn lemma_left_alone(s: StateView, h: HostView, e: Event, opts: OptionsView)
    requires
        left_alone(e),
    ensures
        dispatched(s, h, e, opts) == h,
        acted(s, h, e, opts),
{
}

/// Whether an event was one to act on and was acted on: every event but a
/// message for which nothing could be printed.
pub open spec fn acted(s: StateView, h: HostView, e: Event, opts: OptionsView) -> bool {
    match e {
        Event::MessageCreate(m) => rendering(s, h, notice_of(m), opts) is Some,
        Event::MessageUpdate {
            id,
            channel_id,
            content,
            author,
            mention_everyone,
            mentions,
            mention_roles,
            attachments,
        } => rendering(
            s,
            h,
            Notice {
                channel_id,
                message_id: id,
                author: user_view(author),
                content: opt_text(content),
                mention_everyone: mention_everyone == Some(true),
                mentions: users_view(mentions),
                roles: roles_view(mention_roles),
                urls: urls_view(attachments),
                prefix: "EDIT: "@,
                placeholder: true,
            },
            opts,
        ) is Some,
        Event::MessageDelete { channel_id, message_id } => rendering(
            s,
            h,
            deletion(channel_id, message_id),
            opts,
        ) is Some,
        _ => true,
    }
}

/// Looks for the buffer of a message's channel and prints the message to
/// it, if there is one to print. Hands back the channel and the message that
/// was printed.
fn show<'a>(
    state: &'a State,
    host: &mut Host,
    channel_id: ChannelId,
    message_id: MessageId,
    author: Option<&User>,
    content: Option<&str>,
    mention_everyone: bool,
    mentions: Option<&Vec<User>>,
    roles: Option<&Vec<RoleId>>,
    attachments: Option<&Vec<Attachment>>,
    prefix: &'static str,
    placeholder: bool,
    opts: &Options,
) -> (r: Option<(ChannelData<'a>, FormattedMessage)>)
    ensures
        final(host)@ == message_shown(
            state@,
            old(host)@,
            Notice {
                channel_id,
                message_id,
                author: opt_user(author),
                content: opt_str(content),
                mention_everyone,
                mentions: opt_users(mentions),
                roles: opt_roles(roles),
                urls: opt_urls(attachments),
                prefix: prefix@,
                placeholder,
            },
            opts@,
        ),
        match r {
            Some((d, f)) => Some(d.channel@) == state@.find_channel(channel_id) && d.state@
                == state@ && Some(f@) == rendering(
                state@,
                old(host)@,
                Notice {
                    channel_id,
                    message_id,
                    author: opt_user(author),
                    content: opt_str(content),
                    mention_everyone,
                    mentions: opt_users(mentions),
                    roles: opt_roles(roles),
                    urls: opt_urls(attachments),
                    prefix: prefix@,
                    placeholder,
                },
                opts@,
            ),
            None => rendering(
                state@,
                old(host)@,
                Notice {
                    channel_id,
                    message_id,
                    author: opt_user(author),
                    content: opt_str(content),
                    mention_everyone,
                    mentions: opt_users(mentions),
                    roles: opt_roles(roles),
                    urls: opt_urls(attachments),
                    prefix: prefix@,
                    placeholder,
                },
                opts@,
            ) is None,
        },
        old(host)@.wf() ==> final(host)@.wf(),
{
    let channel = match ChannelData::from_discord_event(state, host, channel_id, opts) {
        Some(c) => c,
        None => {
            return None;
        },
    };
    let is_self = is_self_mentioned(&channel, mention_everyone, author, mentions, roles);
    let message = match format_message(
        &channel,
        host,
        message_id,
        author,
        content,
        attachments,
        prefix,
        is_self,
        placeholder,
        opts,
    ) {
        Some(m) => m,
        None => {
            return None;
        },
    };
    message.print(host, &channel.buffer);
    Some((channel, message))
}

/// Reports a deleted message to the channel that the options name for the
/// server, if they name one and the mirror knows it.
fn on_delete(channel: &ChannelData, host: &mut Host, message: &FormattedMessage, opts: &Options)
    ensures
        final(host)@ == relayed(channel.state@, old(host)@, channel.channel@, message@, opts@),
        old(host)@.wf() ==> final(host)@.wf(),
{
    if let ChannelRef::Public(server, _) = channel.channel {
        if let Some(dest_chan) = opts.report_channel(server.id) {
            if channel.state.find_channel(dest_chan).is_none() {
                return ;
            }
            let mut text: Vec<char> = Vec::new();
            push_str(&mut text, "AUTO: Deleted message by ");
            push_str(&mut text, message.author.as_str());
            push_str(&mut text, " in ");
            push_str(&mut text, message.channel.as_str());
            push_str(&mut text, ": ");
            push_str(&mut text, message.content.as_str());
            host.send(dest_chan, to_text(&text), true);
        }
    }
}

/// Brings the buffers of a server's channels up to date with the mirror:
/// each buffer that exists, or that is opened because `auto_open` is set,
/// gets the server's roster.
pub fn resync_server(
    state: &State,
    host: &mut Host,
    server: &LiveServer,
    auto_open: bool,
    opts: &Options,
)
    ensures
        final(host)@ == server_resynced(
            old(host)@,
            state@,
            server@,
            server@.channels.len() as int,
            auto_open,
            opts@,
        ),
        old(host)@.wf() ==> final(host)@.wf(),
{
    let mut k: usize = 0;
    while k < server.channels.len()
        invariant
            k <= server.channels.len(),
            host@ == server_resynced(old(host)@, state@, server@, k as int, auto_open, opts@),
            old(host)@.wf() ==> host@.wf(),
        decreases server.channels.len() - k,
    {
        let found = ChannelData::from_channel(
            state,
            host,
            ChannelRef::Public(server, &server.channels[k]),
            auto_open,
            opts,
        );
        if let Some(chan) = found {
            chan.sync_roster(host, opts);
        }
        k += 1;
    }
}

/// Opens the placeholder buffer and the channel buffers of every server of
/// the mirror.
pub fn open_and_sync_buffers(state: &State, host: &mut Host, opts: &Options)
    ensures
        final(host)@ == all_opened(old(host)@, state@, state@.servers.len() as int, opts@),
        old(host)@.wf() ==> final(host)@.wf(),
{
    let mut k: usize = 0;
    while k < state.servers.len()
        invariant
            k <= state.servers.len(),
            host@ == all_opened(old(host)@, state@, k as int, opts@),
            old(host)@.wf() ==> host@.wf(),
        decreases state.servers.len() - k,
    {
        ChannelData::create_server(host, &state.servers[k], opts);
        resync_server(state, host, &state.servers[k], true, opts);
        k += 1;
    }
}

/// Acts on an event that the mirror has already taken in. Returns `None`
/// for a message for which nothing could be printed.
pub fn on_event(state: &State, host: &mut Host, event: &Event, opts: &Options) -> (r: Option<()>)
    ensures
        final(host)@ == dispatched(state@, old(host)@, *event, opts@),
        r is Some <==> acted(state@, old(host)@, *event, opts@),
        old(host)@.wf() ==> final(host)@.wf(),
{
    match event {
        Event::MessageCreate(message) => {
            let shown = show(
                state,
                host,
                message.channel_id,
                message.id,
                Some(&message.author),
                Some(message.content.as_str()),
                message.mention_everyone,
                Some(&message.mentions),
                Some(&message.mention_roles),
                Some(&message.attachments),
                "",
                false,
                opts,
            );
            if shown.is_none() {
                return None;
            }
        },
        Event::MessageUpdate {
            id,
            channel_id,
            content,
            author,
            mention_everyone,
            mentions,
            mention_roles,
            attachments,
        } => {
            let everyone = match mention_everyone {
                Some(b) => *b,
                None => false,
            };
            let text: Option<&str> = match content {
                Some(c) => Some(c.as_str()),
                None => None,
            };
            let shown = show(
                state,
                host,
                *channel_id,
                *id,
                author.as_ref(),
                text,
                everyone,
                mentions.as_ref(),
                mention_roles.as_ref(),
                attachments.as_ref(),
                "EDIT: ",
                true,
                opts,
            );
            if shown.is_none() {
                return None;
            }
        },
        Event::MessageDelete { channel_id, message_id } => {
            let shown = show(
                state,
                host,
                *channel_id,
                *message_id,
                None,
                None,
                false,
                None,
                None,
                None,
                "DELETE: ",
                false,
                opts,
            );
            match shown {
                Some((channel, message)) => {
                    on_delete(&channel, host, &message, opts);
                },
                None => {
                    return None;
                },
            }
        },
        Event::ServerCreate(server) => {
            if let Some(i) = find_key(&state.servers, server.id.0) {
                ChannelData::create_server(host, &state.servers[i], opts);
                resync_server(state, host, &state.servers[i], true, opts);
            }
        },
        Event::ServerMemberAdd(id, _) => {
            update_server(state, host, *id, opts);
        },
        Event::ServerMemberUpdate { server_id, .. } => {
            update_server(state, host, *server_id, opts);
        },
        Event::ServerMemberRemove(id, _) => {
            update_server(state, host, *id, opts);
        },
        Event::ServerMembersChunk(id, _) => {
            update_server(state, host, *id, opts);
        },
        Event::ServerSync { server_id, .. } => {
            update_server(state, host, *server_id, opts);
        },
        Event::PresenceUpdate { server_id, .. } => {
            if let Some(id) = server_id {
                update_server(state, host, *id, opts);
            }
        },
        Event::ChannelCreate(channel) => {
            if let Some(channel_ref) = state.find_channel(channel.id()) {
                ChannelData::from_channel(state, host, channel_ref, true, opts);
            }
        },
        Event::ChannelUpdate(channel) => {
            if let Some(channel_ref) = state.find_channel(channel.id()) {
                ChannelData::from_channel(state, host, channel_ref, false, opts);
            }
        },
        Event::Ready(_) => {},
        Event::UserUpdate(_) => {},
        Event::ServerUpdate { .. } => {},
        Event::ServerDelete(_) => {},
        Event::ServerRoleCreate(_, _) => {},
        Event::ServerRoleUpdate(_, _) => {},
        Event::ServerRoleDelete(_, _) => {},
        Event::ChannelDelete(_) => {},
        Event::ChannelRecipientAdd(_, _) => {},
        Event::ChannelRecipientRemove(_, _) => {},
        Event::TypingStart { .. } => {},
        Event::Unknown(_) => {},
    }
    Some(())
}

/// Brings the open buffers of the server with the identifier up to date.
fn update_server(state: &State, host: &mut Host, id: ServerId, opts: &Options)
    ensures
        final(host)@ == server_updated(old(host)@, state@, id, false, opts@),
        old(host)@.wf() ==> final(host)@.wf(),
{
    if let Some(i) = find_key(&state.servers, id.0) {
        resync_server(state, host, &state.servers[i], false, opts);
    }
}

} // verus!

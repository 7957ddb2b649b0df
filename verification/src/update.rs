//! How each event changes the mirror.

use crate::event::Event;
use crate::keyed::{
    distinct, find_key, has_key, index_of, lemma_index_of, lemma_replace, lemma_upsert,
    lemma_upsert_all, lemma_without, lemma_without_lookup, put, remove_key, replace, upsert,
    upsert_all, without, Keyed,
};
use crate::state::{
    in_servers, known_outside, server_wf, snapshot_state, ReadyEvent, State, StateView,
};
use crate::types::{
    clone_opt_text, opt_text, Channel, ChannelView, Group, GroupView, LiveServer, Member,
    MemberView, PrivateChannel, PublicChannel, Role, RoleView, ServerId, ServerView, User, UserView,
};
use vstd::prelude::*;

verus! {

/// The mirror with the server at position `i` replaced.
pub open spec fn with_server(s: StateView, i: int, sv: ServerView) -> StateView {
    StateView { servers: s.servers.update(i, sv), ..s }
}

/// The mirror after the members of the server with the identifier are
/// replaced; unchanged if there is no such server.
pub open spec fn set_members(s: StateView, id: ServerId, members: Seq<MemberView>) -> StateView {
    let i = index_of::<LiveServer>(s.servers, id.0);
    if i < s.servers.len() {
        with_server(s, i, ServerView { members, ..s.servers[i] })
    } else {
        s
    }
}

/// The members of the server with the identifier; none if there is no such
/// server.
pub open spec fn members_of(s: StateView, id: ServerId) -> Seq<MemberView> {
    let i = index_of::<LiveServer>(s.servers, id.0);
    if i < s.servers.len() {
        s.servers[i].members
    } else {
        Seq::empty()
    }
}

/// The mirror after the roles of the server with the identifier are
/// replaced; unchanged if there is no such server.
pub open spec fn set_roles(s: StateView, id: ServerId, roles: Seq<RoleView>) -> StateView {
    let i = index_of::<LiveServer>(s.servers, id.0);
    if i < s.servers.len() {
        with_server(s, i, ServerView { roles, ..s.servers[i] })
    } else {
        s
    }
}

/// The roles of the server with the identifier; none if there is no such
/// server.
pub open spec fn roles_of(s: StateView, id: ServerId) -> Seq<RoleView> {
    let i = index_of::<LiveServer>(s.servers, id.0);
    if i < s.servers.len() {
        s.servers[i].roles
    } else {
        Seq::empty()
    }
}

/// The mirror after a channel is created or updated. A server channel goes
/// into the server that it names, a private channel and a group into their
/// lists, each in the place of the channel with the same identifier or at the
/// end. Nothing changes if the server is unknown, or if the identifier is
/// already in use elsewhere in the mirror.
pub open spec fn put_channel(s: StateView, ch: ChannelView) -> StateView {
    match ch {
        ChannelView::Public(c) => {
            let i = index_of::<LiveServer>(s.servers, c.server_id.0);
            if i < s.servers.len() && !known_outside(s, i, c.id.0) {
                with_server(
                    s,
                    i,
                    ServerView {
                        channels: upsert::<PublicChannel>(s.servers[i].channels, c),
                        ..s.servers[i]
                    },
                )
            } else {
                s
            }
        },
        ChannelView::Private(p) => {
            if !in_servers(s.servers, -1, p.id.0) && !has_key::<Group>(s.groups, p.id.0) {
                StateView {
                    private_channels: upsert::<PrivateChannel>(s.private_channels, p),
                    ..s
                }
            } else {
                s
            }
        },
        ChannelView::Group(g) => {
            if !in_servers(s.servers, -1, g.channel_id.0) && !has_key::<PrivateChannel>(
                s.private_channels,
                g.channel_id.0,
            ) {
                StateView { groups: upsert::<Group>(s.groups, g), ..s }
            } else {
                s
            }
        },
    }
}

/// The mirror after a channel is deleted: no channel with its identifier is
/// left in the server that it names, or in the list of its kind.
pub open spec fn drop_channel(s: StateView, ch: ChannelView) -> StateView {
    match ch {
        ChannelView::Public(c) => {
            let i = index_of::<LiveServer>(s.servers, c.server_id.0);
            if i < s.servers.len() {
                with_server(
                    s,
                    i,
                    ServerView {
                        channels: without::<PublicChannel>(s.servers[i].channels, c.id.0),
                        ..s.servers[i]
                    },
                )
            } else {
                s
            }
        },
        ChannelView::Private(p) => StateView {
            private_channels: without::<PrivateChannel>(s.private_channels, p.id.0),
            ..s
        },
        ChannelView::Group(g) => StateView {
            groups: without::<Group>(s.groups, g.channel_id.0),
            ..s
        },
    }
}

/// The mirror after the recipients of the group with the identifier are
/// replaced; unchanged if there is no such group.
pub open spec fn set_recipients(s: StateView, id: u64, recipients: Seq<UserView>) -> StateView {
    let g = index_of::<Group>(s.groups, id);
    if g < s.groups.len() {
        StateView { groups: s.groups.update(g, GroupView { recipients, ..s.groups[g] }), ..s }
    } else {
        s
    }
}

/// The recipients of the group with the identifier; none if there is no such
/// group.
pub open spec fn recipients_of(s: StateView, id: u64) -> Seq<UserView> {
    let g = index_of::<Group>(s.groups, id);
    if g < s.groups.len() {
        s.groups[g].recipients
    } else {
        Seq::empty()
    }
}

/// The members after the account data of one of them is renewed: the first
/// member with the user's identifier carries the new data and keeps nickname
/// and roles; unchanged if there is no such member.
pub open spec fn refresh_user(members: Seq<MemberView>, user: UserView) -> Seq<MemberView> {
    let m = index_of::<Member>(members, user.id.0);
    if m < members.len() {
        members.update(m, MemberView { user, ..members[m] })
    } else {
        members
    }
}

/// The mirror after an event.
///
/// A snapshot or a new server that would break the mirror's invariant is
/// dropped. An event that names an unknown server, channel or group changes
/// nothing. Messages, typing notices and events of unknown kind change
/// nothing.
pub open spec fn apply_event(s: StateView, e: Event) -> StateView {
    match e {
        Event::Ready(r) => if snapshot_state(r).wf() {
            snapshot_state(r)
        } else {
            s
        },
        Event::UserUpdate(u) => StateView { user: u@, ..s },
        Event::ServerCreate(sv) => {
            let c = StateView { servers: upsert::<LiveServer>(s.servers, sv@), ..s };
            if c.wf() {
                c
            } else {
                s
            }
        },
        Event::ServerUpdate { server_id, name } => {
            let i = index_of::<LiveServer>(s.servers, server_id.0);
            if i < s.servers.len() {
                with_server(s, i, ServerView { name: name@, ..s.servers[i] })
            } else {
                s
            }
        },
        Event::ServerDelete(id) => StateView {
            servers: without::<LiveServer>(s.servers, id.0),
            ..s
        },
        Event::ServerMemberAdd(id, m) => set_members(
            s,
            id,
            upsert::<Member>(members_of(s, id), m@),
        ),
        Event::ServerMemberUpdate { server_id, roles, user, nick } => set_members(
            s,
            server_id,
            upsert::<Member>(
                members_of(s, server_id),
                MemberView { user: user@, nick: opt_text(nick), roles: roles@ },
            ),
        ),
        Event::ServerMemberRemove(id, user) => set_members(
            s,
            id,
            without::<Member>(members_of(s, id), user.id.0),
        ),
        Event::ServerMembersChunk(id, members) => set_members(
            s,
            id,
            upsert_all::<Member>(members_of(s, id), members.deep_view()),
        ),
        Event::ServerSync { server_id, members } => set_members(
            s,
            server_id,
            upsert_all::<Member>(members_of(s, server_id), members.deep_view()),
        ),
        Event::ServerRoleCreate(id, role) => set_roles(
            s,
            id,
            upsert::<Role>(roles_of(s, id), role@),
        ),
        Event::ServerRoleUpdate(id, role) => set_roles(
            s,
            id,
            upsert::<Role>(roles_of(s, id), role@),
        ),
        Event::ServerRoleDelete(id, role_id) => set_roles(
            s,
            id,
            without::<Role>(roles_of(s, id), role_id.0),
        ),
        Event::ChannelCreate(ch) => put_channel(s, ch@),
        Event::ChannelUpdate(ch) => put_channel(s, ch@),
        Event::ChannelDelete(ch) => drop_channel(s, ch@),
        Event::ChannelRecipientAdd(id, user) => set_recipients(
            s,
            id.0,
            upsert::<User>(recipients_of(s, id.0), user@),
        ),
        Event::ChannelRecipientRemove(id, user) => set_recipients(
            s,
            id.0,
            without::<User>(recipients_of(s, id.0), user.id.0),
        ),
        Event::PresenceUpdate { server_id, user } => match (server_id, user) {
            (Some(id), Some(u)) => set_members(s, id, refresh_user(members_of(s, id), u@)),
            _ => s,
        },
        Event::MessageCreate(_) => s,
        Event::MessageUpdate { .. } => s,
        Event::MessageDelete { .. } => s,
        Event::TypingStart { .. } => s,
        Event::Unknown(_) => s,
    }
}

/// Replacing a server by one with the same identifier and the same channels
/// keeps the mirror's invariant, if the new server is well formed in itself.
pub proof fn lemma_same_channels(s: StateView, i: int, sv: ServerView)
    requires
        s.wf(),
        0 <= i < s.servers.len(),
        sv.id == s.servers[i].id,
        sv.channels == s.servers[i].channels,
        server_wf(sv),
    ensures
        with_server(s, i, sv).wf(),
{
    let n = with_server(s, i, sv);
    assert forall|a: int, b: int|
        0 <= a < n.servers.len() && 0 <= b < n.servers.len() && a != b implies LiveServer::key_of(
        #[trigger] n.servers[a],
    ) != LiveServer::key_of(#[trigger] n.servers[b]) by {
    }
    assert forall|k: int| 0 <= k < n.servers.len() implies server_wf(#[trigger] n.servers[k]) by {
        if k != i {
        }
    }
    assert forall|k: int, id: u64|
        0 <= k < n.servers.len() && has_key::<PublicChannel>(
            #[trigger] n.servers[k].channels,
            id,
        ) implies !#[trigger] known_outside(n, k, id) by {
        assert(!known_outside(s, k, id));
        if in_servers(n.servers, k, id) {
            let j = choose|j: int|
                0 <= j < n.servers.len() && j != k && has_key::<PublicChannel>(
                    #[trigger] n.servers[j].channels,
                    id,
                );
        }
    }
}

/// Creating or updating a channel keeps the mirror's invariant.
pub proof fn lemma_put_channel(s: StateView, ch: ChannelView)
    requires
        s.wf(),
    ensures
        put_channel(s, ch).wf(),
{
    let n = put_channel(s, ch);
    match ch {
        ChannelView::Public(c) => {
            let i = index_of::<LiveServer>(s.servers, c.server_id.0);
            lemma_index_of::<LiveServer>(s.servers, c.server_id.0);
            if i < s.servers.len() && !known_outside(s, i, c.id.0) {
                let old_ch = s.servers[i].channels;
                let new_ch = upsert::<PublicChannel>(old_ch, c);
                lemma_upsert::<PublicChannel>(old_ch, c);
                assert forall|a: int, b: int|
                    0 <= a < n.servers.len() && 0 <= b < n.servers.len() && a
                        != b implies LiveServer::key_of(#[trigger] n.servers[a])
                    != LiveServer::key_of(#[trigger] n.servers[b]) by {
                }
                assert forall|k: int| 0 <= k < n.servers.len() implies server_wf(
                    #[trigger] n.servers[k],
                ) by {
                    if k != i {
                    } else {
                    }
                }
                assert forall|k: int, id: u64|
                    0 <= k < n.servers.len() && has_key::<PublicChannel>(
                        #[trigger] n.servers[k].channels,
                        id,
                    ) implies !#[trigger] known_outside(n, k, id) by {
                    if k == i {
                        assert(!known_outside(s, i, id));
                        if in_servers(n.servers, k, id) {
                            let j = choose|j: int|
                                0 <= j < n.servers.len() && j != k && has_key::<PublicChannel>(
                                    #[trigger] n.servers[j].channels,
                                    id,
                                );
                        }
                    } else {
                        assert(!known_outside(s, k, id));
                        if in_servers(n.servers, k, id) {
                            let j = choose|j: int|
                                0 <= j < n.servers.len() && j != k && has_key::<PublicChannel>(
                                    #[trigger] n.servers[j].channels,
                                    id,
                                );
                            if j == i {
                                if id == c.id.0 {
                                } else {
                                }
                            } else {
                            }
                        }
                    }
                }
            }
        },
        ChannelView::Private(p) => {
            if !in_servers(s.servers, -1, p.id.0) && !has_key::<Group>(s.groups, p.id.0) {
                lemma_upsert::<PrivateChannel>(s.private_channels, p);
                assert forall|k: int, id: u64|
                    0 <= k < n.servers.len() && has_key::<PublicChannel>(
                        #[trigger] n.servers[k].channels,
                        id,
                    ) implies !#[trigger] known_outside(n, k, id) by {
                    assert(!known_outside(s, k, id));
                    if id == p.id.0 {
                    }
                }
            }
        },
        ChannelView::Group(g) => {
            if !in_servers(s.servers, -1, g.channel_id.0) && !has_key::<PrivateChannel>(
                s.private_channels,
                g.channel_id.0,
            ) {
                lemma_upsert::<Group>(s.groups, g);
                assert forall|k: int, id: u64|
                    0 <= k < n.servers.len() && has_key::<PublicChannel>(
                        #[trigger] n.servers[k].channels,
                        id,
                    ) implies !#[trigger] known_outside(n, k, id) by {
                    assert(!known_outside(s, k, id));
                    if id == g.channel_id.0 {
                    }
                }
            }
        },
    }
}

/// Deleting a channel keeps the mirror's invariant.
pub proof fn lemma_drop_channel(s: StateView, ch: ChannelView)
    requires
        s.wf(),
    ensures
        drop_channel(s, ch).wf(),
{
    let n = drop_channel(s, ch);
    match ch {
        ChannelView::Public(c) => {
            let i = index_of::<LiveServer>(s.servers, c.server_id.0);
            lemma_index_of::<LiveServer>(s.servers, c.server_id.0);
            if i < s.servers.len() {
                let old_ch = s.servers[i].channels;
                lemma_without::<PublicChannel>(old_ch, c.id.0);
                assert forall|a: int, b: int|
                    0 <= a < n.servers.len() && 0 <= b < n.servers.len() && a
                        != b implies LiveServer::key_of(#[trigger] n.servers[a])
                    != LiveServer::key_of(#[trigger] n.servers[b]) by {
                }
                assert forall|k: int| 0 <= k < n.servers.len() implies server_wf(
                    #[trigger] n.servers[k],
                ) by {
                    if k != i {
                    } else {
                    }
                }
                assert forall|k: int, id: u64|
                    0 <= k < n.servers.len() && has_key::<PublicChannel>(
                        #[trigger] n.servers[k].channels,
                        id,
                    ) implies !#[trigger] known_outside(n, k, id) by {
                    lemma_without_lookup::<PublicChannel>(old_ch, c.id.0, id);
                    assert(!known_outside(s, k, id));
                    if in_servers(n.servers, k, id) {
                        let j = choose|j: int|
                            0 <= j < n.servers.len() && j != k && has_key::<PublicChannel>(
                                #[trigger] n.servers[j].channels,
                                id,
                            );
                    }
                }
            }
        },
        ChannelView::Private(p) => {
            lemma_without::<PrivateChannel>(s.private_channels, p.id.0);
            assert forall|id: u64| #[trigger]
                has_key::<PrivateChannel>(n.private_channels, id) implies has_key::<
                PrivateChannel,
            >(s.private_channels, id) by {
                lemma_without_lookup::<PrivateChannel>(s.private_channels, p.id.0, id);
            }
            assert forall|k: int, id: u64|
                0 <= k < n.servers.len() && has_key::<PublicChannel>(
                    #[trigger] n.servers[k].channels,
                    id,
                ) implies !#[trigger] known_outside(n, k, id) by {
                assert(!known_outside(s, k, id));
            }
        },
        ChannelView::Group(g) => {
            lemma_without::<Group>(s.groups, g.channel_id.0);
            assert forall|id: u64| #[trigger]
                has_key::<Group>(n.groups, id) implies has_key::<Group>(s.groups, id) by {
                lemma_without_lookup::<Group>(s.groups, g.channel_id.0, id);
            }
            assert forall|k: int, id: u64|
                0 <= k < n.servers.len() && has_key::<PublicChannel>(
                    #[trigger] n.servers[k].channels,
                    id,
                ) implies !#[trigger] known_outside(n, k, id) by {
                assert(!known_outside(s, k, id));
            }
        },
    }
}

/// Removing a server keeps the mirror's invariant.
pub proof fn lemma_drop_server(s: StateView, id: u64)
    requires
        s.wf(),
    ensures
        (StateView { servers: without::<LiveServer>(s.servers, id), ..s }).wf(),
{
    let w = without::<LiveServer>(s.servers, id);
    let n = StateView { servers: w, ..s };
    lemma_without::<LiveServer>(s.servers, id);
    assert forall|k: int| 0 <= k < w.len() implies server_wf(#[trigger] w[k]) by {
    }
    assert forall|k: int, ch: u64|
        0 <= k < w.len() && has_key::<PublicChannel>(
            #[trigger] n.servers[k].channels,
            ch,
        ) implies !#[trigger] known_outside(n, k, ch) by {
        let k0 = choose|k0: int| 0 <= k0 < s.servers.len() && s.servers[k0] == w[k];
        assert(!known_outside(s, k0, ch));
        if in_servers(w, k, ch) {
            let j = choose|j: int|
                0 <= j < w.len() && j != k && has_key::<PublicChannel>(
                    #[trigger] w[j].channels,
                    ch,
                );
            let j0 = choose|j0: int| 0 <= j0 < s.servers.len() && s.servers[j0] == w[j];
        }
    }
}

/// Replacing the members of a server by a list without repeated identifiers
/// keeps the mirror's invariant.
pub proof fn lemma_set_members(s: StateView, id: ServerId, members: Seq<MemberView>)
    requires
        s.wf(),
        distinct::<Member>(members),
    ensures
        set_members(s, id, members).wf(),
{
    let i = index_of::<LiveServer>(s.servers, id.0);
    lemma_index_of::<LiveServer>(s.servers, id.0);
    if i < s.servers.len() {
        lemma_same_channels(s, i, ServerView { members, ..s.servers[i] });
    }
}

/// Replacing the roles of a server by a list without repeated identifiers
/// keeps the mirror's invariant.
pub proof fn lemma_set_roles(s: StateView, id: ServerId, roles: Seq<RoleView>)
    requires
        s.wf(),
        distinct::<Role>(roles),
    ensures
        set_roles(s, id, roles).wf(),
{
    let i = index_of::<LiveServer>(s.servers, id.0);
    lemma_index_of::<LiveServer>(s.servers, id.0);
    if i < s.servers.len() {
        lemma_same_channels(s, i, ServerView { roles, ..s.servers[i] });
    }
}

/// In a well-formed mirror the members and the roles of every server have
/// distinct identifiers.
pub proof fn lemma_lists_distinct(s: StateView, id: ServerId)
    requires
        s.wf(),
    ensures
        distinct::<Member>(members_of(s, id)),
        distinct::<Role>(roles_of(s, id)),
{
    let i = index_of::<LiveServer>(s.servers, id.0);
    lemma_index_of::<LiveServer>(s.servers, id.0);
    if i < s.servers.len() {
    }
}

/// Replacing the recipients of a group keeps the mirror's invariant.
pub proof fn lemma_set_recipients(s: StateView, id: u64, recipients: Seq<UserView>)
    requires
        s.wf(),
    ensures
        set_recipients(s, id, recipients).wf(),
{
    let g = index_of::<Group>(s.groups, id);
    lemma_index_of::<Group>(s.groups, id);
    if g < s.groups.len() {
        let item = GroupView { recipients, ..s.groups[g] };
        let n = set_recipients(s, id, recipients);
        lemma_replace::<Group>(s.groups, item);
        assert forall|k: int, ch: u64|
            0 <= k < n.servers.len() && has_key::<PublicChannel>(
                #[trigger] n.servers[k].channels,
                ch,
            ) implies !#[trigger] known_outside(n, k, ch) by {
            assert(!known_outside(s, k, ch));
        }
        assert forall|ch: u64| #[trigger]
            has_key::<PrivateChannel>(n.private_channels, ch) implies !has_key::<Group>(
            n.groups,
            ch,
        ) by {
        }
    }
}

/// Renewing the account data of a member keeps the identifiers of the list
/// distinct.
pub proof fn lemma_refresh_user(members: Seq<MemberView>, user: UserView)
    requires
        distinct::<Member>(members),
    ensures
        distinct::<Member>(refresh_user(members, user)),
{
    let m = index_of::<Member>(members, user.id.0);
    lemma_index_of::<Member>(members, user.id.0);
    if m < members.len() {
        let item = MemberView { user, ..members[m] };
        lemma_replace::<Member>(members, item);
    }
}

/// Every event keeps the mirror's invariant.
pub proof fn lemma_apply_keeps_wf(s: StateView, e: Event)
    requires
        s.wf(),
    ensures
        apply_event(s, e).wf(),
{
    match e {
        Event::Ready(_) => {},
        Event::UserUpdate(u) => {
            let n = StateView { user: u@, ..s };
            assert forall|k: int, ch: u64|
                0 <= k < n.servers.len() && has_key::<PublicChannel>(
                    #[trigger] n.servers[k].channels,
                    ch,
                ) implies !#[trigger] known_outside(n, k, ch) by {
                assert(!known_outside(s, k, ch));
            }
        },
        Event::ServerCreate(_) => {},
        Event::ServerUpdate { server_id, name } => {
            let i = index_of::<LiveServer>(s.servers, server_id.0);
            lemma_index_of::<LiveServer>(s.servers, server_id.0);
            if i < s.servers.len() {
                lemma_same_channels(s, i, ServerView { name: name@, ..s.servers[i] });
            }
        },
        Event::ServerDelete(id) => {
            lemma_drop_server(s, id.0);
        },
        Event::ServerMemberAdd(id, m) => {
            lemma_lists_distinct(s, id);
            lemma_upsert::<Member>(members_of(s, id), m@);
            lemma_set_members(s, id, upsert::<Member>(members_of(s, id), m@));
        },
        Event::ServerMemberUpdate { server_id, roles, user, nick } => {
            let m = MemberView { user: user@, nick: opt_text(nick), roles: roles@ };
            lemma_lists_distinct(s, server_id);
            lemma_upsert::<Member>(members_of(s, server_id), m);
            lemma_set_members(s, server_id, upsert::<Member>(members_of(s, server_id), m));
        },
        Event::ServerMemberRemove(id, user) => {
            lemma_lists_distinct(s, id);
            lemma_without::<Member>(members_of(s, id), user.id.0);
            lemma_set_members(s, id, without::<Member>(members_of(s, id), user.id.0));
        },
        Event::ServerMembersChunk(id, members) => {
            lemma_lists_distinct(s, id);
            lemma_upsert_all::<Member>(members_of(s, id), members.deep_view());
            lemma_set_members(
                s,
                id,
                upsert_all::<Member>(members_of(s, id), members.deep_view()),
            );
        },
        Event::ServerSync { server_id, members } => {
            lemma_lists_distinct(s, server_id);
            lemma_upsert_all::<Member>(members_of(s, server_id), members.deep_view());
            lemma_set_members(
                s,
                server_id,
                upsert_all::<Member>(members_of(s, server_id), members.deep_view()),
            );
        },
        Event::ServerRoleCreate(id, role) => {
            lemma_lists_distinct(s, id);
            lemma_upsert::<Role>(roles_of(s, id), role@);
            lemma_set_roles(s, id, upsert::<Role>(roles_of(s, id), role@));
        },
        Event::ServerRoleUpdate(id, role) => {
            lemma_lists_distinct(s, id);
            lemma_upsert::<Role>(roles_of(s, id), role@);
            lemma_set_roles(s, id, upsert::<Role>(roles_of(s, id), role@));
        },
        Event::ServerRoleDelete(id, role_id) => {
            lemma_lists_distinct(s, id);
            lemma_without::<Role>(roles_of(s, id), role_id.0);
            lemma_set_roles(s, id, without::<Role>(roles_of(s, id), role_id.0));
        },
        Event::ChannelCreate(ch) => {
            lemma_put_channel(s, ch@);
        },
        Event::ChannelUpdate(ch) => {
            lemma_put_channel(s, ch@);
        },
        Event::ChannelDelete(ch) => {
            lemma_drop_channel(s, ch@);
        },
        Event::ChannelRecipientAdd(id, user) => {
            lemma_set_recipients(s, id.0, upsert::<User>(recipients_of(s, id.0), user@));
        },
        Event::ChannelRecipientRemove(id, user) => {
            lemma_set_recipients(s, id.0, without::<User>(recipients_of(s, id.0), user.id.0));
        },
        Event::PresenceUpdate { server_id, user } => {
            match (server_id, user) {
                (Some(id), Some(u)) => {
                    lemma_lists_distinct(s, id);
                    lemma_refresh_user(members_of(s, id), u@);
                    lemma_set_members(s, id, refresh_user(members_of(s, id), u@));
                },
                _ => {},
            }
        },
        Event::MessageCreate(_) => {},
        Event::MessageUpdate { .. } => {},
        Event::MessageDelete { .. } => {},
        Event::TypingStart { .. } => {},
        Event::Unknown(_) => {},
    }
}

/// Puts each member of the batch, in order, into the list by identifier.
pub fn put_members(v: &mut Vec<Member>, batch: &Vec<Member>)
    ensures
        final(v).deep_view() == upsert_all::<Member>(old(v).deep_view(), batch.deep_view()),
{
    let mut k: usize = 0;
    while k < batch.len()
        invariant
            k <= batch.len(),
            v.deep_view() == upsert_all::<Member>(
                old(v).deep_view(),
                batch.deep_view().take(k as int),
            ),
        decreases batch.len() - k,
    {
        proof {
            let now = batch.deep_view().take(k + 1);
            assert(now.drop_last() =~= batch.deep_view().take(k as int));
        }
        put(v, batch[k].clone());
        k += 1;
    }
    assert(batch.deep_view().take(k as int) =~= batch.deep_view());
}

impl Clone for ReadyEvent {
    fn clone(&self) -> (r: ReadyEvent)
        ensures
            snapshot_state(r) == snapshot_state(*self),
    {
        ReadyEvent {
            user: self.user.clone(),
            servers: self.servers.clone(),
            private_channels: self.private_channels.clone(),
            groups: self.groups.clone(),
        }
    }
}

impl State {
    /// Applies an event to the mirror.
    pub fn update(&mut self, event: &Event)
        ensures
            final(self)@ == apply_event(old(self)@, *event),
            old(self)@.wf() ==> final(self)@.wf(),
    {
        proof {
            if old(self)@.wf() {
                lemma_apply_keeps_wf(old(self)@, *event);
            }
        }
        match event {
            Event::Ready(ready) => {
                let copy = ready.clone();
                let next = State {
                    user: copy.user,
                    servers: copy.servers,
                    private_channels: copy.private_channels,
                    groups: copy.groups,
                };
                if next.is_wf() {
                    *self = next;
                }
            },
            Event::UserUpdate(user) => {
                self.user = user.clone();
            },
            Event::ServerCreate(server) => {
                self.create_server(server);
            },
            Event::ServerUpdate { server_id, name } => {
                if let Some(i) = find_key(&self.servers, server_id.0) {
                    self.servers[i].name = name.clone();
                    assert(self@.servers =~= old(self)@.servers.update(
                        i as int,
                        ServerView { name: name@, ..old(self)@.servers[i as int] },
                    ));
                }
            },
            Event::ServerDelete(id) => {
                remove_key(&mut self.servers, id.0);
            },
            Event::ServerMemberAdd(id, member) => {
                if let Some(i) = find_key(&self.servers, id.0) {
                    put(&mut self.servers[i].members, member.clone());
                    assert(self@.servers =~= old(self)@.servers.update(
                        i as int,
                        ServerView {
                            members: self@.servers[i as int].members,
                            ..old(self)@.servers[i as int]
                        },
                    ));
                }
            },
            Event::ServerMemberUpdate { server_id, roles, user, nick } => {
                if let Some(i) = find_key(&self.servers, server_id.0) {
                    let member = Member {
                        user: user.clone(),
                        nick: clone_opt_text(nick),
                        roles: roles.clone(),
                    };
                    put(&mut self.servers[i].members, member);
                    assert(self@.servers =~= old(self)@.servers.update(
                        i as int,
                        ServerView {
                            members: self@.servers[i as int].members,
                            ..old(self)@.servers[i as int]
                        },
                    ));
                }
            },
            Event::ServerMemberRemove(id, user) => {
                if let Some(i) = find_key(&self.servers, id.0) {
                    remove_key(&mut self.servers[i].members, user.id.0);
                    assert(self@.servers =~= old(self)@.servers.update(
                        i as int,
                        ServerView {
                            members: self@.servers[i as int].members,
                            ..old(self)@.servers[i as int]
                        },
                    ));
                }
            },
            Event::ServerMembersChunk(id, members) => {
                self.merge_members(*id, members);
            },
            Event::ServerSync { server_id, members } => {
                self.merge_members(*server_id, members);
            },
            Event::ServerRoleCreate(id, role) => {
                self.put_role(*id, role);
            },
            Event::ServerRoleUpdate(id, role) => {
                self.put_role(*id, role);
            },
            Event::ServerRoleDelete(id, role_id) => {
                if let Some(i) = find_key(&self.servers, id.0) {
                    remove_key(&mut self.servers[i].roles, role_id.0);
                    assert(self@.servers =~= old(self)@.servers.update(
                        i as int,
                        ServerView {
                            roles: self@.servers[i as int].roles,
                            ..old(self)@.servers[i as int]
                        },
                    ));
                }
            },
            Event::ChannelCreate(channel) => {
                self.put_channel(channel);
            },
            Event::ChannelUpdate(channel) => {
                self.put_channel(channel);
            },
            Event::ChannelDelete(channel) => {
                match channel {
                    Channel::Public(c) => {
                        if let Some(i) = find_key(&self.servers, c.server_id.0) {
                            remove_key(&mut self.servers[i].channels, c.id.0);
                            assert(self@.servers =~= old(self)@.servers.update(
                                i as int,
                                ServerView {
                                    channels: self@.servers[i as int].channels,
                                    ..old(self)@.servers[i as int]
                                },
                            ));
                        }
                    },
                    Channel::Private(p) => {
                        remove_key(&mut self.private_channels, p.id.0);
                    },
                    Channel::Group(g) => {
                        remove_key(&mut self.groups, g.channel_id.0);
                    },
                }
            },
            Event::ChannelRecipientAdd(id, user) => {
                if let Some(g) = find_key(&self.groups, id.0) {
                    put(&mut self.groups[g].recipients, user.clone());
                    assert(self@.groups =~= old(self)@.groups.update(
                        g as int,
                        GroupView {
                            recipients: self@.groups[g as int].recipients,
                            ..old(self)@.groups[g as int]
                        },
                    ));
                }
            },
            Event::ChannelRecipientRemove(id, user) => {
                if let Some(g) = find_key(&self.groups, id.0) {
                    remove_key(&mut self.groups[g].recipients, user.id.0);
                    assert(self@.groups =~= old(self)@.groups.update(
                        g as int,
                        GroupView {
                            recipients: self@.groups[g as int].recipients,
                            ..old(self)@.groups[g as int]
                        },
                    ));
                }
            },
            Event::PresenceUpdate { server_id, user } => {
                match (server_id, user) {
                    (Some(id), Some(u)) => {
                        if let Some(i) = find_key(&self.servers, id.0) {
                            assert(old(self)@.servers =~= old(self)@.servers.update(
                                i as int,
                                old(self)@.servers[i as int],
                            ));
                            if let Some(m) = find_key(&self.servers[i].members, u.id.0) {
                                self.servers[i].members[m].user = u.clone();
                                assert(self@.servers[i as int].members =~= refresh_user(
                                    old(self)@.servers[i as int].members,
                                    u@,
                                ));
                                assert(self@.servers =~= old(self)@.servers.update(
                                    i as int,
                                    ServerView {
                                        members: self@.servers[i as int].members,
                                        ..old(self)@.servers[i as int]
                                    },
                                ));
                            }
                        }
                    },
                    _ => {},
                }
            },
            Event::MessageCreate(_) => {},
            Event::MessageUpdate { .. } => {},
            Event::MessageDelete { .. } => {},
            Event::TypingStart { .. } => {},
            Event::Unknown(_) => {},
        }
    }

    /// Takes a new server into the mirror, in the place of the server with
    /// the same identifier or at the end; leaves the mirror as it is if the
    /// server would break the invariant.
    fn create_server(&mut self, server: &LiveServer)
        ensures
            final(self)@ == apply_event(old(self)@, Event::ServerCreate(*server)),
    {
        let found = find_key(&self.servers, server.id.0);
        match found {
            Some(i) => {
                let saved = self.servers[i].clone();
                self.servers.set(i, server.clone());
                assert(self@.servers =~= upsert::<LiveServer>(old(self)@.servers, server@));
                if !self.is_wf() {
                    self.servers.set(i, saved);
                    assert(self@.servers =~= old(self)@.servers);
                }
            },
            None => {
                self.servers.push(server.clone());
                assert(self@.servers =~= upsert::<LiveServer>(old(self)@.servers, server@));
                if !self.is_wf() {
                    self.servers.pop();
                    assert(self@.servers =~= old(self)@.servers);
                }
            },
        }
    }

    /// Merges a batch of members into the server with the identifier.
    fn merge_members(&mut self, id: ServerId, members: &Vec<Member>)
        ensures
            final(self)@ == set_members(
                old(self)@,
                id,
                upsert_all::<Member>(members_of(old(self)@, id), members.deep_view()),
            ),
    {
        if let Some(i) = find_key(&self.servers, id.0) {
            put_members(&mut self.servers[i].members, members);
            assert(self@.servers =~= old(self)@.servers.update(
                i as int,
                ServerView {
                    members: self@.servers[i as int].members,
                    ..old(self)@.servers[i as int]
                },
            ));
        }
    }

    /// Puts a role into the server with the identifier.
    fn put_role(&mut self, id: ServerId, role: &Role)
        ensures
            final(self)@ == set_roles(
                old(self)@,
                id,
                upsert::<Role>(roles_of(old(self)@, id), role@),
            ),
    {
        if let Some(i) = find_key(&self.servers, id.0) {
            put(&mut self.servers[i].roles, role.clone());
            assert(self@.servers =~= old(self)@.servers.update(
                i as int,
                ServerView {
                    roles: self@.servers[i as int].roles,
                    ..old(self)@.servers[i as int]
                },
            ));
        }
    }

    /// Takes a created or updated channel into the mirror.
    fn put_channel(&mut self, channel: &Channel)
        ensures
            final(self)@ == put_channel(old(self)@, channel@),
    {
        match channel {
            Channel::Public(c) => {
                if let Some(i) = find_key(&self.servers, c.server_id.0) {
                    if !self.knows_outside(i, c.id.0) {
                        put(&mut self.servers[i].channels, c.clone());
                        assert(self@.servers =~= old(self)@.servers.update(
                            i as int,
                            ServerView {
                                channels: self@.servers[i as int].channels,
                                ..old(self)@.servers[i as int]
                            },
                        ));
                    }
                }
            },
            Channel::Private(p) => {
                let held = self.held_elsewhere(self.servers.len(), p.id.0);
                if !held {
                    if let None = find_key(&self.groups, p.id.0) {
                        put(&mut self.private_channels, p.clone());
                    }
                }
            },
            Channel::Group(g) => {
                let held = self.held_elsewhere(self.servers.len(), g.channel_id.0);
                if !held {
                    if let None = find_key(&self.private_channels, g.channel_id.0) {
                        put(&mut self.groups, g.clone());
                    }
                }
            },
        }
    }
}

} // verus!

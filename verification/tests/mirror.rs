use weecord::event::{Attachment, Event, Message};
use weecord::state::{MalformedSnapshot, ReadyEvent, State};
use weecord::types::{
    Channel, ChannelId, ChannelRef, ChannelType, CurrentUser, Group, LiveServer, Member, MessageId,
    PrivateChannel, PublicChannel, Role, RoleId, ServerId, User, UserId,
};
use weecord::util::{ServerExt, StateExt};

fn user(id: u64, name: &str) -> User {
    User { id: UserId(id), name: name.to_string() }
}

fn member(id: u64, name: &str) -> Member {
    Member { user: user(id, name), nick: None, roles: vec![] }
}

fn text(id: u64, name: &str, server: u64) -> PublicChannel {
    PublicChannel {
        id: ChannelId(id),
        name: name.to_string(),
        server_id: ServerId(server),
        kind: ChannelType::Text,
    }
}

fn server(id: u64, channels: Vec<PublicChannel>, members: Vec<Member>) -> LiveServer {
    LiveServer {
        id: ServerId(id),
        name: format!("server{}", id),
        channels,
        members,
        roles: vec![Role { id: RoleId(500), name: "mods".to_string() }],
    }
}

fn ready() -> ReadyEvent {
    ReadyEvent {
        user: CurrentUser { id: UserId(9), username: "me".to_string() },
        servers: vec![
            server(1, vec![text(10, "general", 1), text(11, "random", 1)], vec![member(9, "me")]),
            server(2, vec![text(20, "general", 2)], vec![]),
        ],
        private_channels: vec![PrivateChannel { id: ChannelId(30), recipient: user(3, "Bob") }],
        groups: vec![Group { channel_id: ChannelId(40), name: None, recipients: vec![user(4, "Cy")] }],
    }
}

fn state() -> State {
    State::new(ready()).unwrap()
}

#[test]
fn snapshot_builds_the_mirror() {
    let s = state();
    assert!(s.is_wf());
    assert_eq!(s.user().username, "me");
    assert_eq!(s.servers().len(), 2);
    assert_eq!(s.private_channels().len(), 1);
    assert_eq!(s.groups().len(), 1);
    assert_eq!(s.servers()[0].channels[1].name, "random");
}

#[test]
fn snapshot_with_two_servers_of_one_id_is_malformed() {
    let mut r = ready();
    r.servers.push(server(1, vec![], vec![]));
    assert_eq!(State::new(r), Err(MalformedSnapshot));
}

#[test]
fn snapshot_with_a_channel_id_in_two_servers_is_malformed() {
    let mut r = ready();
    r.servers[1].channels.push(text(10, "copy", 2));
    assert_eq!(State::new(r), Err(MalformedSnapshot));
}

#[test]
fn snapshot_with_a_repeated_member_is_malformed() {
    let mut r = ready();
    r.servers[0].members.push(member(9, "again"));
    assert_eq!(State::new(r), Err(MalformedSnapshot));
}

#[test]
fn snapshot_with_a_repeated_role_is_malformed() {
    let mut r = ready();
    r.servers[0].roles.push(Role { id: RoleId(500), name: "dup".to_string() });
    assert_eq!(State::new(r), Err(MalformedSnapshot));
}

#[test]
fn snapshot_with_a_repeated_channel_in_one_server_is_malformed() {
    let mut r = ready();
    r.servers[0].channels.push(text(11, "random2", 1));
    assert_eq!(State::new(r), Err(MalformedSnapshot));
}

#[test]
fn snapshot_where_a_private_channel_shares_an_id_is_malformed() {
    let mut r = ready();
    r.private_channels.push(PrivateChannel { id: ChannelId(20), recipient: user(5, "Di") });
    assert_eq!(State::new(r), Err(MalformedSnapshot));
    let mut r = ready();
    r.groups.push(Group { channel_id: ChannelId(30), name: None, recipients: vec![] });
    assert_eq!(State::new(r), Err(MalformedSnapshot));
    let mut r = ready();
    r.groups.push(Group { channel_id: ChannelId(40), name: None, recipients: vec![] });
    assert_eq!(State::new(r), Err(MalformedSnapshot));
    let mut r = ready();
    r.private_channels.push(PrivateChannel { id: ChannelId(30), recipient: user(5, "Di") });
    assert_eq!(State::new(r), Err(MalformedSnapshot));
}

#[test]
fn empty_snapshot_is_well_formed() {
    let r = ReadyEvent {
        user: CurrentUser { id: UserId(9), username: "me".to_string() },
        servers: vec![],
        private_channels: vec![],
        groups: vec![],
    };
    assert!(State::new(r).is_ok());
}

#[test]
fn find_channel_of_each_kind() {
    let s = state();
    match s.find_channel(ChannelId(11)) {
        Some(ChannelRef::Public(sv, c)) => {
            assert_eq!(sv.id, ServerId(1));
            assert_eq!(c.name, "random");
        }
        _ => panic!("expected a server channel"),
    }
    match s.find_channel(ChannelId(20)) {
        Some(ChannelRef::Public(sv, c)) => {
            assert_eq!(sv.id, ServerId(2));
            assert_eq!(c.id, ChannelId(20));
        }
        _ => panic!("expected a server channel"),
    }
    match s.find_channel(ChannelId(30)) {
        Some(ChannelRef::Private(p)) => assert_eq!(p.recipient.name, "Bob"),
        _ => panic!("expected a private channel"),
    }
    match s.find_channel(ChannelId(40)) {
        Some(ChannelRef::Group(g)) => assert_eq!(g.recipients.len(), 1),
        _ => panic!("expected a group"),
    }
    assert!(s.find_channel(ChannelId(99)).is_none());
}

#[test]
fn find_server_member_and_user() {
    let s = state();
    assert_eq!(s.find_server(&ServerId(2)).map(|x| x.name.clone()), Some("server2".to_string()));
    assert!(s.find_server(&ServerId(3)).is_none());
    let sv = s.find_server(&ServerId(1)).unwrap();
    assert_eq!(sv.find_member(UserId(9)).map(|m| m.user.name.clone()), Some("me".to_string()));
    assert!(sv.find_member(UserId(1)).is_none());
    assert_eq!(sv.find_user(UserId(9)).map(|u| u.id), Some(UserId(9)));
    assert!(sv.find_user(UserId(1)).is_none());
}

#[test]
fn knows_channels_outside_a_server() {
    let s = state();
    assert!(s.knows_outside(0, 20));
    assert!(!s.knows_outside(1, 20));
    assert!(s.knows_outside(1, 30));
    assert!(s.knows_outside(7, 40));
    assert!(!s.knows_outside(7, 99));
    assert!(s.held_elsewhere(7, 10));
    assert!(!s.held_elsewhere(0, 10));
    assert!(!s.held_elsewhere(7, 30));
}

#[test]
fn unknown_event_changes_nothing() {
    let mut s = state();
    s.update(&Event::Unknown("GUILD_SOMETHING_NEW".to_string()));
    assert_eq!(s, state());
    s.update(&Event::TypingStart { channel_id: ChannelId(10), user_id: UserId(9) });
    assert_eq!(s, state());
}

#[test]
fn messages_do_not_change_the_mirror() {
    let mut s = state();
    s.update(&Event::MessageCreate(Message {
        id: MessageId(1),
        channel_id: ChannelId(10),
        content: "hi".to_string(),
        author: user(3, "Bob"),
        mention_everyone: false,
        mentions: vec![],
        mention_roles: vec![],
        attachments: vec![Attachment { proxy_url: "u".to_string() }],
    }));
    s.update(&Event::MessageDelete { channel_id: ChannelId(10), message_id: MessageId(1) });
    s.update(&Event::MessageUpdate {
        id: MessageId(1),
        channel_id: ChannelId(10),
        content: None,
        author: None,
        mention_everyone: None,
        mentions: None,
        mention_roles: None,
        attachments: None,
    });
    assert_eq!(s, state());
}

#[test]
fn member_add_inserts_or_replaces() {
    let mut s = state();
    s.update(&Event::ServerMemberAdd(ServerId(1), member(3, "Bob")));
    assert_eq!(s.servers[0].members.len(), 2);
    assert_eq!(s.servers[0].members[1].user.name, "Bob");
    s.update(&Event::ServerMemberAdd(
        ServerId(1),
        Member { user: user(9, "me2"), nick: Some("n".to_string()), roles: vec![RoleId(500)] },
    ));
    assert_eq!(s.servers[0].members.len(), 2);
    assert_eq!(s.servers[0].members[0].user.name, "me2");
    assert_eq!(s.servers[0].members[0].nick, Some("n".to_string()));
    assert!(s.is_wf());
}

#[test]
fn member_event_for_unknown_server_is_dropped() {
    let mut s = state();
    s.update(&Event::ServerMemberAdd(ServerId(77), member(3, "Bob")));
    s.update(&Event::ServerMemberRemove(ServerId(77), user(9, "me")));
    s.update(&Event::ServerMembersChunk(ServerId(77), vec![member(3, "Bob")]));
    s.update(&Event::ServerRoleCreate(ServerId(77), Role { id: RoleId(1), name: "r".to_string() }));
    s.update(&Event::ServerUpdate { server_id: ServerId(77), name: "x".to_string() });
    assert_eq!(s, state());
}

#[test]
fn member_update_replaces_the_whole_member() {
    let mut s = state();
    s.update(&Event::ServerMemberAdd(
        ServerId(1),
        Member { user: user(3, "Bob"), nick: Some("bobby".to_string()), roles: vec![RoleId(500)] },
    ));
    s.update(&Event::ServerMemberUpdate {
        server_id: ServerId(1),
        roles: vec![],
        user: user(3, "Robert"),
        nick: None,
    });
    assert_eq!(s.servers[0].members[1], member(3, "Robert"));
    s.update(&Event::ServerMemberUpdate {
        server_id: ServerId(1),
        roles: vec![RoleId(1)],
        user: user(4, "New"),
        nick: None,
    });
    assert_eq!(s.servers[0].members.len(), 3);
    assert_eq!(s.servers[0].members[2].roles, vec![RoleId(1)]);
}

#[test]
fn member_remove_takes_the_member_out() {
    let mut s = state();
    s.update(&Event::ServerMemberAdd(ServerId(1), member(3, "Bob")));
    s.update(&Event::ServerMemberRemove(ServerId(1), user(9, "whatever")));
    assert_eq!(s.servers[0].members, vec![member(3, "Bob")]);
    s.update(&Event::ServerMemberRemove(ServerId(1), user(9, "me")));
    assert_eq!(s.servers[0].members, vec![member(3, "Bob")]);
}

#[test]
fn chunk_and_sync_merge_and_never_remove() {
    let mut s = state();
    s.update(&Event::ServerMembersChunk(
        ServerId(1),
        vec![member(3, "Bob"), member(4, "Cy"), member(3, "Bob2")],
    ));
    assert_eq!(s.servers[0].members, vec![member(9, "me"), member(3, "Bob2"), member(4, "Cy")]);
    s.update(&Event::ServerSync { server_id: ServerId(1), members: vec![member(5, "Di")] });
    assert_eq!(
        s.servers[0].members,
        vec![member(9, "me"), member(3, "Bob2"), member(4, "Cy"), member(5, "Di")]
    );
    assert!(s.is_wf());
}

#[test]
fn role_events() {
    let mut s = state();
    s.update(&Event::ServerRoleCreate(ServerId(1), Role { id: RoleId(501), name: "a".to_string() }));
    s.update(&Event::ServerRoleUpdate(ServerId(1), Role { id: RoleId(500), name: "b".to_string() }));
    assert_eq!(
        s.servers[0].roles,
        vec![
            Role { id: RoleId(500), name: "b".to_string() },
            Role { id: RoleId(501), name: "a".to_string() }
        ]
    );
    s.update(&Event::ServerRoleDelete(ServerId(1), RoleId(500)));
    assert_eq!(s.servers[0].roles, vec![Role { id: RoleId(501), name: "a".to_string() }]);
    assert_eq!(s.servers[1].roles.len(), 1);
}

#[test]
fn channel_create_and_update_upsert() {
    let mut s = state();
    s.update(&Event::ChannelCreate(Channel::Public(text(12, "new", 1))));
    assert_eq!(s.servers[0].channels.len(), 3);
    s.update(&Event::ChannelUpdate(Channel::Public(text(10, "renamed", 1))));
    assert_eq!(s.servers[0].channels[0].name, "renamed");
    assert_eq!(s.servers[0].channels.len(), 3);
    s.update(&Event::ChannelUpdate(Channel::Public(text(13, "by update", 1))));
    assert_eq!(s.servers[0].channels.len(), 4);
    s.update(&Event::ChannelCreate(Channel::Private(PrivateChannel {
        id: ChannelId(31),
        recipient: user(5, "Di"),
    })));
    assert_eq!(s.private_channels.len(), 2);
    s.update(&Event::ChannelCreate(Channel::Group(Group {
        channel_id: ChannelId(40),
        name: Some("named".to_string()),
        recipients: vec![],
    })));
    assert_eq!(s.groups.len(), 1);
    assert_eq!(s.groups[0].name, Some("named".to_string()));
    assert!(s.is_wf());
}

#[test]
fn channel_for_an_unknown_server_is_dropped() {
    let mut s = state();
    s.update(&Event::ChannelCreate(Channel::Public(text(12, "new", 77))));
    assert_eq!(s, state());
}

#[test]
fn channel_whose_id_is_in_use_elsewhere_is_dropped() {
    let mut s = state();
    s.update(&Event::ChannelCreate(Channel::Public(text(20, "clash", 1))));
    s.update(&Event::ChannelCreate(Channel::Public(text(30, "clash", 1))));
    s.update(&Event::ChannelCreate(Channel::Private(PrivateChannel {
        id: ChannelId(10),
        recipient: user(5, "Di"),
    })));
    s.update(&Event::ChannelCreate(Channel::Group(Group {
        channel_id: ChannelId(30),
        name: None,
        recipients: vec![],
    })));
    s.update(&Event::ChannelCreate(Channel::Private(PrivateChannel {
        id: ChannelId(40),
        recipient: user(5, "Di"),
    })));
    assert_eq!(s, state());
}

#[test]
fn channel_delete_removes() {
    let mut s = state();
    s.update(&Event::ChannelDelete(Channel::Public(text(10, "general", 1))));
    assert_eq!(s.servers[0].channels, vec![text(11, "random", 1)]);
    assert!(s.find_channel(ChannelId(10)).is_none());
    s.update(&Event::ChannelDelete(Channel::Private(PrivateChannel {
        id: ChannelId(30),
        recipient: user(3, "Bob"),
    })));
    assert!(s.private_channels.is_empty());
    s.update(&Event::ChannelDelete(Channel::Group(Group {
        channel_id: ChannelId(40),
        name: None,
        recipients: vec![],
    })));
    assert!(s.groups.is_empty());
    s.update(&Event::ChannelDelete(Channel::Public(text(20, "general", 1))));
    assert_eq!(s.servers[1].channels.len(), 1);
}

#[test]
fn recipients_of_a_group_change() {
    let mut s = state();
    s.update(&Event::ChannelRecipientAdd(ChannelId(40), user(5, "Di")));
    s.update(&Event::ChannelRecipientAdd(ChannelId(40), user(4, "Cy2")));
    assert_eq!(s.groups[0].recipients, vec![user(4, "Cy2"), user(5, "Di")]);
    s.update(&Event::ChannelRecipientRemove(ChannelId(40), user(4, "x")));
    assert_eq!(s.groups[0].recipients, vec![user(5, "Di")]);
    s.update(&Event::ChannelRecipientAdd(ChannelId(41), user(5, "Di")));
    assert_eq!(s.groups.len(), 1);
}

#[test]
fn presence_update_renews_the_account_of_a_member() {
    let mut s = state();
    s.update(&Event::ServerMemberAdd(
        ServerId(1),
        Member { user: user(3, "Bob"), nick: Some("b".to_string()), roles: vec![RoleId(500)] },
    ));
    s.update(&Event::PresenceUpdate { server_id: Some(ServerId(1)), user: Some(user(3, "Bobby")) });
    assert_eq!(
        s.servers[0].members[1],
        Member { user: user(3, "Bobby"), nick: Some("b".to_string()), roles: vec![RoleId(500)] }
    );
    let before = format!("{:?}", s);
    s.update(&Event::PresenceUpdate { server_id: Some(ServerId(1)), user: Some(user(8, "Who")) });
    s.update(&Event::PresenceUpdate { server_id: None, user: Some(user(3, "X")) });
    s.update(&Event::PresenceUpdate { server_id: Some(ServerId(1)), user: None });
    assert_eq!(format!("{:?}", s), before);
}

#[test]
fn server_create_update_and_delete() {
    let mut s = state();
    s.update(&Event::ServerCreate(server(3, vec![text(50, "c", 3)], vec![])));
    assert_eq!(s.servers.len(), 3);
    s.update(&Event::ServerCreate(server(2, vec![text(21, "other", 2)], vec![member(1, "a")])));
    assert_eq!(s.servers.len(), 3);
    assert_eq!(s.servers[1].channels, vec![text(21, "other", 2)]);
    s.update(&Event::ServerUpdate { server_id: ServerId(3), name: "third".to_string() });
    assert_eq!(s.servers[2].name, "third");
    s.update(&Event::ServerDelete(ServerId(1)));
    assert_eq!(s.servers.len(), 2);
    assert_eq!(s.servers[0].id, ServerId(2));
    assert!(s.is_wf());
}

#[test]
fn server_that_would_break_the_mirror_is_dropped() {
    let mut s = state();
    s.update(&Event::ServerCreate(server(3, vec![text(10, "clash", 3)], vec![])));
    assert_eq!(s, state());
    s.update(&Event::ServerCreate(server(2, vec![text(30, "clash", 2)], vec![])));
    assert_eq!(s, state());
    s.update(&Event::ServerCreate(server(4, vec![], vec![member(1, "a"), member(1, "b")])));
    assert_eq!(s, state());
}

#[test]
fn ready_event_replaces_the_mirror() {
    let mut s = state();
    let fresh = ReadyEvent {
        user: CurrentUser { id: UserId(1), username: "other".to_string() },
        servers: vec![],
        private_channels: vec![],
        groups: vec![],
    };
    s.update(&Event::Ready(fresh.clone()));
    assert_eq!(s, State::new(fresh).unwrap());
    let mut bad = ready();
    bad.servers.push(server(1, vec![], vec![]));
    let before = format!("{:?}", s);
    s.update(&Event::Ready(bad));
    assert_eq!(format!("{:?}", s), before);
}

#[test]
fn user_update_replaces_the_current_user() {
    let mut s = state();
    s.update(&Event::UserUpdate(CurrentUser { id: UserId(9), username: "renamed".to_string() }));
    assert_eq!(s.user().username, "renamed");
    assert_eq!(s.servers, state().servers);
}

#[test]
fn mirror_that_breaks_a_rule_is_not_well_formed() {
    let mut s = state();
    assert!(s.servers[0].is_wf());
    s.servers[0].members.push(member(9, "twice"));
    assert!(!s.servers[0].is_wf());
    assert!(!s.is_wf());
}

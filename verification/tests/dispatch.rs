use weecord::connection::ChannelData;
use weecord::event::{Attachment, Event, Message};
use weecord::event_proc::{on_event, open_and_sync_buffers, resync_server};
use weecord::host::{Buffer, Command, Host, Line};
use weecord::message::{format_message, format_resolved, FormattedMessage};
use weecord::session::{buffer_input, debug_command, query_command, Received, Session};
use weecord::state::{MalformedSnapshot, ReadyEvent, State};
use weecord::types::{
    Channel, ChannelId, ChannelRef, ChannelType, CurrentUser, Group, LiveServer, Member, MessageId,
    Options, PrivateChannel, PublicChannel, Role, RoleId, ServerId, User, UserId,
};

fn user(id: u64, name: &str) -> User {
    User { id: UserId(id), name: name.to_string() }
}

fn member(id: u64, name: &str) -> Member {
    Member { user: user(id, name), nick: None, roles: vec![] }
}

fn text(id: u64, name: &str, server: u64) -> PublicChannel {
    PublicChannel {
        id: ChannelId(id),
        name: name.to_string(),
        server_id: ServerId(server),
        kind: ChannelType::Text,
    }
}

fn ready() -> ReadyEvent {
    ReadyEvent {
        user: CurrentUser { id: UserId(9), username: "me".to_string() },
        servers: vec![LiveServer {
            id: ServerId(1),
            name: "Home".to_string(),
            channels: vec![],
            members: vec![Member { user: user(9, "me"), nick: None, roles: vec![RoleId(500)] }],
            roles: vec![Role { id: RoleId(500), name: "mods".to_string() }],
        }],
        private_channels: vec![PrivateChannel { id: ChannelId(30), recipient: user(3, "Bob") }],
        groups: vec![Group { channel_id: ChannelId(40), name: None, recipients: vec![user(4, "Cy")] }],
    }
}

fn session() -> Session {
    let mut s = Session::new(ready(), Host::new(), &Options::new()).unwrap();
    s.host.take_commands();
    s
}

fn message(id: u64, channel: u64, author: User, content: &str) -> Message {
    Message {
        id: MessageId(id),
        channel_id: ChannelId(channel),
        content: content.to_string(),
        author,
        mention_everyone: false,
        mentions: vec![],
        mention_roles: vec![],
        attachments: vec![],
    }
}

fn printed(name: &str, tags: &str, message: &str) -> Command {
    Command::PrintTags { name: name.to_string(), tags: tags.to_string(), message: message.to_string() }
}

fn delete(channel: u64, id: u64) -> Event {
    Event::MessageDelete { channel_id: ChannelId(channel), message_id: MessageId(id) }
}

fn edit(channel: u64, id: u64, content: Option<&str>, author: Option<User>) -> Event {
    Event::MessageUpdate {
        id: MessageId(id),
        channel_id: ChannelId(channel),
        content: content.map(|c| c.to_string()),
        author,
        mention_everyone: None,
        mentions: None,
        mention_roles: None,
        attachments: None,
    }
}

#[test]
fn session_start_opens_server_buffers() {
    let mut r = ready();
    r.servers[0].channels = vec![text(10, "general", 1)];
    let mut s = Session::new(r, Host::new(), &Options::new()).unwrap();
    let names: Vec<String> = s.host.surfaces.iter().map(|x| x.name.clone()).collect();
    assert_eq!(names, vec!["".to_string(), "1".to_string(), "1.10".to_string()]);
    assert_eq!(s.host.surfaces[2].nicks, vec!["me".to_string()]);
    assert_eq!(s.host.take_commands().len(), 13);
}

#[test]
fn session_start_fails_on_a_malformed_snapshot() {
    let mut r = ready();
    r.groups[0].channel_id = ChannelId(30);
    assert_eq!(Session::new(r, Host::new(), &Options::new()).err(), Some(MalformedSnapshot));
}

#[test]
fn events_in_order_open_fill_and_print() {
    let mut s = session();
    let o = Options::new();
    let events = vec![
        Received::Event(Event::ChannelCreate(Channel::Public(text(10, "A", 1)))),
        Received::Event(Event::ServerMemberAdd(ServerId(1), member(1, "user1"))),
        Received::Event(Event::MessageCreate(message(100, 10, user(1, "user1"), "x"))),
    ];
    let commands = s.on_poke(&events, &o);
    let b = Buffer::search(&s.host, &"1.10".to_string()).unwrap();
    assert_eq!(s.host.surfaces[b.index].nicks, vec!["me".to_string(), "user1".to_string()]);
    assert_eq!(s.host.surfaces[b.index].lines.len(), 1);
    assert_eq!(s.host.surfaces[b.index].lines[0].prefix, "user1");
    assert_eq!(s.host.surfaces[b.index].lines[0].message, "x");
    assert_eq!(
        commands.last(),
        Some(&printed("1.10", "notify_message,nick_user1,discord_messageid_100", "user1\tx"))
    );
    assert!(commands.contains(&Command::NickAdd {
        name: "1.10".to_string(),
        nick: "user1".to_string()
    }));
    assert!(s.host.commands.is_empty());
}

#[test]
fn message_before_member_add_is_still_printed() {
    let mut s = session();
    let o = Options::new();
    let first = vec![
        Received::Event(Event::ChannelCreate(Channel::Public(text(10, "A", 1)))),
        Received::Event(Event::MessageCreate(message(100, 10, user(1, "user1"), "x"))),
    ];
    let commands = s.on_poke(&first, &o);
    let b = Buffer::search(&s.host, &"1.10".to_string()).unwrap();
    assert_eq!(s.host.surfaces[b.index].nicks, vec!["me".to_string()]);
    assert_eq!(
        commands.last(),
        Some(&printed("1.10", "notify_message,nick_user1,discord_messageid_100", "user1\tx"))
    );
    let then = vec![Received::Event(Event::ServerMemberAdd(ServerId(1), member(1, "user1")))];
    s.on_poke(&then, &o);
    assert_eq!(s.host.surfaces[b.index].nicks, vec!["me".to_string(), "user1".to_string()]);
}

#[test]
fn one_batch_or_two_make_no_difference() {
    let o = Options::new();
    let make = || {
        vec![
            Received::Event(Event::ChannelCreate(Channel::Public(text(10, "A", 1)))),
            Received::Error("timeout".to_string()),
            Received::Event(Event::ServerMemberAdd(ServerId(1), member(1, "user1"))),
            Received::Event(Event::MessageCreate(message(100, 10, user(1, "user1"), "x"))),
        ]
    };
    let mut whole = session();
    let all = whole.on_poke(&make(), &o);
    let mut parts = session();
    let mut events = make();
    let tail = events.split_off(2);
    let mut got = parts.on_poke(&events, &o);
    got.extend(parts.on_poke(&tail, &o));
    assert_eq!(all, got);
    assert_eq!(whole, parts);
}

#[test]
fn unknown_events_do_nothing() {
    let mut s = session();
    let before = format!("{:?}", s);
    let commands = s.on_poke(
        &vec![
            Received::Event(Event::Unknown("SOMETHING_NEW".to_string())),
            Received::Event(Event::TypingStart { channel_id: ChannelId(30), user_id: UserId(3) }),
            Received::Event(Event::ServerRoleDelete(ServerId(77), RoleId(1))),
        ],
        &Options::new(),
    );
    assert!(commands.is_empty());
    assert_eq!(format!("{:?}", s), before);
    let state = State::new(ready()).unwrap();
    let mut host = Host::new();
    assert_eq!(
        on_event(&state, &mut host, &Event::Unknown("X".to_string()), &Options::new()),
        Some(())
    );
    assert_eq!(host, Host::new());
}

#[test]
fn errors_are_reported_and_disconnect_stops_the_work() {
    let mut s = session();
    let commands = s.on_poke(
        &vec![
            Received::Error("boom".to_string()),
            Received::Disconnected,
            Received::Event(Event::MessageCreate(message(1, 30, user(3, "Bob"), "late"))),
        ],
        &Options::new(),
    );
    assert_eq!(
        commands,
        vec![
            Command::Print {
                name: "".to_string(),
                message: "discord: listening thread had error - boom".to_string()
            },
            Command::Print {
                name: "".to_string(),
                message: "discord: Listening thread stopped!".to_string()
            },
        ]
    );
    assert_eq!(s.host.surfaces.len(), 2);
}

#[test]
fn message_to_a_server_channel_without_buffer_is_not_printed() {
    let mut r = ready();
    r.servers[0].channels = vec![text(10, "A", 1)];
    let state = State::new(r).unwrap();
    let mut host = Host::new();
    let e = Event::MessageCreate(message(100, 10, user(1, "u"), "x"));
    assert_eq!(on_event(&state, &mut host, &e, &Options::new()), None);
    assert_eq!(host, Host::new());
    let e = Event::MessageCreate(message(100, 99, user(1, "u"), "x"));
    assert_eq!(on_event(&state, &mut host, &e, &Options::new()), None);
    assert_eq!(host, Host::new());
}

#[test]
fn private_message_opens_its_buffer_and_is_tagged_private() {
    let mut s = session();
    let mut m = message(5, 30, user(3, "Bob"), "hi <@9> <@3>");
    m.attachments =
        vec![Attachment { proxy_url: "http://a".to_string() }, Attachment { proxy_url: "http://b".to_string() }];
    let commands = s.on_poke(&vec![Received::Event(Event::MessageCreate(m))], &Options::new());
    assert_eq!(commands.len(), 9);
    assert_eq!(commands[0], Command::BufferNew { name: "0.30".to_string() });
    assert_eq!(commands[7], Command::Backfill { name: "0.30".to_string(), channel: ChannelId(30) });
    assert_eq!(
        commands[8],
        printed(
            "0.30",
            "notify_private,nick_Bob,discord_messageid_5",
            "Bob\thi @unknown @Bob\nhttp://a\nhttp://b"
        )
    );
}

#[test]
fn mentions_make_a_highlight_but_not_for_own_messages() {
    let mut s = session();
    let o = Options::new();
    let mut m = message(5, 30, user(3, "Bob"), "");
    m.mentions = vec![user(9, "me")];
    m.attachments = vec![Attachment { proxy_url: "u".to_string() }];
    let commands = s.on_poke(&vec![Received::Event(Event::MessageCreate(m))], &o);
    assert_eq!(
        commands.last(),
        Some(&printed("0.30", "notify_highlight,nick_Bob,discord_messageid_5", "Bob\tu"))
    );
    let mut own = message(6, 30, user(9, "me"), "to myself");
    own.mention_everyone = true;
    let commands = s.on_poke(&vec![Received::Event(Event::MessageCreate(own))], &o);
    assert_eq!(
        commands.last(),
        Some(&printed("0.30", "notify_private,nick_me,discord_messageid_6", "me\tto myself"))
    );
}

#[test]
fn role_mention_makes_a_highlight_in_a_server_channel() {
    let mut s = session();
    let o = Options::new();
    let mut m = message(7, 10, user(3, "Bob"), "<@&500>");
    m.mention_roles = vec![RoleId(500)];
    let commands = s.on_poke(
        &vec![
            Received::Event(Event::ChannelCreate(Channel::Public(text(10, "A", 1)))),
            Received::Event(Event::MessageCreate(m)),
        ],
        &o,
    );
    assert_eq!(
        commands.last(),
        Some(&printed("1.10", "notify_highlight,nick_Bob,discord_messageid_7", "Bob\t@mods"))
    );
}

#[test]
fn deleted_message_is_shown_as_it_was_printed() {
    let mut s = session();
    let o = Options::new();
    s.on_poke(
        &vec![
            Received::Event(Event::MessageCreate(message(41, 30, user(3, "Bob"), "other"))),
            Received::Event(Event::MessageCreate(message(42, 30, user(3, "Bob"), "hello"))),
        ],
        &o,
    );
    let commands = s.on_poke(&vec![Received::Event(delete(30, 42))], &o);
    assert_eq!(
        commands,
        vec![
            Command::BufferSet {
                name: "0.30".to_string(),
                property: "short_name".to_string(),
                value: "@Bob".to_string()
            },
            Command::BufferSet {
                name: "0.30".to_string(),
                property: "localvar_set_type".to_string(),
                value: "private".to_string()
            },
            Command::BufferSet {
                name: "0.30".to_string(),
                property: "localvar_set_nick".to_string(),
                value: "me".to_string()
            },
            printed("0.30", "notify_private,nick_Bob,discord_messageid_42", "Bob\tDELETE: hello"),
        ]
    );
    let nothing = s.on_poke(&vec![Received::Event(delete(30, 43))], &o);
    assert_eq!(nothing.len(), 3);
    assert_eq!(s.host.surfaces[2].name, "0.30");
    assert_eq!(s.host.surfaces[2].lines.len(), 3);
}

#[test]
fn deleted_message_is_reported_where_the_options_say() {
    let mut r = ready();
    r.servers[0].channels = vec![text(10, "A", 1), text(11, "log", 1)];
    let o = Options { renames: vec![], colors: vec![], on_delete: vec![(1, 11), (2, 30)] };
    let mut s = Session::new(r, Host::new(), &o).unwrap();
    s.on_poke(&vec![Received::Event(Event::MessageCreate(message(42, 10, user(3, "Bob"), "oops")))], &o);
    let commands = s.on_poke(&vec![Received::Event(delete(10, 42))], &o);
    assert_eq!(
        commands.last(),
        Some(&Command::SendMessage {
            channel: ChannelId(11),
            text: "AUTO: Deleted message by Bob in A: oops".to_string(),
            strip_colors: true
        })
    );
    let unknown_target = Options { renames: vec![], colors: vec![], on_delete: vec![(1, 999)] };
    s.on_poke(
        &vec![Received::Event(Event::MessageCreate(message(43, 10, user(3, "Bob"), "again")))],
        &o,
    );
    let commands = s.on_poke(&vec![Received::Event(delete(10, 43))], &unknown_target);
    assert_eq!(
        commands.last(),
        Some(&printed("1.10", "notify_message,nick_Bob,discord_messageid_43", "Bob\tDELETE: again"))
    );
}

#[test]
fn edited_message_is_filled_up_from_the_buffer() {
    let mut s = session();
    let o = Options::new();
    s.on_poke(&vec![Received::Event(Event::MessageCreate(message(42, 30, user(3, "Bob"), "hello")))], &o);
    let commands = s.on_poke(&vec![Received::Event(edit(30, 42, Some("hullo"), None))], &o);
    assert_eq!(
        commands.last(),
        Some(&printed("0.30", "notify_private,nick_Bob,discord_messageid_42", "Bob\tEDIT: hullo"))
    );
    let commands = s.on_poke(&vec![Received::Event(edit(30, 42, None, Some(user(3, "Bob"))))], &o);
    assert_eq!(
        commands.last(),
        Some(&printed(
            "0.30",
            "notify_private,nick_Bob,discord_messageid_42",
            "Bob\tEDIT: hello\nEDIT: hullo"
        ))
    );
}

#[test]
fn edited_message_that_was_never_seen_gets_placeholders() {
    let mut s = session();
    let o = Options::new();
    let commands = s.on_poke(&vec![Received::Event(edit(30, 50, None, None))], &o);
    assert_eq!(
        commands.last(),
        Some(&printed(
            "0.30",
            "notify_private,nick_unknown,discord_messageid_50",
            "unknown\tEDIT: (message unavailable)"
        ))
    );
    let mut everyone = edit(30, 51, Some("new"), None);
    if let Event::MessageUpdate { mention_everyone, .. } = &mut everyone {
        *mention_everyone = Some(true);
    }
    let commands = s.on_poke(&vec![Received::Event(everyone)], &o);
    assert_eq!(
        commands.last(),
        Some(&printed("0.30", "notify_highlight,nick_unknown,discord_messageid_51", "unknown\tEDIT: new"))
    );
}

#[test]
fn roster_events_touch_open_buffers_only() {
    let mut r = ready();
    r.servers[0].channels = vec![text(10, "A", 1), text(11, "B", 1)];
    let state = State::new(r).unwrap();
    let o = Options::new();
    let mut host = Host::new();
    host.adopt("1.11".to_string(), vec!["gone".to_string()], vec![]);
    let e = Event::ServerMemberRemove(ServerId(1), user(5, "gone"));
    assert_eq!(on_event(&state, &mut host, &e, &o), Some(()));
    assert_eq!(host.surfaces.len(), 2);
    assert_eq!(host.surfaces[1].nicks, vec!["me".to_string()]);
    let commands = host.take_commands();
    assert_eq!(commands.len(), 5);
    assert_eq!(commands[3], Command::NickAdd { name: "1.11".to_string(), nick: "me".to_string() });
    assert_eq!(commands[4], Command::NickRemove { name: "1.11".to_string(), nick: "gone".to_string() });
    resync_server(&state, &mut host, &state.servers[0], true, &o);
    assert_eq!(host.surfaces.len(), 3);
    let mut fresh = Host::new();
    open_and_sync_buffers(&state, &mut fresh, &o);
    let names: Vec<String> = fresh.surfaces.iter().map(|x| x.name.clone()).collect();
    assert_eq!(names, vec!["".to_string(), "1".to_string(), "1.10".to_string(), "1.11".to_string()]);
}

#[test]
fn channel_update_refreshes_but_does_not_open() {
    let mut s = session();
    let o = Options::new();
    let commands = s.on_poke(
        &vec![
            Received::Event(Event::ChannelCreate(Channel::Public(text(10, "A", 1)))),
            Received::Event(Event::ChannelUpdate(Channel::Public(text(10, "B", 1)))),
            Received::Event(Event::ChannelUpdate(Channel::Public(text(11, "C", 1)))),
            Received::Event(Event::ChannelCreate(Channel::Public(text(12, "D", 77)))),
        ],
        &o,
    );
    assert_eq!(s.host.surfaces.len(), 3);
    assert_eq!(commands.len(), 10 + 3);
    assert_eq!(
        commands[10],
        Command::BufferSet {
            name: "1.10".to_string(),
            property: "short_name".to_string(),
            value: "#B".to_string()
        }
    );
    assert_eq!(s.state.servers[0].channels.len(), 2);
}

#[test]
fn server_create_opens_its_buffers() {
    let mut s = session();
    let o = Options::new();
    let server = LiveServer {
        id: ServerId(2),
        name: "Work".to_string(),
        channels: vec![text(20, "a", 2), PublicChannel {
            id: ChannelId(21),
            name: "v".to_string(),
            server_id: ServerId(2),
            kind: ChannelType::Voice,
        }],
        members: vec![member(1, "al")],
        roles: vec![],
    };
    s.on_poke(&vec![Received::Event(Event::ServerCreate(server))], &o);
    let names: Vec<String> = s.host.surfaces.iter().map(|x| x.name.clone()).collect();
    assert_eq!(names, vec!["".to_string(), "1".to_string(), "2".to_string(), "2.20".to_string()]);
    assert_eq!(s.host.surfaces[3].nicks, vec!["al".to_string()]);
}

#[test]
fn typed_text_is_sent_with_mentions() {
    let s = session();
    let o = Options::new();
    let mut host = Host::new();
    let d = ChannelData::from_discord_event(&s.state, &mut host, ChannelId(30), &o).unwrap();
    host.take_commands();
    buffer_input(&s.state, &mut host, d.buffer, "hey @Bob", &o);
    buffer_input(&s.state, &mut host, Buffer::main(), "hey", &o);
    assert_eq!(
        host.take_commands(),
        vec![
            Command::SendMessage {
                channel: ChannelId(30),
                text: "hey <@3>".to_string(),
                strip_colors: false
            },
            Command::Print {
                name: "".to_string(),
                message: "Associated channel not found!?".to_string()
            },
        ]
    );
}

#[test]
fn query_opens_or_asks_for_a_private_channel() {
    let mut r = ready();
    r.servers[0].members.push(member(1, "Al"));
    let state = State::new(r).unwrap();
    let o = Options::new();
    let mut host = Host::new();
    query_command(&state, &mut host, Buffer::main(), "Bob", &o);
    assert_eq!(host.surfaces.len(), 2);
    assert_eq!(host.surfaces[1].name, "0.30");
    host.take_commands();
    query_command(&state, &mut host, Buffer::main(), "Al", &o);
    query_command(&state, &mut host, Buffer::main(), "Nobody", &o);
    assert_eq!(
        host.take_commands(),
        vec![
            Command::OpenPrivate { user: UserId(1) },
            Command::Print { name: "".to_string(), message: "User not found: Nobody".to_string() },
        ]
    );
}

#[test]
fn format_message_lays_out_tags_and_content() {
    let state = State::new(ready()).unwrap();
    let o = Options {
        renames: vec![(30, "bobs".to_string())],
        colors: vec![("Bob".to_string(), "<c>".to_string())],
        on_delete: vec![],
    };
    let mut host = Host::new();
    let d = ChannelData::from_discord_event(&state, &mut host, ChannelId(30), &o).unwrap();
    let bob = user(3, "Bob");
    let files = vec![Attachment { proxy_url: "http://f".to_string() }];
    let m = format_message(
        &d,
        &host,
        MessageId(8),
        Some(&bob),
        Some("text"),
        Some(&files),
        "EDIT: ",
        true,
        false,
        &o,
    )
    .unwrap();
    assert_eq!(
        m,
        FormattedMessage {
            channel: "bobs".to_string(),
            author: "<c>Bob\u{1c}".to_string(),
            prefix: "EDIT: ",
            content: "text\nhttp://f".to_string(),
            tags: vec![
                "notify_highlight".to_string(),
                "nick_<c>Bob\u{1c}".to_string(),
                "discord_messageid_8".to_string()
            ],
        }
    );
    m.print(&mut host, &d.buffer);
    assert_eq!(
        host.surfaces[1].lines,
        vec![Line {
            tags: m.tags.clone(),
            prefix: "<c>Bob\u{1c}".to_string(),
            message: "EDIT: text\nhttp://f".to_string()
        }]
    );
    assert!(format_message(&d, &host, MessageId(9), None, None, None, "", false, false, &o).is_none());
    let chan = ChannelRef::Private(&state.private_channels[0]);
    let plain = format_resolved(&chan, MessageId(1), "a".to_string(), "".to_string(), None, "", false, &o);
    assert_eq!(plain.content, "");
    assert_eq!(plain.tags[0], "notify_private");
}

#[test]
fn debug_replace_lists_names_and_mentions() {
    let mut r = ready();
    r.servers[0].channels = vec![text(10, "A", 1)];
    r.servers.push(LiveServer {
        id: ServerId(2),
        name: "Empty".to_string(),
        channels: vec![],
        members: vec![],
        roles: vec![],
    });
    let state = State::new(r).unwrap();
    let mut host = Host::new();
    debug_command(&state, &mut host, "other", &Options::new());
    assert!(host.commands.is_empty());
    debug_command(&state, &mut host, "replace", &Options::new());
    let lines: Vec<String> = host
        .take_commands()
        .into_iter()
        .map(|c| match c {
            Command::Print { name, message } => {
                assert_eq!(name, "");
                message
            }
            other => panic!("unexpected {:?}", other),
        })
        .collect();
    assert_eq!(
        lines,
        vec![
            "Server: Home".to_string(),
            "@mods : <@&500>".to_string(),
            "@me : <@9>".to_string(),
            "@me : <@!9>".to_string(),
            "#A : <#10>".to_string(),
            "Server: Empty".to_string(),
        ]
    );
}

#[test]
fn a_snapshot_in_the_stream_opens_nothing() {
    let mut first = ready();
    first.servers[0].channels = vec![text(10, "A", 1), text(11, "B", 1)];
    let o = Options::new();
    let mut s = Session::new(first, Host::new(), &o).unwrap();
    s.host.take_commands();
    s.host.close(&"1.11".to_string());
    let before = format!("{:?}", s.host);
    let mut again = ready();
    again.servers[0].channels = vec![text(10, "A", 1), text(11, "B", 1), text(12, "C", 1)];
    let commands = s.on_poke(&vec![Received::Event(Event::Ready(again))], &o);
    assert!(commands.is_empty());
    assert_eq!(format!("{:?}", s.host), before);
    assert!(Buffer::search(&s.host, &"1.11".to_string()).is_none());
    assert!(Buffer::search(&s.host, &"1.12".to_string()).is_none());
    assert_eq!(s.state.servers[0].channels.len(), 3);

    let state = State::new(ready()).unwrap();
    let mut host = Host::new();
    assert_eq!(on_event(&state, &mut host, &Event::Ready(ready()), &o), Some(()));
    assert_eq!(host, Host::new());
}

#[test]
fn events_the_dispatcher_leaves_alone_touch_no_buffer() {
    let mut first = ready();
    first.servers[0].channels = vec![text(10, "A", 1)];
    let o = Options::new();
    let mut s = Session::new(first, Host::new(), &o).unwrap();
    s.host.take_commands();
    let before = format!("{:?}", s.host);
    let quiet = vec![
        Received::Event(Event::UserUpdate(CurrentUser { id: UserId(9), username: "i".to_string() })),
        Received::Event(Event::ServerUpdate { server_id: ServerId(1), name: "New".to_string() }),
        Received::Event(Event::ServerRoleCreate(ServerId(1), Role { id: RoleId(7), name: "r".to_string() })),
        Received::Event(Event::ServerRoleUpdate(ServerId(1), Role { id: RoleId(7), name: "s".to_string() })),
        Received::Event(Event::ServerRoleDelete(ServerId(1), RoleId(7))),
        Received::Event(Event::ChannelRecipientAdd(ChannelId(40), user(5, "Di"))),
        Received::Event(Event::ChannelRecipientRemove(ChannelId(40), user(5, "Di"))),
        Received::Event(Event::ChannelDelete(Channel::Public(text(10, "A", 1)))),
        Received::Event(Event::TypingStart { channel_id: ChannelId(30), user_id: UserId(3) }),
        Received::Event(Event::ServerDelete(ServerId(1))),
        Received::Event(Event::Unknown("NEW_KIND".to_string())),
    ];
    let commands = s.on_poke(&quiet, &o);
    assert!(commands.is_empty());
    assert_eq!(format!("{:?}", s.host), before);
    assert!(s.state.servers.is_empty());
    assert_eq!(s.state.user().username, "i");
}

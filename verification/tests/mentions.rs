use weecord::connection::ChannelData;
use weecord::host::{Buffer, Host, Line};
use weecord::message::{
    all_names, all_names_everywhere, find_old_msg, find_tag, find_user_named, format_message_send,
    insert_sorted, is_self_mentioned, replace_mentions, replace_mentions_send, resolve_mention,
    resolve_with, roles_overlap, scan_marker, scan_token, tag_of, unknown,
};
use weecord::state::{ReadyEvent, State};
use weecord::text::digit_of;
use weecord::types::{
    ChannelId, ChannelRef, ChannelType, CurrentUser, Group, LiveServer, Member, Mention,
    MentionKind,
    MessageId, NameFormat, Options, PrivateChannel, PublicChannel, Role, RoleId, ServerId, User,
    UserId,
};

fn user(id: u64, name: &str) -> User {
    User { id: UserId(id), name: name.to_string() }
}

fn member(id: u64, name: &str, nick: Option<&str>, roles: Vec<u64>) -> Member {
    Member {
        user: user(id, name),
        nick: nick.map(|n| n.to_string()),
        roles: roles.into_iter().map(RoleId).collect(),
    }
}

fn text(id: u64, name: &str, server: u64) -> PublicChannel {
    PublicChannel {
        id: ChannelId(id),
        name: name.to_string(),
        server_id: ServerId(server),
        kind: ChannelType::Text,
    }
}

fn home() -> LiveServer {
    LiveServer {
        id: ServerId(1),
        name: "Home".to_string(),
        channels: vec![text(10, "general", 1), text(11, "dev", 1)],
        members: vec![
            member(1, "Al", None, vec![]),
            member(2, "Alice", None, vec![]),
            member(9, "me", Some("myself"), vec![500, 501]),
        ],
        roles: vec![Role { id: RoleId(500), name: "mods".to_string() }],
    }
}

fn state() -> State {
    State::new(ReadyEvent {
        user: CurrentUser { id: UserId(9), username: "me".to_string() },
        servers: vec![home()],
        private_channels: vec![PrivateChannel { id: ChannelId(30), recipient: user(3, "Bob") }],
        groups: vec![Group {
            channel_id: ChannelId(40),
            name: None,
            recipients: vec![user(4, "Cy"), user(5, "Di")],
        }],
    })
    .unwrap()
}

fn chars(s: &str) -> Vec<char> {
    s.chars().collect()
}

fn row(a: &str, b: &str) -> (String, String) {
    (a.to_string(), b.to_string())
}

#[test]
fn outgoing_replaces_the_longer_name_first() {
    let s = home();
    let c = &s.channels[0];
    let out = format_message_send(
        &ChannelRef::Public(&s, c),
        "hi @Alice and @Al".to_string(),
        &Options::new(),
    );
    assert_eq!(out, "hi <@2> and <@1>");
}

#[test]
fn outgoing_leaves_bare_names_alone() {
    let s = home();
    let c = &s.channels[0];
    let out =
        replace_mentions_send(&ChannelRef::Public(&s, c), "hi Alice and Al".to_string(), &Options::new());
    assert_eq!(out, "hi Alice and Al");
}

#[test]
fn outgoing_knows_roles_channels_and_nicknames() {
    let s = home();
    let c = &s.channels[0];
    let out = replace_mentions_send(
        &ChannelRef::Public(&s, c),
        "@mods see #dev, @myself and @me".to_string(),
        &Options::new(),
    );
    assert_eq!(out, "<@&500> see <#11>, <@!9> and <@9>");
}

#[test]
fn outgoing_in_private_channels_and_groups() {
    let s = state();
    let o = Options::new();
    let p = ChannelRef::Private(&s.private_channels[0]);
    assert_eq!(replace_mentions_send(&p, "@Bob @Al".to_string(), &o), "<@3> @Al");
    let g = ChannelRef::Group(&s.groups[0]);
    assert_eq!(replace_mentions_send(&g, "@Di @Cy @Bob".to_string(), &o), "<@5> <@4> @Bob");
}

#[test]
fn all_names_are_sorted_by_falling_length_and_stable() {
    let s = home();
    let c = &s.channels[0];
    let names = all_names(&ChannelRef::Public(&s, c), &NameFormat::prefix(), &Options::new());
    assert_eq!(
        names,
        vec![
            row("#general", "<#10>"),
            row("@myself", "<@!9>"),
            row("@Alice", "<@2>"),
            row("@Alice", "<@!2>"),
            row("@mods", "<@&500>"),
            row("#dev", "<#11>"),
            row("@Al", "<@1>"),
            row("@Al", "<@!1>"),
            row("@me", "<@9>"),
        ]
    );
}

#[test]
fn all_names_count_bytes_not_characters() {
    let s = LiveServer {
        id: ServerId(1),
        name: "Home".to_string(),
        channels: vec![],
        members: vec![member(1, "abc", None, vec![]), member(2, "\u{e9}\u{e9}", None, vec![])],
        roles: vec![],
    };
    let c = text(10, "x", 1);
    let names = all_names(&ChannelRef::Public(&s, &c), &NameFormat::none(), &Options::new());
    assert_eq!(names[0], row("\u{e9}\u{e9}", "<@2>"));
    assert_eq!(names[2], row("abc", "<@1>"));
}

#[test]
fn all_names_of_a_private_channel_and_a_group() {
    let s = state();
    let o = Options::new();
    let fmt = NameFormat::none();
    assert_eq!(
        all_names(&ChannelRef::Private(&s.private_channels[0]), &fmt, &o),
        vec![row("Bob", "<@3>")]
    );
    assert_eq!(
        all_names(&ChannelRef::Group(&s.groups[0]), &fmt, &o),
        vec![row("Cy", "<@4>"), row("Di", "<@5>")]
    );
}

#[test]
fn insert_sorted_goes_behind_equal_lengths() {
    let mut v = vec![row("aaaa", "1"), row("bb", "2"), row("cc", "3"), row("d", "4")];
    insert_sorted(&mut v, row("ee", "5"));
    insert_sorted(&mut v, row("fffff", "6"));
    insert_sorted(&mut v, row("", "7"));
    assert_eq!(
        v,
        vec![
            row("fffff", "6"),
            row("aaaa", "1"),
            row("bb", "2"),
            row("cc", "3"),
            row("ee", "5"),
            row("d", "4"),
            row("", "7"),
        ]
    );
}

#[test]
fn incoming_resolves_known_and_unknown_users() {
    let s = home();
    let c = &s.channels[0];
    let out = replace_mentions(&ChannelRef::Public(&s, c), "<@2> and <@777>", &Options::new());
    assert_eq!(out, "@Alice and @unknown");
}

#[test]
fn incoming_resolves_every_kind() {
    let s = home();
    let c = &s.channels[0];
    let chan = ChannelRef::Public(&s, c);
    let o = Options::new();
    assert_eq!(replace_mentions(&chan, "<@9>", &o), "@me");
    assert_eq!(replace_mentions(&chan, "<@!9>", &o), "@myself");
    assert_eq!(replace_mentions(&chan, "<@&500>", &o), "@mods");
    assert_eq!(replace_mentions(&chan, "<#11>", &o), "#dev");
    assert_eq!(replace_mentions(&chan, "<@&9>", &o), "@unknown");
    assert_eq!(replace_mentions(&chan, "<#500>", &o), "#unknown");
    assert_eq!(replace_mentions(&chan, "a<@1><@2>b", &o), "a@Al@Aliceb");
}

#[test]
fn incoming_uses_colors_and_renames() {
    let s = home();
    let c = &s.channels[0];
    let o = Options {
        renames: vec![(2, "Ally".to_string())],
        colors: vec![
            ("Ally".to_string(), "<c1>".to_string()),
            ("unknown".to_string(), "<c2>".to_string()),
        ],
        on_delete: vec![],
    };
    let out = replace_mentions(&ChannelRef::Public(&s, c), "<@2> <@!2> <@3>", &o);
    assert_eq!(out, "<c1>@Ally\u{1c} <c1>@Ally\u{1c} <c2>@unknown\u{1c}");
}

#[test]
fn incoming_leaves_what_is_no_mention() {
    let s = home();
    let c = &s.channels[0];
    let chan = ChannelRef::Public(&s, c);
    let o = Options::new();
    for t in ["<@>", "<@2", "<2>", "<@x2>", "< @2>", "<@!>", "<@&>", "<#>", "<", "<@", "<@!", "@2>", "<@2 >", ""] {
        assert_eq!(replace_mentions(&chan, t, &o), t);
    }
    assert_eq!(replace_mentions(&chan, "<<@2>>", &o), "<@Alice>");
    assert_eq!(replace_mentions(&chan, "<@<@2>", &o), "<@@Alice");
}

#[test]
fn incoming_number_too_large_is_unknown() {
    let s = home();
    let c = &s.channels[0];
    let chan = ChannelRef::Public(&s, c);
    let o = Options::new();
    assert_eq!(replace_mentions(&chan, "<@18446744073709551616>", &o), "@unknown");
    assert_eq!(replace_mentions(&chan, "<#99999999999999999999999>!", &o), "#unknown!");
    assert_eq!(replace_mentions(&chan, "<@0000000002>", &o), "@Alice");
}

#[test]
fn incoming_in_private_channels_and_groups() {
    let s = state();
    let o = Options::new();
    let p = ChannelRef::Private(&s.private_channels[0]);
    assert_eq!(replace_mentions(&p, "<@3> <@!3> <@9> <@&500> <#10>", &o), "@Bob @Bob @unknown @unknown #unknown");
    let g = ChannelRef::Group(&s.groups[0]);
    assert_eq!(replace_mentions(&g, "<@4> <@!5> <@3>", &o), "@Cy @Di @unknown");
}

#[test]
fn resolve_mention_by_kind() {
    let s = home();
    let c = &s.channels[0];
    let chan = ChannelRef::Public(&s, c);
    let o = Options::new();
    assert_eq!(resolve_mention(&chan, MentionKind::User, 9, &o), Some("@me".to_string()));
    assert_eq!(resolve_mention(&chan, MentionKind::Nickname, 9, &o), Some("@myself".to_string()));
    assert_eq!(resolve_mention(&chan, MentionKind::Role, 9, &o), None);
    assert_eq!(resolve_mention(&chan, MentionKind::Channel, 10, &o), Some("#general".to_string()));
    assert_eq!(unknown(MentionKind::Role, &o), "@unknown");
    assert_eq!(unknown(MentionKind::Channel, &o), "#unknown");
}

#[test]
fn scanning_tokens() {
    assert_eq!(scan_token(&chars("<@12>x"), 0), Some((MentionKind::User, Some(12), 5)));
    assert_eq!(scan_token(&chars("x<@!12>"), 1), Some((MentionKind::Nickname, Some(12), 6)));
    assert_eq!(scan_token(&chars("<@&1>"), 0), Some((MentionKind::Role, Some(1), 5)));
    assert_eq!(scan_token(&chars("<#7>"), 0), Some((MentionKind::Channel, Some(7), 4)));
    assert_eq!(scan_token(&chars("<#7>"), 1), None);
    assert_eq!(scan_token(&chars("<#>"), 0), None);
    assert_eq!(scan_token(&chars("<@99999999999999999999>"), 0), Some((MentionKind::User, None, 23)));
    assert_eq!(scan_marker(&chars("<@!"), 0), Some((MentionKind::Nickname, 3)));
    assert_eq!(scan_marker(&chars("<@"), 0), Some((MentionKind::User, 2)));
    assert_eq!(scan_marker(&chars("<"), 0), None);
    assert_eq!(scan_marker(&chars("<!"), 0), None);
    assert_eq!(digit_of('7'), Some(7));
    assert_eq!(digit_of('a'), None);
    assert_eq!(digit_of('\u{663}'), None);
}

fn data<'a>(s: &'a State, channel: ChannelRef<'a>) -> ChannelData<'a> {
    ChannelData { state: s, channel, buffer: Buffer::main() }
}

#[test]
fn self_mention_by_explicit_mention() {
    let s = state();
    let chan = s.find_channel(ChannelId(10)).unwrap();
    let d = data(&s, chan);
    let author = user(2, "Alice");
    let with_me = vec![user(1, "Al"), user(9, "me")];
    let without_me = vec![user(1, "Al")];
    let no_roles: Vec<RoleId> = vec![];
    assert!(is_self_mentioned(&d, false, Some(&author), Some(&with_me), Some(&no_roles)));
    assert!(!is_self_mentioned(&d, false, Some(&author), Some(&without_me), Some(&no_roles)));
}

#[test]
fn self_mention_by_everyone_and_by_role() {
    let s = state();
    let chan = s.find_channel(ChannelId(10)).unwrap();
    let d = data(&s, chan);
    let author = user(2, "Alice");
    let nobody: Vec<User> = vec![];
    assert!(is_self_mentioned(&d, true, Some(&author), Some(&nobody), None));
    assert!(is_self_mentioned(&d, true, None, None, None));
    assert!(is_self_mentioned(&d, false, Some(&author), Some(&nobody), Some(&vec![RoleId(7), RoleId(501)])));
    assert!(!is_self_mentioned(&d, false, Some(&author), Some(&nobody), Some(&vec![RoleId(7)])));
    assert!(!is_self_mentioned(&d, false, Some(&author), None, None));
    assert!(!is_self_mentioned(&d, false, None, None, None));
}

#[test]
fn own_messages_never_mention_oneself() {
    let s = state();
    let chan = s.find_channel(ChannelId(10)).unwrap();
    let d = data(&s, chan);
    let me = user(9, "me");
    let with_me = vec![user(9, "me")];
    assert!(!is_self_mentioned(&d, true, Some(&me), Some(&with_me), Some(&vec![RoleId(500)])));
}

#[test]
fn roles_do_not_count_outside_servers() {
    let s = state();
    let chan = s.find_channel(ChannelId(30)).unwrap();
    let d = data(&s, chan);
    let author = user(3, "Bob");
    assert!(!is_self_mentioned(&d, false, Some(&author), None, Some(&vec![RoleId(500)])));
    assert!(is_self_mentioned(&d, false, Some(&author), Some(&vec![user(9, "me")]), None));
    assert!(roles_overlap(&vec![RoleId(1), RoleId(2)], &vec![RoleId(3), RoleId(2)]));
    assert!(!roles_overlap(&vec![RoleId(1)], &vec![]));
}

fn line(tags: &[&str], prefix: &str, message: &str) -> Line {
    Line {
        tags: tags.iter().map(|t| t.to_string()).collect(),
        prefix: prefix.to_string(),
        message: message.to_string(),
    }
}

fn host_with(lines: Vec<Line>) -> (Host, Buffer) {
    let mut h = Host::new();
    let b = h.adopt("1.10".to_string(), vec![], lines).unwrap();
    (h, b)
}

#[test]
fn recover_what_was_printed_for_a_message() {
    let (h, b) = host_with(vec![
        line(&["notify_message", "nick_Al", "discord_messageid_41"], "Al", "other"),
        line(&["notify_message", "nick_Bob", "discord_messageid_42"], "Bob", "hello"),
    ]);
    assert_eq!(find_old_msg(&b, &h, MessageId(42)), Some(("Bob".to_string(), "hello".to_string())));
    assert_eq!(find_old_msg(&b, &h, MessageId(43)), None);
    assert_eq!(find_old_msg(&b, &h, MessageId(4)), None);
    assert_eq!(find_old_msg(&Buffer::main(), &h, MessageId(42)), None);
}

#[test]
fn recover_joins_the_lines_of_one_message() {
    let (h, b) = host_with(vec![
        line(&["discord_messageid_42"], "Bob", "one"),
        line(&["discord_messageid_7"], "Al", "between"),
        line(&["x", "discord_messageid_42"], "", "two"),
        line(&["discord_messageid_42"], "Eve", "three"),
    ]);
    assert_eq!(
        find_old_msg(&b, &h, MessageId(42)),
        Some(("Bob".to_string(), "one\ntwo\nthree".to_string()))
    );
}

#[test]
fn recover_looks_at_the_last_hundred_lines_only() {
    let mut lines = vec![line(&["discord_messageid_42"], "Bob", "old")];
    for i in 0..100 {
        lines.push(line(&["discord_messageid_1000"], "Al", &format!("{}", i)));
    }
    let (h, b) = host_with(lines);
    assert_eq!(h.surfaces[b.index].lines.len(), 100);
    assert_eq!(find_old_msg(&b, &h, MessageId(42)), None);
    let mut unkept = Host::new();
    let mut many = vec![line(&["discord_messageid_42"], "Bob", "old")];
    for _ in 0..100 {
        many.push(line(&[], "", ""));
    }
    unkept.surfaces[0].lines = many;
    assert_eq!(find_old_msg(&Buffer::main(), &unkept, MessageId(42)), None);
    unkept.surfaces[0].lines.remove(1);
    assert_eq!(
        find_old_msg(&Buffer::main(), &unkept, MessageId(42)),
        Some(("Bob".to_string(), "old".to_string()))
    );
}

#[test]
fn tags_are_found_exactly() {
    let l = line(&["a", "discord_messageid_42"], "", "");
    assert!(find_tag(&l, &"discord_messageid_42".to_string()));
    assert!(!find_tag(&l, &"discord_messageid_4".to_string()));
    assert_eq!(tag_of(MessageId(42)), "discord_messageid_42");
}

#[test]
fn resolve_with_what_the_event_carries() {
    let s = home();
    let c = &s.channels[0];
    let chan = ChannelRef::Public(&s, c);
    let o = Options::new();
    let me = user(9, "me");
    let stranger = user(77, "Zed");
    assert_eq!(
        resolve_with(Some(&me), Some("hi <@1>"), None, &chan, false, &o),
        Some(("myself".to_string(), "hi @Al".to_string()))
    );
    assert_eq!(
        resolve_with(Some(&stranger), Some(""), None, &chan, false, &o),
        Some(("Zed".to_string(), "".to_string()))
    );
}

#[test]
fn resolve_with_falls_back_piece_by_piece() {
    let s = home();
    let c = &s.channels[0];
    let chan = ChannelRef::Public(&s, c);
    let o = Options::new();
    let me = user(9, "me");
    let old = || Some(("Bob".to_string(), "<@1> stays".to_string()));
    assert_eq!(
        resolve_with(None, None, old(), &chan, false, &o),
        Some(("Bob".to_string(), "<@1> stays".to_string()))
    );
    assert_eq!(
        resolve_with(Some(&me), None, old(), &chan, false, &o),
        Some(("myself".to_string(), "<@1> stays".to_string()))
    );
    assert_eq!(
        resolve_with(None, Some("new"), old(), &chan, false, &o),
        Some(("Bob".to_string(), "new".to_string()))
    );
    assert_eq!(resolve_with(None, None, None, &chan, false, &o), None);
    assert_eq!(resolve_with(Some(&me), None, None, &chan, false, &o), None);
    assert_eq!(resolve_with(None, Some("new"), None, &chan, false, &o), None);
    assert_eq!(
        resolve_with(None, None, None, &chan, true, &o),
        Some(("unknown".to_string(), "(message unavailable)".to_string()))
    );
    assert_eq!(
        resolve_with(Some(&me), None, None, &chan, true, &o),
        Some(("myself".to_string(), "(message unavailable)".to_string()))
    );
    assert_eq!(
        resolve_with(None, Some("x"), None, &chan, true, &o),
        Some(("unknown".to_string(), "x".to_string()))
    );
}

#[test]
fn names_everywhere_in_order() {
    let s = state();
    let rows = all_names_everywhere(&s, &Options::new());
    let names: Vec<(String, u64)> = rows.into_iter().map(|(n, u)| (n, u.0)).collect();
    assert_eq!(
        names,
        vec![
            ("Al".to_string(), 1),
            ("Al".to_string(), 1),
            ("Alice".to_string(), 2),
            ("Alice".to_string(), 2),
            ("me".to_string(), 9),
            ("myself".to_string(), 9),
            ("Cy".to_string(), 4),
            ("Di".to_string(), 5),
            ("Bob".to_string(), 3),
        ]
    );
    let o = Options::new();
    assert_eq!(find_user_named(&s, &"myself".to_string(), &o), Some(UserId(9)));
    assert_eq!(find_user_named(&s, &"Bob".to_string(), &o), Some(UserId(3)));
    assert_eq!(find_user_named(&s, &"bob".to_string(), &o), None);
}

#[test]
fn a_mention_written_out_is_read_back() {
    let s = home();
    let c = &s.channels[0];
    let chan = ChannelRef::Public(&s, c);
    let o = Options::new();
    let cases = [
        (MentionKind::User, 2, "@Alice"),
        (MentionKind::Nickname, 9, "@myself"),
        (MentionKind::Role, 500, "@mods"),
        (MentionKind::Channel, 11, "#dev"),
        (MentionKind::User, u64::MAX, "@unknown"),
        (MentionKind::Channel, 0, "#unknown"),
    ];
    for (kind, id, shown) in cases {
        let wire = Mention { kind, id }.text();
        assert_eq!(scan_token(&chars(&wire), 0), Some((kind, Some(id), wire.chars().count())));
        assert_eq!(replace_mentions(&chan, &wire, &o), shown);
    }
}

#[test]
fn what_is_sent_for_a_name_is_shown_as_that_name() {
    let s = home();
    let c = &s.channels[0];
    let chan = ChannelRef::Public(&s, c);
    let o = Options::new();
    let typed = "@Alice, @myself, @mods: see #general";
    let sent = replace_mentions_send(&chan, typed.to_string(), &o);
    assert_eq!(sent, "<@2>, <@!9>, <@&500>: see <#10>");
    assert_eq!(replace_mentions(&chan, &sent, &o), typed);
}

#[test]
fn a_name_is_sent_whole_and_its_surroundings_as_if_alone() {
    let s = home();
    let c = &s.channels[0];
    let chan = ChannelRef::Public(&s, c);
    let o = Options::new();
    let send = |t: &str| replace_mentions_send(&chan, t.to_string(), &o);
    let cases = [
        ("hi @Al, ", "@Alice", " and #dev", "<@2>"),
        ("", "@Alice", "", "<@2>"),
        ("@Alice", "@Al", "@Alice@Al", "<@1>"),
        ("x", "#general", "y @me", "<#10>"),
        ("@mods ", "@myself", " @me", "<@!9>"),
    ];
    for (pre, name, post, mention) in cases {
        let whole = format!("{}{}{}", pre, name, post);
        assert_eq!(send(&whole), format!("{}{}{}", send(pre), mention, send(post)));
    }
    assert_eq!(send("hi @Alice"), "hi <@2>");
    assert_eq!(send("nothing to see, Alice & Al"), "nothing to see, Alice & Al");
}

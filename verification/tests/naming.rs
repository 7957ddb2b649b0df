use weecord::types::{
    Channel, ChannelId, ChannelRef, ChannelType, CurrentUser, DiscordId, EmojiId, Group, Id,
    LiveServer, Member, Mention, MentionKind, Mentionable, MessageId, Name, NameFormat, Options,
    PrivateChannel, PublicChannel, Role, RoleId, ServerId, User, UserId,
};

fn user(id: u64, name: &str) -> User {
    User { id: UserId(id), name: name.to_string() }
}

fn opts() -> Options {
    Options::new()
}

fn colors() -> Options {
    Options {
        renames: vec![],
        colors: vec![("Alice".to_string(), "\u{19}F05".to_string())],
        on_delete: vec![],
    }
}

#[test]
fn name_formats_have_their_flags() {
    assert_eq!(NameFormat::none(), NameFormat { include_prefix: false, include_color: false });
    assert_eq!(NameFormat::color(), NameFormat { include_prefix: false, include_color: true });
    assert_eq!(NameFormat::prefix(), NameFormat { include_prefix: true, include_color: false });
    assert_eq!(
        NameFormat::color_prefix(),
        NameFormat { include_prefix: true, include_color: true }
    );
}

#[test]
fn format_adds_prefix_and_color() {
    let o = colors();
    let alice = "Alice".to_string();
    assert_eq!(NameFormat::none().format("@", &alice, &o), "Alice");
    assert_eq!(NameFormat::prefix().format("@", &alice, &o), "@Alice");
    assert_eq!(NameFormat::color().format("@", &alice, &o), "\u{19}F05Alice\u{1c}");
    assert_eq!(NameFormat::color_prefix().format("@", &alice, &o), "\u{19}F05@Alice\u{1c}");
}

#[test]
fn format_without_a_color_for_the_name_stays_plain() {
    let o = colors();
    let bob = "Bob".to_string();
    assert_eq!(NameFormat::color().format("@", &bob, &o), "Bob");
    assert_eq!(NameFormat::color_prefix().format("#", &bob, &o), "#Bob");
}

#[test]
fn user_name_and_rename() {
    let u = user(1, "Alice");
    assert_eq!(u.name(&NameFormat::prefix(), &opts()), "@Alice");
    let o = Options {
        renames: vec![(2, "Nope".to_string()), (1, "Ally".to_string()), (1, "Late".to_string())],
        colors: vec![("Ally".to_string(), "C".to_string())],
        on_delete: vec![],
    };
    assert_eq!(u.name(&NameFormat::prefix(), &o), "@Ally");
    assert_eq!(u.name(&NameFormat::color_prefix(), &o), "C@Ally\u{1c}");
    assert_eq!(u.name_internal(), ("@", "Alice".to_string()));
}

#[test]
fn member_name_precedence() {
    let plain = Member { user: user(1, "Alice"), nick: None, roles: vec![] };
    let nicked = Member { user: user(1, "Alice"), nick: Some("Al".to_string()), roles: vec![] };
    assert_eq!(plain.name(&NameFormat::none(), &opts()), "Alice");
    assert_eq!(nicked.name(&NameFormat::none(), &opts()), "Al");
    assert_eq!(nicked.name(&NameFormat::prefix(), &opts()), "@Al");
    let o = Options { renames: vec![(1, "Boss".to_string())], colors: vec![], on_delete: vec![] };
    assert_eq!(nicked.name(&NameFormat::none(), &o), "Boss");
    assert_eq!(plain.name(&NameFormat::none(), &o), "Boss");
    assert_eq!(nicked.id(), UserId(1));
}

#[test]
fn channel_role_and_server_names() {
    let c = PublicChannel {
        id: ChannelId(10),
        name: "general".to_string(),
        server_id: ServerId(1),
        kind: ChannelType::Text,
    };
    let r = Role { id: RoleId(5), name: "mods".to_string() };
    let s = LiveServer {
        id: ServerId(1),
        name: "Home".to_string(),
        channels: vec![],
        members: vec![],
        roles: vec![],
    };
    let me = CurrentUser { id: UserId(9), username: "me".to_string() };
    assert_eq!(c.name(&NameFormat::prefix(), &opts()), "#general");
    assert_eq!(c.name(&NameFormat::none(), &opts()), "general");
    assert_eq!(r.name(&NameFormat::prefix(), &opts()), "@mods");
    assert_eq!(s.name(&NameFormat::prefix(), &opts()), "Home");
    assert_eq!(me.name(&NameFormat::prefix(), &opts()), "@me");
    assert_eq!(c.id(), ChannelId(10));
    assert_eq!(r.id(), RoleId(5));
    assert_eq!(s.id(), ServerId(1));
    assert_eq!(me.id(), UserId(9));
}

#[test]
fn private_channel_is_named_after_its_recipient() {
    let p = PrivateChannel { id: ChannelId(20), recipient: user(2, "Bob") };
    assert_eq!(p.name(&NameFormat::prefix(), &opts()), "@Bob");
    let by_user = Options { renames: vec![(2, "X".to_string())], colors: vec![], on_delete: vec![] };
    assert_eq!(p.name(&NameFormat::prefix(), &by_user), "@Bob");
    let by_channel =
        Options { renames: vec![(20, "Y".to_string())], colors: vec![], on_delete: vec![] };
    assert_eq!(p.name(&NameFormat::prefix(), &by_channel), "@Y");
    assert_eq!(p.id(), ChannelId(20));
}

#[test]
fn group_name_is_built_and_cut() {
    let named = Group {
        channel_id: ChannelId(30),
        name: Some("abcdefghijklmnopqrstuvwxyz".to_string()),
        recipients: vec![],
    };
    assert_eq!(named.name(), "abcdefghijklmnopqrstuvwxyz");
    assert_eq!(named.name_internal(), ("&", "abcdefghijklmnop".to_string()));
    assert_eq!(Name::name(&named, &NameFormat::prefix(), &opts()), "&abcdefghijklmnop");

    let unnamed = Group {
        channel_id: ChannelId(31),
        name: None,
        recipients: vec![user(1, "ann"), user(2, "bob"), user(3, "cy")],
    };
    assert_eq!(unnamed.name(), "ann, bob, cy");
    assert_eq!(Name::name(&unnamed, &NameFormat::none(), &opts()), "ann, bob, cy");

    let single = Group { channel_id: ChannelId(33), name: None, recipients: vec![user(1, "ann")] };
    assert_eq!(single.name(), "ann");

    let empty = Group { channel_id: ChannelId(32), name: None, recipients: vec![] };
    assert_eq!(empty.name(), "Empty Group");
    assert_eq!(empty.id(), ChannelId(32));
}

#[test]
fn group_name_of_exactly_sixteen_characters_is_kept() {
    let g = Group {
        channel_id: ChannelId(30),
        name: Some("0123456789abcdef".to_string()),
        recipients: vec![],
    };
    assert_eq!(g.name_internal(), ("&", "0123456789abcdef".to_string()));
}

#[test]
fn channel_and_reference_names_follow_the_kind() {
    let p = PrivateChannel { id: ChannelId(20), recipient: user(2, "Bob") };
    let g = Group { channel_id: ChannelId(30), name: Some("team".to_string()), recipients: vec![] };
    let c = PublicChannel {
        id: ChannelId(10),
        name: "general".to_string(),
        server_id: ServerId(1),
        kind: ChannelType::Text,
    };
    let s = LiveServer {
        id: ServerId(1),
        name: "Home".to_string(),
        channels: vec![],
        members: vec![],
        roles: vec![],
    };
    assert_eq!(ChannelRef::Private(&p).name(&NameFormat::prefix(), &opts()), "@Bob");
    assert_eq!(ChannelRef::Group(&g).name(&NameFormat::prefix(), &opts()), "&team");
    assert_eq!(ChannelRef::Public(&s, &c).name(&NameFormat::prefix(), &opts()), "#general");
    assert_eq!(ChannelRef::Public(&s, &c).id(), ChannelId(10));
    assert_eq!(ChannelRef::Group(&g).id(), ChannelId(30));
    assert_eq!(ChannelRef::Private(&p).id(), ChannelId(20));
    assert_eq!(Channel::Public(c).name(&NameFormat::prefix(), &opts()), "#general");
    assert_eq!(Channel::Group(g).id(), ChannelId(30));
    assert_eq!(Channel::Private(p).name(&NameFormat::none(), &opts()), "Bob");
}

#[test]
fn mention_text_of_each_kind() {
    assert_eq!(Mention { kind: MentionKind::User, id: 1234 }.text(), "<@1234>");
    assert_eq!(Mention { kind: MentionKind::Nickname, id: 1234 }.text(), "<@!1234>");
    assert_eq!(Mention { kind: MentionKind::Role, id: 1234 }.text(), "<@&1234>");
    assert_eq!(Mention { kind: MentionKind::Channel, id: 1234 }.text(), "<#1234>");
    assert_eq!(Mention { kind: MentionKind::User, id: 0 }.text(), "<@0>");
}

#[test]
fn mentionable_entities() {
    let u = user(7, "u");
    let m = Member { user: user(8, "m"), nick: None, roles: vec![] };
    let r = Role { id: RoleId(9), name: "r".to_string() };
    let c = PublicChannel {
        id: ChannelId(10),
        name: "c".to_string(),
        server_id: ServerId(1),
        kind: ChannelType::Text,
    };
    assert_eq!(u.mention_tr().text(), "<@7>");
    assert_eq!(m.mention_tr().text(), "<@8>");
    assert_eq!(r.mention_tr().text(), "<@&9>");
    assert_eq!(c.mention_tr().text(), "<#10>");
}

#[test]
fn raw_ids() {
    assert_eq!(UserId(1).raw_id(), 1);
    assert_eq!(RoleId(2).raw_id(), 2);
    assert_eq!(EmojiId(3).raw_id(), 3);
    assert_eq!(ServerId(4).raw_id(), 4);
    assert_eq!(ChannelId(5).raw_id(), 5);
    assert_eq!(MessageId(6).raw_id(), 6);
}

#[test]
fn options_look_up_the_first_row() {
    let o = Options {
        renames: vec![(1, "a".to_string()), (1, "b".to_string())],
        colors: vec![("n".to_string(), "x".to_string()), ("n".to_string(), "y".to_string())],
        on_delete: vec![(3, 30), (3, 31), (4, 40)],
    };
    assert_eq!(o.rename(1), Some("a".to_string()));
    assert_eq!(o.rename(2), None);
    assert_eq!(o.color(&"n".to_string()), Some("x".to_string()));
    assert_eq!(o.color(&"m".to_string()), None);
    assert_eq!(o.report_channel(ServerId(3)), Some(ChannelId(30)));
    assert_eq!(o.report_channel(ServerId(4)), Some(ChannelId(40)));
    assert_eq!(o.report_channel(ServerId(5)), None);
    let fresh = Options::new();
    assert_eq!(fresh.rename(1), None);
    assert_eq!(fresh.report_channel(ServerId(3)), None);
}

#[test]
fn clones_are_equal() {
    let m = Member { user: user(1, "Alice"), nick: Some("Al".to_string()), roles: vec![RoleId(2)] };
    assert_eq!(m.clone(), m);
    let g = Group { channel_id: ChannelId(30), name: None, recipients: vec![user(1, "a")] };
    assert_eq!(g.clone(), g);
    let s = LiveServer {
        id: ServerId(1),
        name: "Home".to_string(),
        channels: vec![PublicChannel {
            id: ChannelId(10),
            name: "general".to_string(),
            server_id: ServerId(1),
            kind: ChannelType::Voice,
        }],
        members: vec![m],
        roles: vec![Role { id: RoleId(2), name: "r".to_string() }],
    };
    assert_eq!(s.clone(), s);
    assert_eq!(Channel::Group(g.clone()).clone(), Channel::Group(g));
}

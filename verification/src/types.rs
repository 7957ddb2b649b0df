//! The chat entities that the mirror holds, their mathematical views, and the
//! rules that give each entity an identifier, a display name and a mention.

use crate::keyed::Keyed;
use crate::text::{decimal, push_decimal, push_str, to_text};
use vstd::prelude::*;
use vstd::string::*;

verus! {

/// Identifier of a user.
#[derive(Clone, Copy, Debug, PartialEq, Eq, Structural, Hash)]
pub struct UserId(pub u64);

/// Identifier of a role.
#[derive(Clone, Copy, Debug, PartialEq, Eq, Structural, Hash)]
pub struct RoleId(pub u64);

/// Identifier of a custom emoji.
#[derive(Clone, Copy, Debug, PartialEq, Eq, Structural, Hash)]
pub struct EmojiId(pub u64);

/// Identifier of a server; zero stands for "no server".
#[derive(Clone, Copy, Debug, PartialEq, Eq, Structural, Hash)]
pub struct ServerId(pub u64);

/// Identifier of a channel of any kind.
#[derive(Clone, Copy, Debug, PartialEq, Eq, Structural, Hash)]
pub struct ChannelId(pub u64);

/// Identifier of a message.
#[derive(Clone, Copy, Debug, PartialEq, Eq, Structural, Hash)]
pub struct MessageId(pub u64);

/// An identifier that is a plain number on the wire.
pub trait DiscordId: Eq {
    /// The number behind the identifier.
    spec fn raw(&self) -> u64;

    fn raw_id(&self) -> (r: u64)
        ensures
            r == self.raw(),
    ;
}

impl DiscordId for UserId {
    open spec fn raw(&self) -> u64 {
        self.0
    }

    fn raw_id(&self) -> (r: u64) {
        self.0
    }
}

impl DiscordId for RoleId {
    open spec fn raw(&self) -> u64 {
        self.0
    }

    fn raw_id(&self) -> (r: u64) {
        self.0
    }
}

impl DiscordId for EmojiId {
    open spec fn raw(&self) -> u64 {
        self.0
    }

    fn raw_id(&self) -> (r: u64) {
        self.0
    }
}

impl DiscordId for ServerId {
    open spec fn raw(&self) -> u64 {
        self.0
    }

    fn raw_id(&self) -> (r: u64) {
        self.0
    }
}

impl DiscordId for ChannelId {
    open spec fn raw(&self) -> u64 {
        self.0
    }

    fn raw_id(&self) -> (r: u64) {
        self.0
    }
}

impl DiscordId for MessageId {
    open spec fn raw(&self) -> u64 {
        self.0
    }

    fn raw_id(&self) -> (r: u64) {
        self.0
    }
}

/// A user account.
#[derive(Debug, PartialEq, Eq)]
pub struct User {
    pub id: UserId,
    pub name: String,
}

/// What a [`User`] stands for in contracts.
pub struct UserView {
    pub id: UserId,
    pub name: Seq<char>,
}

impl View for User {
    type V = UserView;

    open spec fn view(&self) -> UserView {
        UserView { id: self.id, name: self.name@ }
    }
}

impl DeepView for User {
    type V = UserView;

    open spec fn deep_view(&self) -> UserView {
        self@
    }
}

impl Clone for User {
    fn clone(&self) -> (r: User)
        ensures
            r@ == self@,
    {
        User { id: self.id, name: self.name.clone() }
    }
}

/// The account that the session is signed in as.
#[derive(Debug, PartialEq, Eq)]
pub struct CurrentUser {
    pub id: UserId,
    pub username: String,
}

/// What a [`CurrentUser`] stands for in contracts.
pub struct CurrentUserView {
    pub id: UserId,
    pub username: Seq<char>,
}

impl View for CurrentUser {
    type V = CurrentUserView;

    open spec fn view(&self) -> CurrentUserView {
        CurrentUserView { id: self.id, username: self.username@ }
    }
}

impl Clone for CurrentUser {
    fn clone(&self) -> (r: CurrentUser)
        ensures
            r@ == self@,
    {
        CurrentUser { id: self.id, username: self.username.clone() }
    }
}

/// The view of an optional string.
pub open spec fn opt_text(s: Option<String>) -> Option<Seq<char>> {
    match s {
        Some(t) => Some(t@),
        None => None,
    }
}

/// A copy of an optional string.
pub fn clone_opt_text(s: &Option<String>) -> (r: Option<String>)
    ensures
        opt_text(r) == opt_text(*s),
{
    match s {
        Some(t) => Some(t.clone()),
        None => None,
    }
}

/// A user as a member of one server.
#[derive(Debug, PartialEq, Eq)]
pub struct Member {
    pub user: User,
    pub nick: Option<String>,
    pub roles: Vec<RoleId>,
}

/// What a [`Member`] stands for in contracts.
pub struct MemberView {
    pub user: UserView,
    pub nick: Option<Seq<char>>,
    pub roles: Seq<RoleId>,
}

impl View for Member {
    type V = MemberView;

    open spec fn view(&self) -> MemberView {
        MemberView { user: self.user@, nick: opt_text(self.nick), roles: self.roles@ }
    }
}

impl DeepView for Member {
    type V = MemberView;

    open spec fn deep_view(&self) -> MemberView {
        self@
    }
}

impl Clone for Member {
    fn clone(&self) -> (r: Member)
        ensures
            r@ == self@,
    {
        Member {
            user: self.user.clone(),
            nick: clone_opt_text(&self.nick),
            roles: self.roles.clone(),
        }
    }
}

/// A role of one server.
#[derive(Debug, PartialEq, Eq)]
pub struct Role {
    pub id: RoleId,
    pub name: String,
}

/// What a [`Role`] stands for in contracts.
pub struct RoleView {
    pub id: RoleId,
    pub name: Seq<char>,
}

impl View for Role {
    type V = RoleView;

    open spec fn view(&self) -> RoleView {
        RoleView { id: self.id, name: self.name@ }
    }
}

impl DeepView for Role {
    type V = RoleView;

    open spec fn deep_view(&self) -> RoleView {
        self@
    }
}

impl Clone for Role {
    fn clone(&self) -> (r: Role)
        ensures
            r@ == self@,
    {
        Role { id: self.id, name: self.name.clone() }
    }
}

/// What a server channel carries.
#[derive(Clone, Copy, Debug, PartialEq, Eq, Structural, Hash)]
pub enum ChannelType {
    Text,
    Voice,
}

/// A channel of a server.
#[derive(Debug, PartialEq, Eq)]
pub struct PublicChannel {
    pub id: ChannelId,
    pub name: String,
    pub server_id: ServerId,
    pub kind: ChannelType,
}

/// What a [`PublicChannel`] stands for in contracts.
pub struct PublicChannelView {
    pub id: ChannelId,
    pub name: Seq<char>,
    pub server_id: ServerId,
    pub kind: ChannelType,
}

impl View for PublicChannel {
    type V = PublicChannelView;

    open spec fn view(&self) -> PublicChannelView {
        PublicChannelView {
            id: self.id,
            name: self.name@,
            server_id: self.server_id,
            kind: self.kind,
        }
    }
}

impl DeepView for PublicChannel {
    type V = PublicChannelView;

    open spec fn deep_view(&self) -> PublicChannelView {
        self@
    }
}

impl Clone for PublicChannel {
    fn clone(&self) -> (r: PublicChannel)
        ensures
            r@ == self@,
    {
        PublicChannel {
            id: self.id,
            name: self.name.clone(),
            server_id: self.server_id,
            kind: self.kind,
        }
    }
}

/// A conversation with one other user.
#[derive(Debug, PartialEq, Eq)]
pub struct PrivateChannel {
    pub id: ChannelId,
    pub recipient: User,
}

/// What a [`PrivateChannel`] stands for in contracts.
pub struct PrivateChannelView {
    pub id: ChannelId,
    pub recipient: UserView,
}

impl View for PrivateChannel {
    type V = PrivateChannelView;

    open spec fn view(&self) -> PrivateChannelView {
        PrivateChannelView { id: self.id, recipient: self.recipient@ }
    }
}

impl DeepView for PrivateChannel {
    type V = PrivateChannelView;

    open spec fn deep_view(&self) -> PrivateChannelView {
        self@
    }
}

impl Clone for PrivateChannel {
    fn clone(&self) -> (r: PrivateChannel)
        ensures
            r@ == self@,
    {
        PrivateChannel { id: self.id, recipient: self.recipient.clone() }
    }
}

/// A conversation among several users, outside any server.
#[derive(Debug, PartialEq, Eq)]
pub struct Group {
    pub channel_id: ChannelId,
    pub name: Option<String>,
    pub recipients: Vec<User>,
}

/// What a [`Group`] stands for in contracts.
pub struct GroupView {
    pub channel_id: ChannelId,
    pub name: Option<Seq<char>>,
    pub recipients: Seq<UserView>,
}

impl View for Group {
    type V = GroupView;

    open spec fn view(&self) -> GroupView {
        GroupView {
            channel_id: self.channel_id,
            name: opt_text(self.name),
            recipients: self.recipients.deep_view(),
        }
    }
}

impl DeepView for Group {
    type V = GroupView;

    open spec fn deep_view(&self) -> GroupView {
        self@
    }
}

impl Clone for Group {
    fn clone(&self) -> (r: Group)
        ensures
            r@ == self@,
    {
        Group {
            channel_id: self.channel_id,
            name: clone_opt_text(&self.name),
            recipients: self.recipients.clone(),
        }
    }
}

/// A server with what the mirror knows of it.
#[derive(Debug, PartialEq, Eq)]
pub struct LiveServer {
    pub id: ServerId,
    pub name: String,
    pub channels: Vec<PublicChannel>,
    pub members: Vec<Member>,
    pub roles: Vec<Role>,
}

/// What a [`LiveServer`] stands for in contracts.
pub struct ServerView {
    pub id: ServerId,
    pub name: Seq<char>,
    pub channels: Seq<PublicChannelView>,
    pub members: Seq<MemberView>,
    pub roles: Seq<RoleView>,
}

impl View for LiveServer {
    type V = ServerView;

    open spec fn view(&self) -> ServerView {
        ServerView {
            id: self.id,
            name: self.name@,
            channels: self.channels.deep_view(),
            members: self.members.deep_view(),
            roles: self.roles.deep_view(),
        }
    }
}

impl DeepView for LiveServer {
    type V = ServerView;

    open spec fn deep_view(&self) -> ServerView {
        self@
    }
}

impl Clone for LiveServer {
    fn clone(&self) -> (r: LiveServer)
        ensures
            r@ == self@,
    {
        LiveServer {
            id: self.id,
            name: self.name.clone(),
            channels: self.channels.clone(),
            members: self.members.clone(),
            roles: self.roles.clone(),
        }
    }
}

/// A channel of any kind, as an event carries it.
#[derive(Debug, PartialEq, Eq)]
pub enum Channel {
    Group(Group),
    Private(PrivateChannel),
    Public(PublicChannel),
}

/// What a [`Channel`] stands for in contracts.
pub enum ChannelView {
    Group(GroupView),
    Private(PrivateChannelView),
    Public(PublicChannelView),
}

impl View for Channel {
    type V = ChannelView;

    open spec fn view(&self) -> ChannelView {
        match self {
            Channel::Group(g) => ChannelView::Group(g@),
            Channel::Private(p) => ChannelView::Private(p@),
            Channel::Public(c) => ChannelView::Public(c@),
        }
    }
}

impl Clone for Channel {
    fn clone(&self) -> (r: Channel)
        ensures
            r@ == self@,
    {
        match self {
            Channel::Group(g) => Channel::Group(g.clone()),
            Channel::Private(p) => Channel::Private(p.clone()),
            Channel::Public(c) => Channel::Public(c.clone()),
        }
    }
}

/// A channel found in the mirror, together with its server where it has one.
#[derive(Clone, Copy, Debug)]
pub enum ChannelRef<'a> {
    Private(&'a PrivateChannel),
    Group(&'a Group),
    Public(&'a LiveServer, &'a PublicChannel),
}

/// What a [`ChannelRef`] stands for in contracts.
pub enum ChannelRefView {
    Private(PrivateChannelView),
    Group(GroupView),
    Public(ServerView, PublicChannelView),
}

impl<'a> View for ChannelRef<'a> {
    type V = ChannelRefView;

    open spec fn view(&self) -> ChannelRefView {
        match self {
            ChannelRef::Private(p) => ChannelRefView::Private(p@),
            ChannelRef::Group(g) => ChannelRefView::Group(g@),
            ChannelRef::Public(s, c) => ChannelRefView::Public(s@, c@),
        }
    }
}

/// The value that a table gives for a key: that of the first row with the
/// key, if there is one.
pub open spec fn assoc<K, V>(table: Seq<(K, V)>, key: K) -> Option<V>
    decreases table.len(),
{
    if table.len() == 0 {
        None
    } else if table[0].0 == key {
        Some(table[0].1)
    } else {
        assoc(table.skip(1), key)
    }
}

/// What the client's configuration says, read once and handed in.
///
/// `renames` gives a replacement display name for an identifier, `colors`
/// the colour code that the client assigns to a name, and `on_delete` the
/// channel to which a server's deleted messages are reported. In each table
/// the first row for a key counts.
#[derive(Debug, PartialEq, Eq)]
pub struct Options {
    pub renames: Vec<(u64, String)>,
    pub colors: Vec<(String, String)>,
    pub on_delete: Vec<(u64, u64)>,
}

/// What [`Options`] stand for in contracts.
pub struct OptionsView {
    pub renames: Seq<(u64, Seq<char>)>,
    pub colors: Seq<(Seq<char>, Seq<char>)>,
    pub on_delete: Seq<(u64, u64)>,
}

impl View for Options {
    type V = OptionsView;

    open spec fn view(&self) -> OptionsView {
        OptionsView {
            renames: self.renames.deep_view(),
            colors: self.colors.deep_view(),
            on_delete: self.on_delete@,
        }
    }
}

impl Options {
    /// No renames, no colours, no report channels.
    pub fn new() -> (r: Options)
        ensures
            r@.renames.len() == 0,
            r@.colors.len() == 0,
            r@.on_delete.len() == 0,
    {
        Options { renames: Vec::new(), colors: Vec::new(), on_delete: Vec::new() }
    }

    /// The replacement name configured for an identifier.
    pub fn rename(&self, id: u64) -> (r: Option<String>)
        ensures
            opt_text(r) == assoc(self@.renames, id),
    {
        let mut i: usize = 0;
        assert(self@.renames.skip(0) =~= self@.renames);
        while i < self.renames.len()
            invariant
                i <= self.renames.len(),
                assoc(self@.renames, id) == assoc(self@.renames.skip(i as int), id),
            decreases self.renames.len() - i,
        {
            let ghost rest = self@.renames.skip(i as int);
            assert(rest.skip(1) =~= self@.renames.skip(i + 1));
            if self.renames[i].0 == id {
                return Some(self.renames[i].1.clone());
            }
            i += 1;
        }
        None
    }

    /// The colour code that the client assigns to a name.
    pub fn color(&self, name: &String) -> (r: Option<String>)
        ensures
            opt_text(r) == assoc(self@.colors, name@),
    {
        let mut i: usize = 0;
        assert(self@.colors.skip(0) =~= self@.colors);
        while i < self.colors.len()
            invariant
                i <= self.colors.len(),
                assoc(self@.colors, name@) == assoc(self@.colors.skip(i as int), name@),
            decreases self.colors.len() - i,
        {
            let ghost rest = self@.colors.skip(i as int);
            assert(rest.skip(1) =~= self@.colors.skip(i + 1));
            if self.colors[i].0 == *name {
                return Some(self.colors[i].1.clone());
            }
            i += 1;
        }
        None
    }

    /// The channel to which deleted messages of a server are reported.
    pub fn report_channel(&self, server: ServerId) -> (r: Option<ChannelId>)
        ensures
            r == match assoc(self@.on_delete, server.0) {
                Some(c) => Some(ChannelId(c)),
                None => None,
            },
    {
        let mut i: usize = 0;
        assert(self@.on_delete.skip(0) =~= self@.on_delete);
        while i < self.on_delete.len()
            invariant
                i <= self.on_delete.len(),
                assoc(self@.on_delete, server.0) == assoc(
                    self@.on_delete.skip(i as int),
                    server.0,
                ),
            decreases self.on_delete.len() - i,
        {
            let ghost rest = self@.on_delete.skip(i as int);
            assert(rest.skip(1) =~= self@.on_delete.skip(i + 1));
            if self.on_delete[i].0 == server.0 {
                return Some(ChannelId(self.on_delete[i].1));
            }
            i += 1;
        }
        None
    }
}

/// The character that ends a coloured stretch of text.
pub open spec fn color_end() -> char {
    '\u{1c}'
}

/// Selects which decorations a rendered name carries.
#[derive(Clone, Copy, Debug, PartialEq, Eq, Structural)]
pub struct NameFormat {
    pub include_prefix: bool,
    pub include_color: bool,
}

/// A name with the decorations that a format asks for: the colour code of
/// the name in front and the colour end behind it, where the format asks for
/// colour and the table has one for the name; the sigil in front of the name,
/// where the format asks for it.
pub open spec fn decorate(
    fmt: NameFormat,
    colors: Seq<(Seq<char>, Seq<char>)>,
    prefix: Seq<char>,
    name: Seq<char>,
) -> Seq<char> {
    let at = if fmt.include_prefix {
        prefix
    } else {
        Seq::<char>::empty()
    };
    if fmt.include_color && assoc(colors, name) is Some {
        assoc(colors, name)->0 + at + name + seq![color_end()]
    } else {
        at + name
    }
}

/// The display name of an entity: its configured replacement name if it has
/// one, else its own name, decorated as the format asks.
pub open spec fn display_name(
    prefix: Seq<char>,
    raw: Seq<char>,
    id: u64,
    fmt: NameFormat,
    opts: OptionsView,
) -> Seq<char> {
    let name = match assoc(opts.renames, id) {
        Some(r) => r,
        None => raw,
    };
    decorate(fmt, opts.colors, prefix, name)
}

impl NameFormat {
    /// A bare name: no sigil, no colour.
    pub fn none() -> (r: NameFormat)
        ensures
            r == (NameFormat { include_prefix: false, include_color: false }),
    {
        NameFormat { include_prefix: false, include_color: false }
    }

    /// A coloured name without sigil.
    pub fn color() -> (r: NameFormat)
        ensures
            r == (NameFormat { include_prefix: false, include_color: true }),
    {
        NameFormat { include_prefix: false, include_color: true }
    }

    /// A name with its sigil, uncoloured.
    pub fn prefix() -> (r: NameFormat)
        ensures
            r == (NameFormat { include_prefix: true, include_color: false }),
    {
        NameFormat { include_prefix: true, include_color: false }
    }

    /// A coloured name with its sigil.
    pub fn color_prefix() -> (r: NameFormat)
        ensures
            r == (NameFormat { include_prefix: true, include_color: true }),
    {
        NameFormat { include_prefix: true, include_color: true }
    }

    /// Decorates `name` with `prefix` and colour as this format asks.
    pub fn format(&self, prefix: &str, name: &String, opts: &Options) -> (r: String)
        ensures
            r@ == decorate(*self, opts@.colors, prefix@, name@),
    {
        let mut out: Vec<char> = Vec::new();
        let color = if self.include_color {
            opts.color(name)
        } else {
            None
        };
        match color {
            Some(code) => {
                push_str(&mut out, code.as_str());
                if self.include_prefix {
                    push_str(&mut out, prefix);
                }
                push_str(&mut out, name.as_str());
                out.push('\u{1c}');
            },
            None => {
                if self.include_prefix {
                    push_str(&mut out, prefix);
                }
                push_str(&mut out, name.as_str());
            },
        }
        to_text(&out)
    }
}

/// The four forms of a mention on the wire.
#[derive(Clone, Copy, Debug, PartialEq, Eq, Structural)]
pub enum MentionKind {
    /// A user, by account.
    User,
    /// A user, by the name they carry in the server.
    Nickname,
    /// Everyone who holds a role.
    Role,
    /// A link to a channel.
    Channel,
}

/// A reference to a user, role or channel inside message text.
#[derive(Clone, Copy, Debug, PartialEq, Eq, Structural)]
pub struct Mention {
    pub kind: MentionKind,
    pub id: u64,
}

/// The characters that tell the kinds of mention apart.
pub open spec fn mention_marker(kind: MentionKind) -> Seq<char> {
    match kind {
        MentionKind::User => seq!['@'],
        MentionKind::Nickname => seq!['@', '!'],
        MentionKind::Role => seq!['@', '&'],
        MentionKind::Channel => seq!['#'],
    }
}

/// The wire form of a mention: `<`, the marker of its kind, the identifier in
/// decimal, `>`.
pub open spec fn mention_text(m: Mention) -> Seq<char> {
    seq!['<'] + mention_marker(m.kind) + decimal(m.id as nat) + seq!['>']
}

impl Mention {
    /// The wire form of this mention.
    pub fn text(&self) -> (r: String)
        ensures
            r@ == mention_text(*self),
    {
        let mut out: Vec<char> = Vec::new();
        out.push('<');
        match self.kind {
            MentionKind::User => {
                out.push('@');
            },
            MentionKind::Nickname => {
                out.push('@');
                out.push('!');
            },
            MentionKind::Role => {
                out.push('@');
                out.push('&');
            },
            MentionKind::Channel => {
                out.push('#');
            },
        }
        push_decimal(&mut out, self.id);
        out.push('>');
        to_text(&out)
    }
}

/// Something that message text can refer to.
pub trait Mentionable {
    spec fn mention_spec(&self) -> Mention;

    fn mention_tr(&self) -> (r: Mention)
        ensures
            r == self.mention_spec(),
    ;
}

impl Mentionable for User {
    open spec fn mention_spec(&self) -> Mention {
        Mention { kind: MentionKind::User, id: self.id.0 }
    }

    fn mention_tr(&self) -> (r: Mention) {
        Mention { kind: MentionKind::User, id: self.id.0 }
    }
}

impl Mentionable for Member {
    open spec fn mention_spec(&self) -> Mention {
        Mention { kind: MentionKind::User, id: self.user.id.0 }
    }

    fn mention_tr(&self) -> (r: Mention) {
        self.user.mention_tr()
    }
}

impl Mentionable for Role {
    open spec fn mention_spec(&self) -> Mention {
        Mention { kind: MentionKind::Role, id: self.id.0 }
    }

    fn mention_tr(&self) -> (r: Mention) {
        Mention { kind: MentionKind::Role, id: self.id.0 }
    }
}

impl Mentionable for PublicChannel {
    open spec fn mention_spec(&self) -> Mention {
        Mention { kind: MentionKind::Channel, id: self.id.0 }
    }

    fn mention_tr(&self) -> (r: Mention) {
        Mention { kind: MentionKind::Channel, id: self.id.0 }
    }
}

/// Something with an identifier of its own.
pub trait Id {
    type SelfId: DiscordId;

    spec fn id_spec(&self) -> Self::SelfId;

    fn id(&self) -> (r: Self::SelfId)
        ensures
            r == self.id_spec(),
    ;
}

impl Id for User {
    type SelfId = UserId;

    open spec fn id_spec(&self) -> UserId {
        self.id
    }

    fn id(&self) -> (r: UserId) {
        self.id
    }
}

impl Id for CurrentUser {
    type SelfId = UserId;

    open spec fn id_spec(&self) -> UserId {
        self.id
    }

    fn id(&self) -> (r: UserId) {
        self.id
    }
}

impl Id for Member {
    type SelfId = UserId;

    open spec fn id_spec(&self) -> UserId {
        self.user.id
    }

    fn id(&self) -> (r: UserId) {
        self.user.id
    }
}

impl Id for Role {
    type SelfId = RoleId;

    open spec fn id_spec(&self) -> RoleId {
        self.id
    }

    fn id(&self) -> (r: RoleId) {
        self.id
    }
}

impl Id for LiveServer {
    type SelfId = ServerId;

    open spec fn id_spec(&self) -> ServerId {
        self.id
    }

    fn id(&self) -> (r: ServerId) {
        self.id
    }
}

impl Id for PublicChannel {
    type SelfId = ChannelId;

    open spec fn id_spec(&self) -> ChannelId {
        self.id
    }

    fn id(&self) -> (r: ChannelId) {
        self.id
    }
}

impl Id for PrivateChannel {
    type SelfId = ChannelId;

    open spec fn id_spec(&self) -> ChannelId {
        self.id
    }

    fn id(&self) -> (r: ChannelId) {
        self.id
    }
}

impl Id for Group {
    type SelfId = ChannelId;

    open spec fn id_spec(&self) -> ChannelId {
        self.channel_id
    }

    fn id(&self) -> (r: ChannelId) {
        self.channel_id
    }
}

/// The identifier of a channel of any kind.
pub open spec fn channel_id_of(c: ChannelView) -> ChannelId {
    match c {
        ChannelView::Group(g) => g.channel_id,
        ChannelView::Private(p) => p.id,
        ChannelView::Public(c) => c.id,
    }
}

/// The identifier of the channel that a reference points at.
pub open spec fn channel_ref_id(c: ChannelRefView) -> ChannelId {
    match c {
        ChannelRefView::Private(p) => p.id,
        ChannelRefView::Group(g) => g.channel_id,
        ChannelRefView::Public(_, c) => c.id,
    }
}

impl Id for Channel {
    type SelfId = ChannelId;

    open spec fn id_spec(&self) -> ChannelId {
        channel_id_of(self@)
    }

    fn id(&self) -> (r: ChannelId) {
        match self {
            Channel::Private(ch) => ch.id(),
            Channel::Group(ch) => ch.id(),
            Channel::Public(ch) => ch.id(),
        }
    }
}

impl<'a> Id for ChannelRef<'a> {
    type SelfId = ChannelId;

    open spec fn id_spec(&self) -> ChannelId {
        channel_ref_id(self@)
    }

    fn id(&self) -> (r: ChannelId) {
        match self {
            ChannelRef::Public(_, chan) => chan.id(),
            ChannelRef::Group(group) => group.id(),
            ChannelRef::Private(chan) => chan.id(),
        }
    }
}

/// The name of a member before any rename: the nickname if one is set, else
/// the account name.
pub open spec fn member_raw_name(m: MemberView) -> Seq<char> {
    match m.nick {
        Some(n) => n,
        None => m.user.name,
    }
}

/// The names of the users, separated by a comma and a space.
pub open spec fn join_names(users: Seq<UserView>) -> Seq<char>
    decreases users.len(),
{
    if users.len() == 0 {
        Seq::<char>::empty()
    } else if users.len() == 1 {
        users[0].name
    } else {
        join_names(users.drop_last()) + seq![',', ' '] + users.last().name
    }
}

/// The full name of a group: the name it was given, else the names of its
/// recipients, else a fixed text for a group without recipients.
pub open spec fn group_full_name(g: GroupView) -> Seq<char> {
    match g.name {
        Some(n) => n,
        None => if g.recipients.len() == 0 {
            "Empty Group"@
        } else {
            join_names(g.recipients)
        },
    }
}

/// The number of characters that a group's name is cut to.
pub const MAX_GROUP_LEN: usize = 16;

/// The first `n` items of a sequence, or all of it if it is shorter.
pub open spec fn first_n<T>(s: Seq<T>, n: nat) -> Seq<T> {
    if s.len() <= n {
        s
    } else {
        s.take(n as int)
    }
}

/// The display name of a user.
pub open spec fn user_display(u: UserView, fmt: NameFormat, opts: OptionsView) -> Seq<char> {
    display_name("@"@, u.name, u.id.0, fmt, opts)
}

/// The display name of a member. The replacement name configured for the
/// user's identifier comes first, then the nickname, then the account name.
pub open spec fn member_display(m: MemberView, fmt: NameFormat, opts: OptionsView) -> Seq<
    char,
> {
    display_name("@"@, member_raw_name(m), m.user.id.0, fmt, opts)
}

/// The display name of a role.
pub open spec fn role_display(r: RoleView, fmt: NameFormat, opts: OptionsView) -> Seq<char> {
    display_name("@"@, r.name, r.id.0, fmt, opts)
}

/// The display name of a server channel.
pub open spec fn public_display(c: PublicChannelView, fmt: NameFormat, opts: OptionsView) -> Seq<
    char,
> {
    display_name("#"@, c.name, c.id.0, fmt, opts)
}

/// The display name of a private channel: that of its recipient, unless the
/// channel itself is renamed.
pub open spec fn private_display(
    c: PrivateChannelView,
    fmt: NameFormat,
    opts: OptionsView,
) -> Seq<char> {
    display_name("@"@, c.recipient.name, c.id.0, fmt, opts)
}

/// The display name of a group.
pub open spec fn group_display(g: GroupView, fmt: NameFormat, opts: OptionsView) -> Seq<char> {
    display_name(
        "&"@,
        first_n(group_full_name(g), MAX_GROUP_LEN as nat),
        g.channel_id.0,
        fmt,
        opts,
    )
}

/// The display name of a server.
pub open spec fn server_display(s: ServerView, fmt: NameFormat, opts: OptionsView) -> Seq<char> {
    display_name(""@, s.name, s.id.0, fmt, opts)
}

/// The display name of the channel that a reference points at.
pub open spec fn channel_ref_display(
    c: ChannelRefView,
    fmt: NameFormat,
    opts: OptionsView,
) -> Seq<char> {
    match c {
        ChannelRefView::Private(p) => private_display(p, fmt, opts),
        ChannelRefView::Group(g) => group_display(g, fmt, opts),
        ChannelRefView::Public(_, c) => public_display(c, fmt, opts),
    }
}

/// Something with a display name.
pub trait Name: Id {
    /// The sigil that tells the kind of entity.
    spec fn sigil(&self) -> Seq<char>;

    /// The entity's own name, before any rename.
    spec fn raw_name(&self) -> Seq<char>;

    /// The sigil and the entity's own name.
    fn name_internal(&self) -> (r: (&'static str, String))
        ensures
            r.0@ == self.sigil(),
            r.1@ == self.raw_name(),
    ;

    /// The display name in the given format.
    fn name(&self, fmt: &NameFormat, opts: &Options) -> (r: String)
        ensures
            r@ == display_name(self.sigil(), self.raw_name(), self.id_spec().raw(), *fmt, opts@),
    {
        let (prefix, raw_name) = self.name_internal();
        let rename = opts.rename(self.id().raw_id());
        let name = match rename {
            Some(x) => x,
            None => raw_name,
        };
        fmt.format(prefix, &name, opts)
    }
}

impl Name for User {
    open spec fn sigil(&self) -> Seq<char> {
        "@"@
    }

    open spec fn raw_name(&self) -> Seq<char> {
        self@.name
    }

    fn name_internal(&self) -> (r: (&'static str, String)) {
        ("@", self.name.clone())
    }
}

impl Name for Member {
    open spec fn sigil(&self) -> Seq<char> {
        "@"@
    }

    open spec fn raw_name(&self) -> Seq<char> {
        member_raw_name(self@)
    }

    fn name_internal(&self) -> (r: (&'static str, String)) {
        match &self.nick {
            Some(n) => ("@", n.clone()),
            None => self.user.name_internal(),
        }
    }
}

impl Name for CurrentUser {
    open spec fn sigil(&self) -> Seq<char> {
        "@"@
    }

    open spec fn raw_name(&self) -> Seq<char> {
        self@.username
    }

    fn name_internal(&self) -> (r: (&'static str, String)) {
        ("@", self.username.clone())
    }
}

impl Name for PublicChannel {
    open spec fn sigil(&self) -> Seq<char> {
        "#"@
    }

    open spec fn raw_name(&self) -> Seq<char> {
        self@.name
    }

    fn name_internal(&self) -> (r: (&'static str, String)) {
        ("#", self.name.clone())
    }
}

impl Name for PrivateChannel {
    open spec fn sigil(&self) -> Seq<char> {
        "@"@
    }

    open spec fn raw_name(&self) -> Seq<char> {
        self@.recipient.name
    }

    fn name_internal(&self) -> (r: (&'static str, String)) {
        self.recipient.name_internal()
    }
}

impl Name for LiveServer {
    open spec fn sigil(&self) -> Seq<char> {
        ""@
    }

    open spec fn raw_name(&self) -> Seq<char> {
        self@.name
    }

    fn name_internal(&self) -> (r: (&'static str, String)) {
        ("", self.name.clone())
    }
}

impl Name for Role {
    open spec fn sigil(&self) -> Seq<char> {
        "@"@
    }

    open spec fn raw_name(&self) -> Seq<char> {
        self@.name
    }

    fn name_internal(&self) -> (r: (&'static str, String)) {
        ("@", self.name.clone())
    }
}

impl Group {
    /// The full name of the group, building one from the recipients if the
    /// group was given none.
    pub fn name(&self) -> (r: String)
        ensures
            r@ == group_full_name(self@),
    {
        match &self.name {
            Some(n) => n.clone(),
            None => {
                if self.recipients.len() == 0 {
                    return String::from_str("Empty Group");
                }
                let mut out: Vec<char> = Vec::new();
                push_str(&mut out, self.recipients[0].name.as_str());
                let mut i: usize = 1;
                while i < self.recipients.len()
                    invariant
                        1 <= i <= self.recipients.len(),
                        out@ == join_names(self@.recipients.take(i as int)),
                    decreases self.recipients.len() - i,
                {
                    let ghost before = self@.recipients.take(i as int);
                    let ghost now = self@.recipients.take(i + 1);
                    out.push(',');
                    out.push(' ');
                    push_str(&mut out, self.recipients[i].name.as_str());
                    proof {
                        assert(now.drop_last() =~= before);
                    }
                    i += 1;
                }
                assert(self@.recipients.take(i as int) =~= self@.recipients);
                to_text(&out)
            },
        }
    }
}

impl Name for Group {
    open spec fn sigil(&self) -> Seq<char> {
        "&"@
    }

    open spec fn raw_name(&self) -> Seq<char> {
        first_n(group_full_name(self@), MAX_GROUP_LEN as nat)
    }

    fn name_internal(&self) -> (r: (&'static str, String)) {
        let full = self.name();
        let mut chars = crate::text::to_chars(full.as_str());
        if chars.len() > MAX_GROUP_LEN {
            chars.truncate(MAX_GROUP_LEN);
        }
        ("&", to_text(&chars))
    }
}

impl Name for Channel {
    open spec fn sigil(&self) -> Seq<char> {
        match self {
            Channel::Private(ch) => ch.sigil(),
            Channel::Group(ch) => ch.sigil(),
            Channel::Public(ch) => ch.sigil(),
        }
    }

    open spec fn raw_name(&self) -> Seq<char> {
        match self {
            Channel::Private(ch) => ch.raw_name(),
            Channel::Group(ch) => ch.raw_name(),
            Channel::Public(ch) => ch.raw_name(),
        }
    }

    fn name_internal(&self) -> (r: (&'static str, String)) {
        match self {
            Channel::Private(ch) => ch.name_internal(),
            Channel::Group(ch) => ch.name_internal(),
            Channel::Public(ch) => ch.name_internal(),
        }
    }
}

impl<'a> Name for ChannelRef<'a> {
    open spec fn sigil(&self) -> Seq<char> {
        match self {
            ChannelRef::Public(_, chan) => chan.sigil(),
            ChannelRef::Group(chan) => chan.sigil(),
            ChannelRef::Private(chan) => chan.sigil(),
        }
    }

    open spec fn raw_name(&self) -> Seq<char> {
        match self {
            ChannelRef::Public(_, chan) => chan.raw_name(),
            ChannelRef::Group(chan) => chan.raw_name(),
            ChannelRef::Private(chan) => chan.raw_name(),
        }
    }

    fn name_internal(&self) -> (r: (&'static str, String)) {
        match self {
            ChannelRef::Public(_, chan) => chan.name_internal(),
            ChannelRef::Group(chan) => chan.name_internal(),
            ChannelRef::Private(chan) => chan.name_internal(),
        }
    }
}

impl Keyed for User {
    open spec fn key_of(v: UserView) -> u64 {
        v.id.0
    }

    fn key(&self) -> (k: u64) {
        self.id.0
    }
}

impl Keyed for Member {
    open spec fn key_of(v: MemberView) -> u64 {
        v.user.id.0
    }

    fn key(&self) -> (k: u64) {
        self.user.id.0
    }
}

impl Keyed for Role {
    open spec fn key_of(v: RoleView) -> u64 {
        v.id.0
    }

    fn key(&self) -> (k: u64) {
        self.id.0
    }
}

impl Keyed for PublicChannel {
    open spec fn key_of(v: PublicChannelView) -> u64 {
        v.id.0
    }

    fn key(&self) -> (k: u64) {
        self.id.0
    }
}

impl Keyed for PrivateChannel {
    open spec fn key_of(v: PrivateChannelView) -> u64 {
        v.id.0
    }

    fn key(&self) -> (k: u64) {
        self.id.0
    }
}

impl Keyed for Group {
    open spec fn key_of(v: GroupView) -> u64 {
        v.channel_id.0
    }

    fn key(&self) -> (k: u64) {
        self.channel_id.0
    }
}

impl Keyed for LiveServer {
    open spec fn key_of(v: ServerView) -> u64 {
        v.id.0
    }

    fn key(&self) -> (k: u64) {
        self.id.0
    }
}

} // verus!

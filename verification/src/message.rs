//! Messages: who is mentioned, how mentions are written and read, and how a
//! message becomes a printed line.

use crate::connection::ChannelData;
use crate::event::Attachment;
use crate::host::{last_n, Buffer, HISTORY_WINDOW, Host, HostView, Line, LineView};
use crate::keyed::{find_key, has_key, index_of, lookup};
use crate::state::{State, StateView};
use crate::text::{lemma_replace_around, lemma_replace_occurrence, overlaps, 
    contains_chars, decimal, digit_run, is_digit, join, join_text, lemma_decimal_is_digits,
    lemma_decimal_value, lemma_digit_run, lemma_replace_absent, push_decimal, push_str, replace_all,
    replace_chars, scan_digits, to_chars, to_text, token_id,
};
use crate::types::{
    channel_ref_display, decorate, member_display, mention_marker, mention_text, opt_text,
    public_display, role_display, user_display, ChannelRef, ChannelRefView, GroupView, Member,
    MemberView, Mention, MentionKind, Mentionable, MessageId, Name, NameFormat, Options,
    OptionsView, PrivateChannelView, PublicChannel, PublicChannelView, Role, RoleId, RoleView,
    ServerView, User, UserId, UserView,
};
use vstd::prelude::*;
use vstd::string::*;

verus! {

/// Whether the two lists have a role in common.
pub open spec fn overlap(a: Seq<RoleId>, b: Seq<RoleId>) -> bool {
    exists|i: int, j: int| 0 <= i < a.len() && 0 <= j < b.len() && #[trigger] a[i] == #[trigger] b[j]
}

/// Whether a message calls for the attention of the user `me`.
///
/// A message that `me` wrote never does. Otherwise it does if it mentions
/// everyone, or mentions `me` by name, or, in a server channel, mentions a
/// role that `me` holds in that server.
pub open spec fn self_mentioned(
    me: UserId,
    channel: ChannelRefView,
    mention_everyone: bool,
    author: Option<UserId>,
    mentions: Option<Seq<UserView>>,
    roles: Option<Seq<RoleId>>,
) -> bool {
    &&& author != Some(me)
    &&& {
        ||| mention_everyone
        ||| mentions is Some && has_key::<User>(mentions->0, me.0)
        ||| match (channel, roles) {
            (ChannelRefView::Public(server, _), Some(r)) => has_key::<Member>(
                server.members,
                me.0,
            ) && overlap(server.members[index_of::<Member>(server.members, me.0)].roles, r),
            _ => false,
        }
    }
}

/// The view of an optional list of users.
pub open spec fn opt_users(v: Option<&Vec<User>>) -> Option<Seq<UserView>> {
    match v {
        Some(u) => Some(u.deep_view()),
        None => None,
    }
}

/// The view of an optional list of roles.
pub open spec fn opt_roles(v: Option<&Vec<RoleId>>) -> Option<Seq<RoleId>> {
    match v {
        Some(r) => Some(r@),
        None => None,
    }
}

/// The identifier of an optional user.
pub open spec fn opt_user_id(v: Option<&User>) -> Option<UserId> {
    match v {
        Some(u) => Some(u.id),
        None => None,
    }
}

/// Whether the two lists have a role in common.
pub fn roles_overlap(a: &Vec<RoleId>, b: &Vec<RoleId>) -> (r: bool)
    ensures
        r == overlap(a@, b@),
{
    let mut i: usize = 0;
    while i < a.len()
        invariant
            i <= a.len(),
            forall|x: int, y: int|
                0 <= x < i && 0 <= y < b.len() ==> #[trigger] a@[x] != #[trigger] b@[y],
        decreases a.len() - i,
    {
        let mut j: usize = 0;
        while j < b.len()
            invariant
                i < a.len(),
                j <= b.len(),
                forall|y: int| 0 <= y < j ==> a@[i as int] != #[trigger] b@[y],
            decreases b.len() - j,
        {
            if a[i].0 == b[j].0 {
                return true;
            }
            j += 1;
        }
        i += 1;
    }
    false
}

/// Whether a message in the channel calls for the user's attention.
pub fn is_self_mentioned(
    channel: &ChannelData,
    mention_everyone: bool,
    author: Option<&User>,
    mentions: Option<&Vec<User>>,
    roles: Option<&Vec<RoleId>>,
) -> (r: bool)
    ensures
        r == self_mentioned(
            channel.state@.user.id,
            channel.channel@,
            mention_everyone,
            opt_user_id(author),
            opt_users(mentions),
            opt_roles(roles),
        ),
{
    let me = channel.state.user();
    if let Some(a) = author {
        if a.id.0 == me.id.0 {
            return false;
        }
    }
    if mention_everyone {
        return true;
    }
    if let Some(mentions) = mentions {
        if let Some(_) = find_key(mentions, me.id.0) {
            return true;
        }
    }
    let server = match channel.channel {
        ChannelRef::Public(server, _) => server,
        _ => {
            return false;
        },
    };
    let roles = match roles {
        Some(roles) => roles,
        None => {
            return false;
        },
    };
    match find_key(&server.members, me.id.0) {
        Some(m) => roles_overlap(&server.members[m].roles, roles),
        None => false,
    }
}

/// The length of a name as the wire counts it: the number of bytes of its
/// UTF-8 form.
pub open spec fn byte_len(name: Seq<char>) -> usize {
    vstd::utf8::encode_utf8(name).len() as usize
}

/// The wire form of a mention of the given kind.
pub open spec fn token(kind: MentionKind, id: u64) -> Seq<char> {
    mention_text(Mention { kind, id })
}

/// One row for each user: the user's display name and the mention of the
/// user.
pub open spec fn user_rows(users: Seq<UserView>, fmt: NameFormat, opts: OptionsView) -> Seq<
    (Seq<char>, Seq<char>),
>
    decreases users.len(),
{
    if users.len() == 0 {
        Seq::empty()
    } else {
        user_rows(users.drop_last(), fmt, opts).push(
            (user_display(users.last(), fmt, opts), token(MentionKind::User, users.last().id.0)),
        )
    }
}

/// Two rows for each member: first the account's display name with the plain
/// mention, then the member's display name with the nickname mention.
pub open spec fn member_rows(members: Seq<MemberView>, fmt: NameFormat, opts: OptionsView) -> Seq<
    (Seq<char>, Seq<char>),
>
    decreases members.len(),
{
    if members.len() == 0 {
        Seq::empty()
    } else {
        let m = members.last();
        member_rows(members.drop_last(), fmt, opts).push(
            (user_display(m.user, fmt, opts), token(MentionKind::User, m.user.id.0)),
        ).push((member_display(m, fmt, opts), token(MentionKind::Nickname, m.user.id.0)))
    }
}

/// One row for each role.
pub open spec fn role_rows(roles: Seq<RoleView>, fmt: NameFormat, opts: OptionsView) -> Seq<
    (Seq<char>, Seq<char>),
>
    decreases roles.len(),
{
    if roles.len() == 0 {
        Seq::empty()
    } else {
        role_rows(roles.drop_last(), fmt, opts).push(
            (role_display(roles.last(), fmt, opts), token(MentionKind::Role, roles.last().id.0)),
        )
    }
}

/// One row for each server channel.
pub open spec fn channel_rows(
    channels: Seq<PublicChannelView>,
    fmt: NameFormat,
    opts: OptionsView,
) -> Seq<(Seq<char>, Seq<char>)>
    decreases channels.len(),
{
    if channels.len() == 0 {
        Seq::empty()
    } else {
        channel_rows(channels.drop_last(), fmt, opts).push(
            (
                public_display(channels.last(), fmt, opts),
                token(MentionKind::Channel, channels.last().id.0),
            ),
        )
    }
}

/// Everything that can be named in a channel, before sorting: in a private
/// channel the recipient, in a group the recipients, in a server channel the
/// members, the roles and the channels of the server.
pub open spec fn candidate_rows(chan: ChannelRefView, fmt: NameFormat, opts: OptionsView) -> Seq<
    (Seq<char>, Seq<char>),
> {
    match chan {
        ChannelRefView::Private(p) => seq![
            (user_display(p.recipient, fmt, opts), token(MentionKind::User, p.recipient.id.0)),
        ],
        ChannelRefView::Group(g) => user_rows(g.recipients, fmt, opts),
        ChannelRefView::Public(server, _) => member_rows(server.members, fmt, opts)
            + role_rows(server.roles, fmt, opts) + channel_rows(server.channels, fmt, opts),
    }
}

/// A list sorted by falling length of the name, with one more row put behind
/// the last row that is not shorter.
pub open spec fn insert_row(sorted: Seq<(Seq<char>, Seq<char>)>, row: (Seq<char>, Seq<char>)) -> Seq<
    (Seq<char>, Seq<char>),
>
    decreases sorted.len(),
{
    if sorted.len() == 0 {
        seq![row]
    } else if byte_len(sorted.last().0) >= byte_len(row.0) {
        sorted.push(row)
    } else {
        insert_row(sorted.drop_last(), row).push(sorted.last())
    }
}

/// The rows in the order of falling length of the name; rows of equal length
/// keep the order they had.
pub open spec fn sort_rows(rows: Seq<(Seq<char>, Seq<char>)>) -> Seq<(Seq<char>, Seq<char>)>
    decreases rows.len(),
{
    if rows.len() == 0 {
        rows
    } else {
        insert_row(sort_rows(rows.drop_last()), rows.last())
    }
}

/// Whether the names of the rows never get longer from one row to the next.
pub open spec fn falling(rows: Seq<(Seq<char>, Seq<char>)>) -> bool {
    forall|i: int, j: int|
        0 <= i <= j < rows.len() ==> byte_len(#[trigger] rows[i].0) >= byte_len(
            #[trigger] rows[j].0,
        )
}

/// Where a row goes in a sorted list: behind the rows in front of `pos`, if
/// every row from `pos` on is shorter and the row before `pos` is not.
pub proof fn lemma_insert_at(
    sorted: Seq<(Seq<char>, Seq<char>)>,
    row: (Seq<char>, Seq<char>),
    pos: int,
)
    requires
        0 <= pos <= sorted.len(),
        forall|k: int| pos <= k < sorted.len() ==> byte_len(#[trigger] sorted[k].0) < byte_len(row.0),
        pos > 0 ==> byte_len(sorted[pos - 1].0) >= byte_len(row.0),
    ensures
        insert_row(sorted, row) == sorted.insert(pos, row),
    decreases sorted.len(),
{
    if sorted.len() == 0 {
    } else if pos == sorted.len() {
    } else {
        let init = sorted.drop_last();
        assert forall|k: int| pos <= k < init.len() implies byte_len(#[trigger] init[k].0)
            < byte_len(row.0) by {
        }
        if pos > 0 {
        }
        lemma_insert_at(init, row, pos);
    }
}

/// Inserting a row keeps a falling list falling, and keeps the rows it had
/// together with the new one.
pub proof fn lemma_insert_row(sorted: Seq<(Seq<char>, Seq<char>)>, row: (Seq<char>, Seq<char>))
    requires
        falling(sorted),
    ensures
        falling(insert_row(sorted, row)),
        insert_row(sorted, row).to_multiset() == sorted.to_multiset().insert(row),
        insert_row(sorted, row).len() == sorted.len() + 1,
    decreases sorted.len(),
{
    broadcast use vstd::seq_lib::group_to_multiset_ensures;

    if sorted.len() == 0 {
    } else if byte_len(sorted.last().0) >= byte_len(row.0) {
        let r = sorted.push(row);
        assert forall|i: int, j: int| 0 <= i <= j < r.len() implies byte_len(#[trigger] r[i].0)
            >= byte_len(#[trigger] r[j].0) by {
            if j < sorted.len() {
            } else if i < sorted.len() {
            }
        }
    } else {
        let init = sorted.drop_last();
        assert forall|i: int, j: int| 0 <= i <= j < init.len() implies byte_len(
            #[trigger] init[i].0,
        ) >= byte_len(#[trigger] init[j].0) by {
        }
        lemma_insert_row(init, row);
        let mid = insert_row(init, row);
        let r = mid.push(sorted.last());
        assert(sorted =~= init.push(sorted.last()));
        assert forall|i: int, j: int| 0 <= i <= j < r.len() implies byte_len(#[trigger] r[i].0)
            >= byte_len(#[trigger] r[j].0) by {
            if j < mid.len() {
            } else if i < mid.len() {
                assert(mid.to_multiset().contains(mid[i]));
                if mid[i] == row {
                } else {
                    let k = choose|k: int| 0 <= k < init.len() && init[k] == mid[i];
                }
            }
        }
    }
}

/// Sorting gives a falling list with the same rows.
pub proof fn lemma_sort_rows(rows: Seq<(Seq<char>, Seq<char>)>)
    ensures
        falling(sort_rows(rows)),
        sort_rows(rows).to_multiset() == rows.to_multiset(),
        sort_rows(rows).len() == rows.len(),
    decreases rows.len(),
{
    broadcast use vstd::seq_lib::group_to_multiset_ensures;

    if rows.len() > 0 {
        lemma_sort_rows(rows.drop_last());
        lemma_insert_row(sort_rows(rows.drop_last()), rows.last());
        assert(rows =~= rows.drop_last().push(rows.last()));
    }
}

/// Puts a row into a list behind the last row whose name is not shorter.
pub fn insert_sorted(sorted: &mut Vec<(String, String)>, row: (String, String))
    ensures
        final(sorted).deep_view() == insert_row(old(sorted).deep_view(), row.deep_view()),
{
    let len = row.0.as_str().len();
    let mut pos: usize = sorted.len();
    while pos > 0 && sorted[pos - 1].0.as_str().len() < len
        invariant
            pos <= sorted.len(),
            len == byte_len(row.0@),
            forall|k: int|
                pos <= k < sorted.len() ==> byte_len(#[trigger] sorted.deep_view()[k].0)
                    < byte_len(row.0@),
        decreases pos,
    {
        pos -= 1;
    }
    proof {
        lemma_insert_at(sorted.deep_view(), row.deep_view(), pos as int);
    }
    sorted.insert(pos, row);
}

/// The names that can be written in a channel, each with the mention that
/// stands for it on the wire, longest name first.
pub fn all_names(chan_ref: &ChannelRef, format: &NameFormat, opts: &Options) -> (r: Vec<
    (String, String),
>)
    ensures
        r.deep_view() == sort_rows(candidate_rows(chan_ref@, *format, opts@)),
        falling(r.deep_view()),
        r.deep_view().to_multiset() == candidate_rows(chan_ref@, *format, opts@).to_multiset(),
{
    proof {
        lemma_sort_rows(candidate_rows(chan_ref@, *format, opts@));
    }
    let mut names: Vec<(String, String)> = Vec::new();
    let ghost empty = Seq::<(Seq<char>, Seq<char>)>::empty();
    assert(names.deep_view() =~= sort_rows(empty));
    match chan_ref {
        ChannelRef::Private(private) => {
            let row = (private.recipient.name(format, opts), private.recipient.mention_tr().text());
            assert(empty.push(row.deep_view()).drop_last() =~= empty);
            insert_sorted(&mut names, row);
        },
        ChannelRef::Group(group) => {
            let mut i: usize = 0;
            while i < group.recipients.len()
                invariant
                    i <= group.recipients.len(),
                    names.deep_view() == sort_rows(
                        user_rows(group@.recipients.take(i as int), *format, opts@),
                    ),
                decreases group.recipients.len() - i,
            {
                let recipient = &group.recipients[i];
                let row = (recipient.name(format, opts), recipient.mention_tr().text());
                proof {
                    let now = group@.recipients.take(i + 1);
                    assert(now.drop_last() =~= group@.recipients.take(i as int));
                    let rows = user_rows(now, *format, opts@);
                    assert(rows.drop_last() =~= user_rows(now.drop_last(), *format, opts@));
                }
                insert_sorted(&mut names, row);
                i += 1;
            }
            assert(group@.recipients.take(i as int) =~= group@.recipients);
        },
        ChannelRef::Public(server, _) => {
            let mut i: usize = 0;
            while i < server.members.len()
                invariant
                    i <= server.members.len(),
                    names.deep_view() == sort_rows(
                        member_rows(server@.members.take(i as int), *format, opts@),
                    ),
                decreases server.members.len() - i,
            {
                let member = &server.members[i];
                let first = (member.user.name(format, opts), member.user.mention_tr().text());
                let nick = Mention { kind: MentionKind::Nickname, id: member.user.id.0 };
                let second = (member.name(format, opts), nick.text());
                proof {
                    let now = server@.members.take(i + 1);
                    assert(now.drop_last() =~= server@.members.take(i as int));
                    let before = member_rows(now.drop_last(), *format, opts@);
                    let rows = member_rows(now, *format, opts@);
                    let r1 = (
                        user_display(member@.user, *format, opts@),
                        token(MentionKind::User, member@.user.id.0),
                    );
                    assert(rows.drop_last() =~= before.push(r1));
                    assert(before.push(r1).drop_last() =~= before);
                    assert(sort_rows(before.push(r1)) == insert_row(sort_rows(before), r1));
                }
                insert_sorted(&mut names, first);
                insert_sorted(&mut names, second);
                i += 1;
            }
            assert(server@.members.take(i as int) =~= server@.members);
            let ghost members = member_rows(server@.members, *format, opts@);
            let mut j: usize = 0;
            while j < server.roles.len()
                invariant
                    j <= server.roles.len(),
                    members == member_rows(server@.members, *format, opts@),
                    names.deep_view() == sort_rows(
                        members + role_rows(server@.roles.take(j as int), *format, opts@),
                    ),
                decreases server.roles.len() - j,
            {
                let role = &server.roles[j];
                let row = (role.name(format, opts), role.mention_tr().text());
                proof {
                    let now = server@.roles.take(j + 1);
                    assert(now.drop_last() =~= server@.roles.take(j as int));
                    let before = role_rows(now.drop_last(), *format, opts@);
                    assert((members + role_rows(now, *format, opts@)).drop_last() =~= members
                        + before);
                }
                insert_sorted(&mut names, row);
                j += 1;
            }
            assert(server@.roles.take(j as int) =~= server@.roles);
            let ghost both = members + role_rows(server@.roles, *format, opts@);
            let mut k: usize = 0;
            while k < server.channels.len()
                invariant
                    k <= server.channels.len(),
                    both == member_rows(server@.members, *format, opts@) + role_rows(
                        server@.roles,
                        *format,
                        opts@,
                    ),
                    names.deep_view() == sort_rows(
                        both + channel_rows(server@.channels.take(k as int), *format, opts@),
                    ),
                decreases server.channels.len() - k,
            {
                let chan = &server.channels[k];
                let row = (chan.name(format, opts), chan.mention_tr().text());
                proof {
                    let now = server@.channels.take(k + 1);
                    assert(now.drop_last() =~= server@.channels.take(k as int));
                    let before = channel_rows(now.drop_last(), *format, opts@);
                    assert((both + channel_rows(now, *format, opts@)).drop_last() =~= both
                        + before);
                }
                insert_sorted(&mut names, row);
                k += 1;
            }
            assert(server@.channels.take(k as int) =~= server@.channels);
        },
    }
    names
}

/// The text after each row's name, in the order of the rows, is replaced
/// throughout by the row's mention.
pub open spec fn replace_each(text: Seq<char>, rows: Seq<(Seq<char>, Seq<char>)>) -> Seq<char>
    decreases rows.len(),
{
    if rows.len() == 0 {
        text
    } else {
        replace_all(replace_each(text, rows.drop_last()), rows.last().0, rows.last().1)
    }
}

/// What is sent for a typed text: every name that the channel knows, with
/// its sigil in front, gives way to its mention, longer names first.
pub open spec fn outgoing(chan: ChannelRefView, content: Seq<char>, opts: OptionsView) -> Seq<
    char,
> {
    replace_each(
        content,
        sort_rows(
            candidate_rows(
                chan,
                NameFormat { include_prefix: true, include_color: false },
                opts,
            ),
        ),
    )
}

/// Rewrites the names in a typed text to mentions.
pub fn replace_mentions_send(channel: &ChannelRef, content: String, opts: &Options) -> (r: String)
    ensures
        r@ == outgoing(channel@, content@, opts@),
{
    let names = all_names(channel, &NameFormat::prefix(), opts);
    let mut text = to_chars(content.as_str());
    let mut i: usize = 0;
    while i < names.len()
        invariant
            i <= names.len(),
            text@ == replace_each(content@, names.deep_view().take(i as int)),
        decreases names.len() - i,
    {
        proof {
            let now = names.deep_view().take(i + 1);
            assert(now.drop_last() =~= names.deep_view().take(i as int));
        }
        let name = to_chars(names[i].0.as_str());
        if contains_chars(&text, &name) {
            let mention = to_chars(names[i].1.as_str());
            text = replace_chars(&text, &name, &mention);
        } else {
            proof {
                lemma_replace_absent(text@, name@, names@[i as int].1@);
            }
        }
        i += 1;
    }
    assert(names.deep_view().take(i as int) =~= names.deep_view());
    to_text(&text)
}

/// What is sent for a typed text.
pub fn format_message_send(channel_ref: &ChannelRef, message: String, opts: &Options) -> (r: String)
    ensures
        r@ == outgoing(channel_ref@, message@, opts@),
{
    replace_mentions_send(channel_ref, message, opts)
}

/// The kind of mention that the characters at `at` open, with the number of
/// characters in front of the digits.
pub open spec fn marker_at(text: Seq<char>, at: int) -> Option<(MentionKind, int)> {
    if 0 <= at && at + 1 < text.len() && text[at] == '<' {
        if text[at + 1] == '#' {
            Some((MentionKind::Channel, 2))
        } else if text[at + 1] == '@' {
            if at + 2 < text.len() && text[at + 2] == '!' {
                Some((MentionKind::Nickname, 3))
            } else if at + 2 < text.len() && text[at + 2] == '&' {
                Some((MentionKind::Role, 3))
            } else {
                Some((MentionKind::User, 2))
            }
        } else {
            None
        }
    } else {
        None
    }
}

/// A mention found in a text: its kind, its digits, and the number of
/// characters it takes up.
pub struct Token {
    pub kind: MentionKind,
    pub digits: Seq<char>,
    pub len: int,
}

/// The mention that begins at position `at`: `<`, a marker, one digit or
/// more, `>`.
pub open spec fn token_at(text: Seq<char>, at: int) -> Option<Token> {
    match marker_at(text, at) {
        Some((kind, m)) => {
            let n = digit_run(text, at + m);
            let end = at + m + n;
            if n > 0 && end < text.len() && text[end] == '>' {
                Some(Token { kind, digits: text.subrange(at + m, end), len: m + n + 1 })
            } else {
                None
            }
        },
        None => None,
    }
}

/// The sigil in front of the name that stands for a mention.
pub open spec fn kind_sigil(kind: MentionKind) -> Seq<char> {
    match kind {
        MentionKind::Channel => "#"@,
        _ => "@"@,
    }
}

/// The format in which mentioned names appear in a printed message.
pub open spec fn shown() -> NameFormat {
    NameFormat { include_prefix: true, include_color: true }
}

/// What stands for a mention that refers to nothing the channel knows.
pub open spec fn unknown_name(kind: MentionKind, opts: OptionsView) -> Seq<char> {
    decorate(shown(), opts.colors, kind_sigil(kind), "unknown"@)
}

/// The user that a mention refers to in a channel: in a server channel a
/// member of the server, in a private channel the recipient, in a group one
/// of the recipients.
pub open spec fn mentioned_user(chan: ChannelRefView, id: u64) -> Option<UserView> {
    match chan {
        ChannelRefView::Public(server, _) => match lookup::<Member>(server.members, id) {
            Some(m) => Some(m.user),
            None => None,
        },
        ChannelRefView::Private(p) => if p.recipient.id.0 == id {
            Some(p.recipient)
        } else {
            None
        },
        ChannelRefView::Group(g) => lookup::<User>(g.recipients, id),
    }
}

/// The name that a mention is shown as, if it refers to something the
/// channel knows. A plain user mention shows the account's name, a nickname
/// mention the name that the member carries in the server. Roles and
/// channels are known in server channels only.
pub open spec fn mention_name(chan: ChannelRefView, kind: MentionKind, id: u64, opts: OptionsView) -> Option<
    Seq<char>,
> {
    match kind {
        MentionKind::User => match mentioned_user(chan, id) {
            Some(u) => Some(user_display(u, shown(), opts)),
            None => None,
        },
        MentionKind::Nickname => match chan {
            ChannelRefView::Public(server, _) => match lookup::<Member>(server.members, id) {
                Some(m) => Some(member_display(m, shown(), opts)),
                None => None,
            },
            _ => match mentioned_user(chan, id) {
                Some(u) => Some(user_display(u, shown(), opts)),
                None => None,
            },
        },
        MentionKind::Role => match chan {
            ChannelRefView::Public(server, _) => match lookup::<Role>(server.roles, id) {
                Some(r) => Some(role_display(r, shown(), opts)),
                None => None,
            },
            _ => None,
        },
        MentionKind::Channel => match chan {
            ChannelRefView::Public(server, _) => match lookup::<PublicChannel>(
                server.channels,
                id,
            ) {
                Some(c) => Some(public_display(c, shown(), opts)),
                None => None,
            },
            _ => None,
        },
    }
}

/// What is shown in place of a mention.
pub open spec fn token_name(chan: ChannelRefView, kind: MentionKind, id: Option<u64>, opts: OptionsView) -> Seq<
    char,
> {
    match id {
        Some(v) => match mention_name(chan, kind, v, opts) {
            Some(n) => n,
            None => unknown_name(kind, opts),
        },
        None => unknown_name(kind, opts),
    }
}

/// The text from position `at` on, with every mention replaced by the name
/// it is shown as. Text that is no mention stays as it is.
pub open spec fn incoming_from(text: Seq<char>, at: int, chan: ChannelRefView, opts: OptionsView) -> Seq<
    char,
>
    decreases text.len() - at,
{
    if at < 0 || at >= text.len() {
        Seq::empty()
    } else {
        match token_at(text, at) {
            Some(t) => token_name(chan, t.kind, token_id(t.digits), opts) + incoming_from(
                text,
                at + t.len,
                chan,
                opts,
            ),
            None => seq![text[at]] + incoming_from(text, at + 1, chan, opts),
        }
    }
}

/// A received text as it is shown: every mention replaced by a name.
pub open spec fn incoming(chan: ChannelRefView, content: Seq<char>, opts: OptionsView) -> Seq<
    char,
> {
    incoming_from(content, 0, chan, opts)
}

/// Reads the opening of a mention at position `at`: its kind, and the number
/// of characters in front of the digits.
pub fn scan_marker(text: &Vec<char>, at: usize) -> (r: Option<(MentionKind, usize)>)
    ensures
        match marker_at(text@, at as int) {
            Some((kind, m)) => r == Some((kind, m as usize)) && 2 <= m <= 3 && at + m
                <= text.len(),
            None => r is None,
        },
{
    let n = text.len();
    if at >= n || text[at] != '<' || n - at < 2 {
        return None;
    }
    if text[at + 1] == '#' {
        Some((MentionKind::Channel, 2))
    } else if text[at + 1] == '@' {
        if n - at > 2 && text[at + 2] == '!' {
            Some((MentionKind::Nickname, 3))
        } else if n - at > 2 && text[at + 2] == '&' {
            Some((MentionKind::Role, 3))
        } else {
            Some((MentionKind::User, 2))
        }
    } else {
        None
    }
}

/// Reads the mention that begins at position `at`, if one does: its kind,
/// its identifier if the digits fit one, and its length.
pub fn scan_token(text: &Vec<char>, at: usize) -> (r: Option<(MentionKind, Option<u64>, usize)>)
    ensures
        match token_at(text@, at as int) {
            Some(t) => r == Some((t.kind, token_id(t.digits), t.len as usize)) && at + t.len
                <= text.len() && t.len >= 3,
            None => r is None,
        },
{
    let n = text.len();
    let (kind, start) = match scan_marker(text, at) {
        Some((kind, m)) => (kind, at + m),
        None => {
            return None;
        },
    };
    let (j, id) = scan_digits(text, start);
    if j == start || j >= n {
        return None;
    }
    if text[j] != '>' {
        return None;
    }
    Some((kind, id, j + 1 - at))
}

/// The name that stands for a mention of something unknown.
pub fn unknown(kind: MentionKind, opts: &Options) -> (r: String)
    ensures
        r@ == unknown_name(kind, opts@),
{
    let name = String::from_str("unknown");
    match kind {
        MentionKind::Channel => NameFormat::color_prefix().format("#", &name, opts),
        _ => NameFormat::color_prefix().format("@", &name, opts),
    }
}

/// The name of the user that a mention refers to in a channel.
fn mentioned_user_name(channel: &ChannelRef, id: u64, opts: &Options) -> (r: Option<String>)
    ensures
        opt_text(r) == match mentioned_user(channel@, id) {
            Some(u) => Some(user_display(u, shown(), opts@)),
            None => None,
        },
{
    let fmt = NameFormat::color_prefix();
    match channel {
        ChannelRef::Public(server, _) => match find_key(&server.members, id) {
            Some(m) => Some(server.members[m].user.name(&fmt, opts)),
            None => None,
        },
        ChannelRef::Private(p) => if p.recipient.id.0 == id {
            Some(p.recipient.name(&fmt, opts))
        } else {
            None
        },
        ChannelRef::Group(g) => match find_key(&g.recipients, id) {
            Some(u) => Some(g.recipients[u].name(&fmt, opts)),
            None => None,
        },
    }
}

/// The name that a mention is shown as, if it refers to something the
/// channel knows.
pub fn resolve_mention(channel: &ChannelRef, kind: MentionKind, id: u64, opts: &Options) -> (r:
    Option<String>)
    ensures
        opt_text(r) == mention_name(channel@, kind, id, opts@),
{
    let fmt = NameFormat::color_prefix();
    match kind {
        MentionKind::User => mentioned_user_name(channel, id, opts),
        MentionKind::Nickname => match channel {
            ChannelRef::Public(server, _) => match find_key(&server.members, id) {
                Some(m) => Some(server.members[m].name(&fmt, opts)),
                None => None,
            },
            _ => mentioned_user_name(channel, id, opts),
        },
        MentionKind::Role => match channel {
            ChannelRef::Public(server, _) => match find_key(&server.roles, id) {
                Some(x) => Some(server.roles[x].name(&fmt, opts)),
                None => None,
            },
            _ => None,
        },
        MentionKind::Channel => match channel {
            ChannelRef::Public(server, _) => match find_key(&server.channels, id) {
                Some(x) => Some(server.channels[x].name(&fmt, opts)),
                None => None,
            },
            _ => None,
        },
    }
}

/// Rewrites the mentions in a received text to names, in one pass.
pub fn replace_mentions(channel: &ChannelRef, content: &str, opts: &Options) -> (r: String)
    ensures
        r@ == incoming(channel@, content@, opts@),
{
    let text = to_chars(content);
    let mut out: Vec<char> = Vec::new();
    let mut i: usize = 0;
    while i < text.len()
        invariant
            i <= text.len(),
            text@ == content@,
            out@ + incoming_from(text@, i as int, channel@, opts@) == incoming(
                channel@,
                content@,
                opts@,
            ),
        decreases text.len() - i,
    {
        match scan_token(&text, i) {
            Some((kind, id, len)) => {
                let name = match id {
                    Some(v) => match resolve_mention(channel, kind, v, opts) {
                        Some(n) => n,
                        None => unknown(kind, opts),
                    },
                    None => unknown(kind, opts),
                };
                push_str(&mut out, name.as_str());
                i += len;
            },
            None => {
                out.push(text[i]);
                i += 1;
            },
        }
    }
    to_text(&out)
}

/// The tag that marks the printed lines of a message.
pub open spec fn message_tag(id: u64) -> Seq<char> {
    "discord_messageid_"@ + decimal(id as nat)
}

/// What the printed lines tell of a message: the prefix of the first line
/// that carries the tag, and the texts of all lines that carry it, one per
/// line; nothing if no line carries the tag.
pub open spec fn recover(lines: Seq<LineView>, tag: Seq<char>) -> Option<(Seq<char>, Seq<char>)>
    decreases lines.len(),
{
    if lines.len() == 0 {
        None
    } else {
        let before = recover(lines.drop_last(), tag);
        let line = lines.last();
        if line.tags.contains(tag) {
            match before {
                Some((prefix, text)) => Some((prefix, text + seq!['\n'] + line.message)),
                None => Some((line.prefix, line.message)),
            }
        } else {
            before
        }
    }
}

/// The view of an optional pair of strings.
pub open spec fn opt_pair(r: Option<(String, String)>) -> Option<(Seq<char>, Seq<char>)> {
    match r {
        Some((a, b)) => Some((a@, b@)),
        None => None,
    }
}

/// The tag that marks the printed lines of a message.
pub fn tag_of(message_id: MessageId) -> (r: String)
    ensures
        r@ == message_tag(message_id.0),
{
    let mut out: Vec<char> = Vec::new();
    push_str(&mut out, "discord_messageid_");
    push_decimal(&mut out, message_id.0);
    to_text(&out)
}

/// Whether the line carries the tag.
pub fn find_tag(line: &Line, tag: &String) -> (r: bool)
    ensures
        r == line@.tags.contains(tag@),
{
    let mut i: usize = 0;
    while i < line.tags.len()
        invariant
            i <= line.tags.len(),
            forall|k: int| 0 <= k < i ==> line@.tags[k] != tag@,
        decreases line.tags.len() - i,
    {
        if line.tags[i] == *tag {
            assert(line@.tags[i as int] == tag@);
            return true;
        }
        i += 1;
    }
    false
}

/// Looks up what was printed for a message among the last lines of a
/// buffer.
pub fn find_old_msg(buffer: &Buffer, host: &Host, message_id: MessageId) -> (r: Option<
    (String, String),
>)
    requires
        buffer.valid(host@),
    ensures
        opt_pair(r) == recover(
            last_n(host@.surfaces[buffer.index as int].lines, HISTORY_WINDOW as nat),
            message_tag(message_id.0),
        ),
{
    let tag = tag_of(message_id);
    let lines = &host.surfaces[buffer.index].lines;
    let start: usize = if lines.len() > HISTORY_WINDOW {
        lines.len() - HISTORY_WINDOW
    } else {
        0
    };
    let ghost window = last_n(lines.deep_view(), HISTORY_WINDOW as nat);
    let mut result: Option<(String, String)> = None;
    let mut i: usize = start;
    while i < lines.len()
        invariant
            start <= i <= lines.len(),
            window == lines.deep_view().skip(start as int),
            tag@ == message_tag(message_id.0),
            opt_pair(result) == recover(window.take(i - start), tag@),
        decreases lines.len() - i,
    {
        proof {
            let now = window.take(i - start + 1);
            assert(now.drop_last() =~= window.take(i - start));
        }
        if find_tag(&lines[i], &tag) {
            result = Some(
                match result {
                    Some((prefix, previous)) => {
                        let mut text = to_chars(previous.as_str());
                        text.push('\n');
                        push_str(&mut text, lines[i].message.as_str());
                        (prefix, to_text(&text))
                    },
                    None => (lines[i].prefix.clone(), lines[i].message.clone()),
                },
            );
        }
        i += 1;
    }
    assert(window.take(i - start) =~= window);
    result
}

/// The name under which the author of a message is shown: the name they
/// carry as a member in a server channel, else the account's name; coloured,
/// without sigil.
pub open spec fn author_name(chan: ChannelRefView, author: UserView, opts: OptionsView) -> Seq<
    char,
> {
    let fmt = NameFormat { include_prefix: false, include_color: true };
    match chan {
        ChannelRefView::Public(server, _) => match lookup::<Member>(server.members, author.id.0) {
            Some(m) => member_display(m, fmt, opts),
            None => user_display(author, fmt, opts),
        },
        _ => user_display(author, fmt, opts),
    }
}

/// Author and text of a message as they are shown, from what the event
/// carries and what the buffer has of the message.
///
/// A piece that the event carries is rendered from it. A piece that the
/// event lacks is taken from the buffer. Where the buffer has nothing, a
/// fixed text stands in if `placeholder` is set; else there is nothing to
/// show.
pub open spec fn resolved(
    chan: ChannelRefView,
    author: Option<UserView>,
    content: Option<Seq<char>>,
    old: Option<(Seq<char>, Seq<char>)>,
    placeholder: bool,
    opts: OptionsView,
) -> Option<(Seq<char>, Seq<char>)> {
    let a = match author {
        Some(u) => Some(author_name(chan, u, opts)),
        None => match old {
            Some(o) => Some(o.0),
            None => if placeholder {
                Some("unknown"@)
            } else {
                None
            },
        },
    };
    let c = match content {
        Some(t) => Some(incoming(chan, t, opts)),
        None => match old {
            Some(o) => Some(o.1),
            None => if placeholder {
                Some("(message unavailable)"@)
            } else {
                None
            },
        },
    };
    match (a, c) {
        (Some(x), Some(y)) => Some((x, y)),
        _ => None,
    }
}

/// The view of an optional user.
pub open spec fn opt_user(v: Option<&User>) -> Option<UserView> {
    match v {
        Some(u) => Some(u@),
        None => None,
    }
}

/// The view of an optional string slice.
pub open spec fn opt_str(v: Option<&str>) -> Option<Seq<char>> {
    match v {
        Some(t) => Some(t@),
        None => None,
    }
}

/// Puts author and text of a message together from the event and from what
/// was found in the buffer.
pub fn resolve_with(
    author: Option<&User>,
    content: Option<&str>,
    old: Option<(String, String)>,
    channel_ref: &ChannelRef,
    placeholder: bool,
    opts: &Options,
) -> (r: Option<(String, String)>)
    ensures
        opt_pair(r) == resolved(
            channel_ref@,
            opt_user(author),
            opt_str(content),
            opt_pair(old),
            placeholder,
            opts@,
        ),
{
    let (old_author, old_content) = match old {
        Some((a, c)) => (Some(a), Some(c)),
        None => (None, None),
    };
    let a = match author {
        Some(u) => {
            let fmt = NameFormat::color();
            let mut shown: Option<String> = None;
            if let ChannelRef::Public(server, _) = channel_ref {
                if let Some(m) = find_key(&server.members, u.id.0) {
                    shown = Some(server.members[m].name(&fmt, opts));
                }
            }
            match shown {
                Some(n) => Some(n),
                None => Some(u.name(&fmt, opts)),
            }
        },
        None => match old_author {
            Some(o) => Some(o),
            None => if placeholder {
                Some(String::from_str("unknown"))
            } else {
                None
            },
        },
    };
    let c = match content {
        Some(t) => Some(replace_mentions(channel_ref, t, opts)),
        None => match old_content {
            Some(o) => Some(o),
            None => if placeholder {
                Some(String::from_str("(message unavailable)"))
            } else {
                None
            },
        },
    };
    match (a, c) {
        (Some(x), Some(y)) => Some((x, y)),
        _ => None,
    }
}

/// Author and text of a message as they are shown. What the event lacks is
/// looked up among the last lines of the buffer.
pub fn resolve_message(
    author: Option<&User>,
    content: Option<&str>,
    buffer: &Buffer,
    host: &Host,
    channel_ref: &ChannelRef,
    message_id: MessageId,
    placeholder: bool,
    opts: &Options,
) -> (r: Option<(String, String)>)
    requires
        buffer.valid(host@),
    ensures
        opt_pair(r) == resolved(
            channel_ref@,
            opt_user(author),
            opt_str(content),
            recover(
                last_n(host@.surfaces[buffer.index as int].lines, HISTORY_WINDOW as nat),
                message_tag(message_id.0),
            ),
            placeholder,
            opts@,
        ),
{
    let old = if author.is_some() && content.is_some() {
        None
    } else {
        find_old_msg(buffer, host, message_id)
    };
    resolve_with(author, content, old, channel_ref, placeholder, opts)
}

/// A message ready to be printed.
#[derive(Debug, PartialEq, Eq)]
pub struct FormattedMessage {
    pub channel: String,
    pub author: String,
    pub prefix: &'static str,
    pub content: String,
    pub tags: Vec<String>,
}

/// What a [`FormattedMessage`] stands for in contracts.
pub struct FormattedMessageView {
    pub channel: Seq<char>,
    pub author: Seq<char>,
    pub prefix: Seq<char>,
    pub content: Seq<char>,
    pub tags: Seq<Seq<char>>,
}

impl View for FormattedMessage {
    type V = FormattedMessageView;

    open spec fn view(&self) -> FormattedMessageView {
        FormattedMessageView {
            channel: self.channel@,
            author: self.author@,
            prefix: self.prefix@,
            content: self.content@,
            tags: self.tags.deep_view(),
        }
    }
}

impl FormattedMessageView {
    /// The line that the message is printed as: the author in the prefix
    /// column, then the marker and the text.
    pub open spec fn line(self) -> LineView {
        LineView { tags: self.tags, prefix: self.author, message: self.prefix + self.content }
    }
}

impl FormattedMessage {
    /// Prints the message to a buffer.
    pub fn print(&self, host: &mut Host, target: &Buffer)
        requires
            target.valid(old(host)@),
        ensures
            final(host)@ == old(host)@.printed(target.index as int, self@.line()),
            old(host)@.wf() ==> final(host)@.wf(),
    {
        let mut text: Vec<char> = Vec::new();
        push_str(&mut text, self.prefix);
        push_str(&mut text, self.content.as_str());
        let message = to_text(&text);
        target.print_tags(host, &self.tags, &self.author, &message);
    }
}

/// The proxy addresses of the attachments, in order.
pub open spec fn attachment_urls(a: Seq<Attachment>) -> Seq<Seq<char>> {
    Seq::new(a.len(), |i: int| a[i].proxy_url@)
}

/// The tag that tells the client how loudly to announce a line.
pub open spec fn notify_tag(self_mentioned: bool, is_private: bool) -> Seq<char> {
    if self_mentioned {
        "notify_highlight"@
    } else if is_private {
        "notify_private"@
    } else {
        "notify_message"@
    }
}

/// The message that is printed for a resolved author and text: the text and
/// the addresses of the attachments, one per line, an empty text left out;
/// tagged with the loudness, the author and the message.
pub open spec fn formatted(
    chan: ChannelRefView,
    message_id: MessageId,
    author: Seq<char>,
    content: Seq<char>,
    urls: Seq<Seq<char>>,
    prefix: Seq<char>,
    self_mentioned: bool,
    opts: OptionsView,
) -> FormattedMessageView {
    let parts = if content.len() == 0 {
        urls
    } else {
        seq![content] + urls
    };
    FormattedMessageView {
        channel: channel_ref_display(
            chan,
            NameFormat { include_prefix: false, include_color: false },
            opts,
        ),
        author,
        prefix,
        content: join_text(parts, seq!['\n']),
        tags: seq![
            notify_tag(self_mentioned, !(chan is Public)),
            "nick_"@ + author,
            message_tag(message_id.0),
        ],
    }
}

/// The view of an optional formatted message.
pub open spec fn opt_formatted(r: Option<FormattedMessage>) -> Option<FormattedMessageView> {
    match r {
        Some(m) => Some(m@),
        None => None,
    }
}

/// The addresses of an optional list of attachments; none for no list.
pub open spec fn opt_urls(a: Option<&Vec<Attachment>>) -> Seq<Seq<char>> {
    match a {
        Some(v) => attachment_urls(v@),
        None => Seq::empty(),
    }
}

/// Lays out a resolved author and text as a message to print.
pub fn format_resolved(
    channel_ref: &ChannelRef,
    message_id: MessageId,
    author: String,
    content: String,
    attachments: Option<&Vec<Attachment>>,
    prefix: &'static str,
    self_mentioned: bool,
    opts: &Options,
) -> (r: FormattedMessage)
    ensures
        r@ == formatted(
            channel_ref@,
            message_id,
            author@,
            content@,
            opt_urls(attachments),
            prefix@,
            self_mentioned,
            opts@,
        ),
{
    let is_private = match channel_ref {
        ChannelRef::Public(_, _) => false,
        _ => true,
    };
    let mut tags: Vec<String> = Vec::new();
    if self_mentioned {
        tags.push(String::from_str("notify_highlight"));
    } else if is_private {
        tags.push(String::from_str("notify_private"));
    } else {
        tags.push(String::from_str("notify_message"));
    }
    let mut nick: Vec<char> = Vec::new();
    push_str(&mut nick, "nick_");
    push_str(&mut nick, author.as_str());
    tags.push(to_text(&nick));
    tags.push(tag_of(message_id));
    let mut content_list: Vec<String> = Vec::new();
    if content.as_str().unicode_len() != 0 {
        content_list.push(content);
    }
    let ghost head = content_list.deep_view();
    if let Some(attachments) = attachments {
        let mut i: usize = 0;
        while i < attachments.len()
            invariant
                i <= attachments.len(),
                content_list.deep_view() == head + attachment_urls(attachments@).take(i as int),
            decreases attachments.len() - i,
        {
            let ghost before = content_list.deep_view();
            content_list.push(attachments[i].proxy_url.clone());
            assert(content_list.deep_view() =~= before.push(attachments@[i as int].proxy_url@));
            i += 1;
        }
        assert(attachment_urls(attachments@).take(i as int) =~= attachment_urls(attachments@));
    }
    let ghost want = formatted(
        channel_ref@,
        message_id,
        author@,
        content@,
        opt_urls(attachments),
        prefix@,
        self_mentioned,
        opts@,
    );
    proof {
        reveal_strlit("\n");
        assert("\n"@ =~= seq!['\n']);
        if content@.len() == 0 {
        } else {
            assert(head =~= seq![content@]);
        }
        assert(tags.deep_view() =~= want.tags);
    }
    FormattedMessage {
        channel: channel_ref.name(&NameFormat::none(), opts),
        author,
        prefix,
        content: join(&content_list, "\n"),
        tags,
    }
}

/// The message to print for an event: resolves author and text, looking
/// into the channel's buffer for what the event lacks, and lays them out.
/// There is nothing to print where a piece is missing and `placeholder` is
/// not set.
pub fn format_message(
    channel: &ChannelData,
    host: &Host,
    message_id: MessageId,
    author: Option<&User>,
    content: Option<&str>,
    attachments: Option<&Vec<Attachment>>,
    prefix: &'static str,
    self_mentioned: bool,
    placeholder: bool,
    opts: &Options,
) -> (r: Option<FormattedMessage>)
    requires
        channel.buffer.valid(host@),
    ensures
        opt_formatted(r) == match resolved(
            channel.channel@,
            opt_user(author),
            opt_str(content),
            recover(
                last_n(host@.surfaces[channel.buffer.index as int].lines, HISTORY_WINDOW as nat),
                message_tag(message_id.0),
            ),
            placeholder,
            opts@,
        ) {
            Some((a, c)) => Some(
                formatted(
                    channel.channel@,
                    message_id,
                    a,
                    c,
                    opt_urls(attachments),
                    prefix@,
                    self_mentioned,
                    opts@,
                ),
            ),
            None => None,
        },
{
    let pair = resolve_message(
        author,
        content,
        &channel.buffer,
        host,
        &channel.channel,
        message_id,
        placeholder,
        opts,
    );
    match pair {
        Some((a, c)) => Some(
            format_resolved(
                &channel.channel,
                message_id,
                a,
                c,
                attachments,
                prefix,
                self_mentioned,
                opts,
            ),
        ),
        None => None,
    }
}

/// The plain names of the first `upto` members, each with the user it
/// belongs to: for each member the account's name, then the member's name.
pub open spec fn member_names(members: Seq<MemberView>, opts: OptionsView) -> Seq<
    (Seq<char>, UserId),
>
    decreases members.len(),
{
    let fmt = NameFormat { include_prefix: false, include_color: false };
    if members.len() == 0 {
        Seq::empty()
    } else {
        let m = members.last();
        member_names(members.drop_last(), opts).push((user_display(m.user, fmt, opts), m.user.id)).push(
            (member_display(m, fmt, opts), m.user.id),
        )
    }
}

/// The plain names of the users, each with the user it belongs to.
pub open spec fn user_names(users: Seq<UserView>, opts: OptionsView) -> Seq<(Seq<char>, UserId)>
    decreases users.len(),
{
    let fmt = NameFormat { include_prefix: false, include_color: false };
    if users.len() == 0 {
        Seq::empty()
    } else {
        user_names(users.drop_last(), opts).push(
            (user_display(users.last(), fmt, opts), users.last().id),
        )
    }
}

/// The names of the members of the first `upto` servers.
pub open spec fn server_names(servers: Seq<ServerView>, opts: OptionsView) -> Seq<
    (Seq<char>, UserId),
>
    decreases servers.len(),
{
    if servers.len() == 0 {
        Seq::empty()
    } else {
        server_names(servers.drop_last(), opts) + member_names(servers.last().members, opts)
    }
}

/// The names of the recipients of the groups.
pub open spec fn group_names(groups: Seq<GroupView>, opts: OptionsView) -> Seq<
    (Seq<char>, UserId),
>
    decreases groups.len(),
{
    if groups.len() == 0 {
        Seq::empty()
    } else {
        group_names(groups.drop_last(), opts) + user_names(groups.last().recipients, opts)
    }
}

/// The names of the recipients of the private channels.
pub open spec fn private_names(
    privates: Seq<PrivateChannelView>,
    opts: OptionsView,
) -> Seq<(Seq<char>, UserId)>
    decreases privates.len(),
{
    let fmt = NameFormat { include_prefix: false, include_color: false };
    if privates.len() == 0 {
        Seq::empty()
    } else {
        private_names(privates.drop_last(), opts).push(
            (user_display(privates.last().recipient, fmt, opts), privates.last().recipient.id),
        )
    }
}

/// Every name by which a user is known anywhere in the mirror, with the
/// user: the members of the servers, then the recipients of the groups, then
/// those of the private channels.
pub open spec fn names_everywhere(s: StateView, opts: OptionsView) -> Seq<
    (Seq<char>, UserId),
> {
    server_names(s.servers, opts) + group_names(s.groups, opts) + private_names(
        s.private_channels,
        opts,
    )
}

/// The view of a list of names with their users.
pub open spec fn names_view(v: Seq<(String, UserId)>) -> Seq<(Seq<char>, UserId)> {
    Seq::new(v.len(), |i: int| (v[i].0@, v[i].1))
}

/// Every name by which a user is known anywhere in the mirror, with the
/// user.
pub fn all_names_everywhere(state: &State, opts: &Options) -> (r: Vec<
    (String, UserId),
>)
    ensures
        names_view(r@) == names_everywhere(state@, opts@),
{
    let format = NameFormat::none();
    let mut out: Vec<(String, UserId)> = Vec::new();
    let mut i: usize = 0;
    while i < state.servers.len()
        invariant
            i <= state.servers.len(),
            format == (NameFormat { include_prefix: false, include_color: false }),
            names_view(out@) == server_names(state@.servers.take(i as int), opts@),
        decreases state.servers.len() - i,
    {
        let server = &state.servers[i];
        let ghost base = names_view(out@);
        let mut j: usize = 0;
        while j < server.members.len()
            invariant
                j <= server.members.len(),
                format == (NameFormat { include_prefix: false, include_color: false }),
                names_view(out@) == base + member_names(server@.members.take(j as int), opts@),
            decreases server.members.len() - j,
        {
            let member = &server.members[j];
            let ghost before = names_view(out@);
            proof {
                let now = server@.members.take(j + 1);
                assert(now.drop_last() =~= server@.members.take(j as int));
            }
            let first = member.user.name(&format, opts);
            let second = member.name(&format, opts);
            out.push((first, member.user.id));
            out.push((second, member.user.id));
            assert(names_view(out@) =~= before.push((first@, member.user.id)).push(
                (second@, member.user.id),
            ));
            j += 1;
        }
        proof {
            assert(server@.members.take(j as int) =~= server@.members);
            let now = state@.servers.take(i + 1);
            assert(now.drop_last() =~= state@.servers.take(i as int));
        }
        i += 1;
    }
    assert(state@.servers.take(i as int) =~= state@.servers);
    let ghost servers = names_view(out@);
    let mut g: usize = 0;
    while g < state.groups.len()
        invariant
            g <= state.groups.len(),
            format == (NameFormat { include_prefix: false, include_color: false }),
            names_view(out@) == servers + group_names(state@.groups.take(g as int), opts@),
        decreases state.groups.len() - g,
    {
        let group = &state.groups[g];
        let ghost base = names_view(out@);
        let mut j: usize = 0;
        while j < group.recipients.len()
            invariant
                j <= group.recipients.len(),
                format == (NameFormat { include_prefix: false, include_color: false }),
                names_view(out@) == base + user_names(group@.recipients.take(j as int), opts@),
            decreases group.recipients.len() - j,
        {
            let recipient = &group.recipients[j];
            let ghost before = names_view(out@);
            proof {
                let now = group@.recipients.take(j + 1);
                assert(now.drop_last() =~= group@.recipients.take(j as int));
            }
            let name = recipient.name(&format, opts);
            out.push((name, recipient.id));
            assert(names_view(out@) =~= before.push((name@, recipient.id)));
            j += 1;
        }
        proof {
            assert(group@.recipients.take(j as int) =~= group@.recipients);
            let now = state@.groups.take(g + 1);
            assert(now.drop_last() =~= state@.groups.take(g as int));
        }
        g += 1;
    }
    assert(state@.groups.take(g as int) =~= state@.groups);
    let ghost both = names_view(out@);
    let mut p: usize = 0;
    while p < state.private_channels.len()
        invariant
            p <= state.private_channels.len(),
            format == (NameFormat { include_prefix: false, include_color: false }),
            both == server_names(state@.servers, opts@) + group_names(state@.groups, opts@),
            names_view(out@) == both + private_names(
                state@.private_channels.take(p as int),
                opts@,
            ),
        decreases state.private_channels.len() - p,
    {
        let private = &state.private_channels[p];
        let ghost before = names_view(out@);
        proof {
            let now = state@.private_channels.take(p + 1);
            assert(now.drop_last() =~= state@.private_channels.take(p as int));
        }
        let name = private.recipient.name(&format, opts);
        out.push((name, private.recipient.id));
        assert(names_view(out@) =~= before.push((name@, private.recipient.id)));
        p += 1;
    }
    assert(state@.private_channels.take(p as int) =~= state@.private_channels);
    out
}

/// The user of the first row with the name.
pub open spec fn user_named(rows: Seq<(Seq<char>, UserId)>, name: Seq<char>) -> Option<UserId>
    decreases rows.len(),
{
    if rows.len() == 0 {
        None
    } else if rows[0].0 == name {
        Some(rows[0].1)
    } else {
        user_named(rows.skip(1), name)
    }
}

/// The first user that is known by the name anywhere in the mirror.
pub fn find_user_named(state: &State, nick: &String, opts: &Options) -> (r: Option<
    UserId,
>)
    ensures
        r == user_named(names_everywhere(state@, opts@), nick@),
{
    let rows = all_names_everywhere(state, opts);
    let ghost all = names_everywhere(state@, opts@);
    let mut i: usize = 0;
    assert(all.skip(0) =~= all);
    while i < rows.len()
        invariant
            i <= rows.len(),
            all == names_view(rows@),
            all == names_everywhere(state@, opts@),
            user_named(all, nick@) == user_named(all.skip(i as int), nick@),
        decreases rows.len() - i,
    {
        let ghost tail = all.skip(i as int);
        assert(tail.skip(1) =~= all.skip(i + 1));
        if rows[i].0 == *nick {
            return Some(rows[i].1);
        }
        i += 1;
    }
    None
}

/// Lines of which none carries the tag tell nothing of the message, and
/// only such lines tell nothing.
pub proof fn lemma_recover_none(lines: Seq<LineView>, tag: Seq<char>)
    ensures
        recover(lines, tag) is None <==> forall|k: int|
            0 <= k < lines.len() ==> !(#[trigger] lines[k]).tags.contains(tag),
    decreases lines.len(),
{
    if lines.len() > 0 {
        let init = lines.drop_last();
        lemma_recover_none(init, tag);
        if recover(lines, tag) is None {
            assert forall|k: int| 0 <= k < lines.len() implies !(#[trigger] lines[k]).tags.contains(
                tag,
            ) by {
                if k < init.len() {
                    assert(init[k] == lines[k]);
                }
            }
        } else {
            if forall|k: int| 0 <= k < lines.len() ==> !(#[trigger] lines[k]).tags.contains(tag) {
                assert forall|k: int| 0 <= k < init.len() implies !(#[trigger] init[k]).tags.contains(
                    tag,
                ) by {
                }
            }
        }
    }
}

/// A message that is printed to a buffer which had no line of it is found
/// again as it was printed: the author in the prefix column, and the text.
pub proof fn lemma_print_then_recover(h: HostView, i: int, line: LineView, tag: Seq<char>)
    requires
        0 <= i < h.surfaces.len(),
        line.tags.contains(tag),
        recover(h.surfaces[i].lines, tag) is None,
    ensures
        recover(last_n(h.printed(i, line).surfaces[i].lines, HISTORY_WINDOW as nat), tag) == Some(
            (line.prefix, line.message),
        ),
{
    let before = h.surfaces[i].lines;
    let after = h.printed(i, line).surfaces[i].lines;
    let window = last_n(after, HISTORY_WINDOW as nat);
    lemma_recover_none(before, tag);
    let init = window.drop_last();
    assert forall|k: int| 0 <= k < init.len() implies !(#[trigger] init[k]).tags.contains(tag) by {
        let all = before.push(line);
        if all.len() <= HISTORY_WINDOW {
        } else {
        }
    }
    lemma_recover_none(init, tag);
}

/// The wire form of a mention is read as that mention: alone in a text, it
/// is shown as the name it refers to, or as the name for something unknown.
pub proof fn lemma_mention_round_trip(chan: ChannelRefView, m: Mention, opts: OptionsView)
    ensures
        token_at(mention_text(m), 0) == Some(
            Token {
                kind: m.kind,
                digits: decimal(m.id as nat),
                len: mention_text(m).len() as int,
            },
        ),
        incoming(chan, mention_text(m), opts) == token_name(chan, m.kind, Some(m.id), opts),
{
    let text = mention_text(m);
    let marker = mention_marker(m.kind);
    let digits = decimal(m.id as nat);
    lemma_decimal_is_digits(m.id as nat);
    lemma_decimal_value(m.id as nat);
    let start = 1 + marker.len() as int;
    let end = start + digits.len();
    if marker.len() == 2 {
    } else {
    }
    assert forall|k: int| start <= k < end implies is_digit(#[trigger] text[k]) by {
    }
    lemma_digit_run(text, start, end);
    assert(text.subrange(start, end) =~= digits);
    assert(incoming_from(text, text.len() as int, chan, opts) =~= Seq::empty());
}

/// In a list of falling lengths a row with a longer name stands before
/// every row with a shorter one.
pub proof fn lemma_longer_first(rows: Seq<(Seq<char>, Seq<char>)>, i: int, j: int)
    requires
        falling(rows),
        0 <= i < rows.len(),
        0 <= j < rows.len(),
        byte_len(rows[i].0) > byte_len(rows[j].0),
    ensures
        i < j,
{
    if j <= i {
        assert(byte_len(rows[j].0) >= byte_len(rows[i].0));
    }
}

/// Replacing by two lists of rows, one after the other, is replacing by the
/// two as one list.
pub proof fn lemma_replace_each_append(
    text: Seq<char>,
    a: Seq<(Seq<char>, Seq<char>)>,
    b: Seq<(Seq<char>, Seq<char>)>,
)
    ensures
        replace_each(text, a + b) == replace_each(replace_each(text, a), b),
    decreases b.len(),
{
    if b.len() == 0 {
        assert(a + b =~= a);
    } else {
        lemma_replace_each_append(text, a, b.drop_last());
        assert((a + b).drop_last() =~= a + b.drop_last());
        assert((a + b).last() == b.last());
    }
}

/// Whether the stretch `w` between `u` and `v` stays clear of every row: at
/// the time a row is applied, no occurrence of its name overlaps `w`.
pub open spec fn kept(
    u: Seq<char>,
    w: Seq<char>,
    v: Seq<char>,
    rows: Seq<(Seq<char>, Seq<char>)>,
) -> bool
    decreases rows.len(),
{
    rows.len() == 0 || {
        let before = replace_each(u, rows.drop_last());
        let behind = replace_each(v, rows.drop_last());
        &&& kept(u, w, v, rows.drop_last())
        &&& !overlaps(
            before + w + behind,
            rows.last().0,
            before.len() as int,
            (before.len() + w.len()) as int,
        )
    }
}

/// A stretch of text that stays clear of every row comes out as it went in,
/// and what stands before and behind it is rewritten as if it stood alone.
pub proof fn lemma_kept_whole(
    u: Seq<char>,
    w: Seq<char>,
    v: Seq<char>,
    rows: Seq<(Seq<char>, Seq<char>)>,
)
    requires
        kept(u, w, v, rows),
    ensures
        replace_each(u + w + v, rows) == replace_each(u, rows) + w + replace_each(v, rows),
    decreases rows.len(),
{
    if rows.len() > 0 {
        lemma_kept_whole(u, w, v, rows.drop_last());
        lemma_replace_around(
            replace_each(u, rows.drop_last()),
            w,
            replace_each(v, rows.drop_last()),
            rows.last().0,
            rows.last().1,
        );
    }
}

/// A name in a text gives way to its mention as a whole.
///
/// The rows are those in front of the name's row, the row itself, and those
/// behind it; with `all_names` the rows in front hold the names that are no
/// shorter. If the name stays clear of the rows in front, no other
/// occurrence of the name lies across its start, and the mention stays clear
/// of the rows behind, then the result is the mention, with what stood
/// before and behind the name rewritten as if it stood alone. No part of the
/// name is taken for a shorter name, and no part of the mention is rewritten
/// again.
pub proof fn lemma_whole_name(
    pre: Seq<char>,
    post: Seq<char>,
    front: Seq<(Seq<char>, Seq<char>)>,
    name: Seq<char>,
    mention: Seq<char>,
    back: Seq<(Seq<char>, Seq<char>)>,
)
    requires
        name.len() > 0,
        kept(pre, name, post, front),
        !overlaps(
            replace_each(pre, front) + name + replace_each(post, front),
            name,
            replace_each(pre, front).len() as int,
            replace_each(pre, front).len() as int,
        ),
        kept(
            replace_all(replace_each(pre, front), name, mention),
            mention,
            replace_all(replace_each(post, front), name, mention),
            back,
        ),
    ensures
        replace_each(pre + name + post, front.push((name, mention)) + back) == replace_each(
            pre,
            front.push((name, mention)) + back,
        ) + mention + replace_each(post, front.push((name, mention)) + back),
{
    let row = (name, mention);
    let upto = front.push(row);
    let rows = upto + back;
    let x = replace_each(pre, front);
    let y = replace_each(post, front);
    assert(upto.drop_last() =~= front);
    assert(upto.last() == row);
    lemma_kept_whole(pre, name, post, front);
    lemma_replace_occurrence(x, y, name, mention);
    let x1 = replace_all(x, name, mention);
    let y1 = replace_all(y, name, mention);
    assert(replace_each(pre + name + post, upto) == x1 + mention + y1);
    assert(replace_each(pre, upto) == x1);
    assert(replace_each(post, upto) == y1);
    lemma_kept_whole(x1, mention, y1, back);
    lemma_replace_each_append(pre + name + post, upto, back);
    lemma_replace_each_append(pre, upto, back);
    lemma_replace_each_append(post, upto, back);
}

/// Rewriting an empty text gives an empty text.
pub proof fn lemma_replace_each_empty(rows: Seq<(Seq<char>, Seq<char>)>)
    ensures
        replace_each(Seq::empty(), rows) == Seq::<char>::empty(),
    decreases rows.len(),
{
    if rows.len() > 0 {
        lemma_replace_each_empty(rows.drop_last());
    }
}

/// A text that stays clear of every row is sent as it was typed.
pub proof fn lemma_untouched(text: Seq<char>, rows: Seq<(Seq<char>, Seq<char>)>)
    requires
        kept(Seq::empty(), text, Seq::empty(), rows),
    ensures
        replace_each(text, rows) == text,
{
    lemma_kept_whole(Seq::empty(), text, Seq::empty(), rows);
    lemma_replace_each_empty(rows);
    assert(Seq::<char>::empty() + text + Seq::<char>::empty() =~= text);
}

/// What is sent for a text around a name: where the names of the channel,
/// longest first, are the rows `front`, the name's own row and the rows
/// `back`, and the name and its mention stay clear of the other rows as
/// `lemma_whole_name` asks, the name is sent as its mention, and the text
/// before and behind it as if each had been typed alone.
pub proof fn lemma_outgoing_whole_name(
    chan: ChannelRefView,
    opts: OptionsView,
    pre: Seq<char>,
    post: Seq<char>,
    front: Seq<(Seq<char>, Seq<char>)>,
    name: Seq<char>,
    mention: Seq<char>,
    back: Seq<(Seq<char>, Seq<char>)>,
)
    requires
        sort_rows(
            candidate_rows(chan, NameFormat { include_prefix: true, include_color: false }, opts),
        ) == front.push((name, mention)) + back,
        name.len() > 0,
        kept(pre, name, post, front),
        !overlaps(
            replace_each(pre, front) + name + replace_each(post, front),
            name,
            replace_each(pre, front).len() as int,
            replace_each(pre, front).len() as int,
        ),
        kept(
            replace_all(replace_each(pre, front), name, mention),
            mention,
            replace_all(replace_each(post, front), name, mention),
            back,
        ),
    ensures
        outgoing(chan, pre + name + post, opts) == outgoing(chan, pre, opts) + mention + outgoing(
            chan,
            post,
            opts,
        ),
{
    lemma_whole_name(pre, post, front, name, mention, back);
}

} // verus!

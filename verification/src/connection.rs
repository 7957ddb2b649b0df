//! A channel of the mirror together with the buffer that shows it: how the
//! buffer is named, found, opened and kept up to date.

use crate::host::{
    drop_text, lemma_surface_index, lemma_surface_index_is, surface_index, Buffer, CommandView,
    HISTORY_WINDOW, Host, HostView,
};
use crate::state::{opt_channel_ref, State, StateView};
use crate::text::{
    all_digits, decimal, decimal_string, digit_run, is_digit, lemma_decimal_is_digits,
    lemma_decimal_value, lemma_digit_run, push_decimal, scan_digits, to_chars, to_text, token_id,
};
use crate::types::{
    channel_ref_display, channel_ref_id, member_display, server_display, ChannelId, ChannelRef,
    ChannelRefView, ChannelType, CurrentUserView, Id, LiveServer, Member, MemberView, Name,
    NameFormat, Options, OptionsView, ServerView,
};
use vstd::prelude::*;
use vstd::string::*;

verus! {

/// A channel, the mirror it was found in, and its buffer.
#[derive(Clone, Copy, Debug)]
pub struct ChannelData<'a> {
    pub state: &'a State,
    pub channel: ChannelRef<'a>,
    pub buffer: Buffer,
}

/// The name of the buffer for a channel: the server's identifier, a dot, the
/// channel's identifier, both in decimal.
pub open spec fn address_of(server: u64, channel: u64) -> Seq<char> {
    decimal(server as nat) + seq!['.'] + decimal(channel as nat)
}

/// The identifier of the server in a buffer's name: that of the channel's
/// server, or zero for a channel that has none.
pub open spec fn address_server(chan: ChannelRefView) -> u64 {
    match chan {
        ChannelRefView::Public(server, _) => server.id.0,
        _ => 0,
    }
}

/// The name of the buffer that shows a channel.
pub open spec fn surface_address(chan: ChannelRefView) -> Seq<char> {
    address_of(address_server(chan), channel_ref_id(chan).0)
}

/// The identifiers that a buffer's name holds, if it is the name of a
/// channel's buffer.
pub open spec fn parse_address(name: Seq<char>) -> Option<(u64, u64)> {
    let n = digit_run(name, 0) as int;
    let m = digit_run(name, n + 1) as int;
    if n > 0 && n < name.len() && name[n] == '.' && m > 0 && n + 1 + m == name.len() {
        match (token_id(name.subrange(0, n)), token_id(name.subrange(n + 1, n + 1 + m))) {
            (Some(s), Some(c)) => Some((s, c)),
            _ => None,
        }
    } else {
        None
    }
}

/// A buffer's name gives back the identifiers it was made from.
pub proof fn lemma_parse_address(server: u64, channel: u64)
    ensures
        parse_address(address_of(server, channel)) == Some((server, channel)),
{
    let a = decimal(server as nat);
    let b = decimal(channel as nat);
    let name = address_of(server, channel);
    lemma_decimal_is_digits(server as nat);
    lemma_decimal_is_digits(channel as nat);
    lemma_decimal_value(server as nat);
    lemma_decimal_value(channel as nat);
    assert forall|k: int| 0 <= k < a.len() implies is_digit(#[trigger] name[k]) by {
    }
    lemma_digit_run(name, 0, a.len() as int);
    assert forall|k: int| a.len() + 1 <= k < name.len() implies is_digit(#[trigger] name[k]) by {
    }
    lemma_digit_run(name, (a.len() + 1) as int, name.len() as int);
    assert(name.subrange(0, a.len() as int) =~= a);
    assert(name.subrange((a.len() + 1) as int, name.len() as int) =~= b);
}

/// Buffers of channels with different identifiers have different names, and
/// so have buffers of channels in different servers.
pub proof fn lemma_address_injective(s1: u64, c1: u64, s2: u64, c2: u64)
    requires
        address_of(s1, c1) == address_of(s2, c2),
    ensures
        s1 == s2,
        c1 == c2,
{
    lemma_parse_address(s1, c1);
    lemma_parse_address(s2, c2);
}

/// The name of a channel's buffer depends on the identifiers alone, and two
/// channels with different identifiers never share a name.
pub proof fn lemma_address_stable(a: ChannelRefView, b: ChannelRefView)
    ensures
        channel_ref_id(a) == channel_ref_id(b) && address_server(a) == address_server(b)
            ==> surface_address(a) == surface_address(b),
        channel_ref_id(a) != channel_ref_id(b) ==> surface_address(a) != surface_address(b),
{
    if surface_address(a) == surface_address(b) {
        lemma_address_injective(
            address_server(a),
            channel_ref_id(a).0,
            address_server(b),
            channel_ref_id(b).0,
        );
    }
}

/// The name of the buffer for the given identifiers.
pub fn address(server: u64, channel: u64) -> (r: String)
    ensures
        r@ == address_of(server, channel),
{
    let mut out: Vec<char> = Vec::new();
    push_decimal(&mut out, server);
    out.push('.');
    push_decimal(&mut out, channel);
    to_text(&out)
}

/// Reads the identifiers out of a buffer's name.
pub fn parse_name(name: &str) -> (r: Option<(u64, u64)>)
    ensures
        r == parse_address(name@),
{
    let text = to_chars(name);
    let (n, server) = scan_digits(&text, 0);
    if n == 0 || n >= text.len() {
        return None;
    }
    if text[n] != '.' {
        return None;
    }
    let (end, channel) = scan_digits(&text, n + 1);
    if end == n + 1 || end != text.len() {
        return None;
    }
    match (server, channel) {
        (Some(s), Some(c)) => Some((s, c)),
        _ => None,
    }
}

/// The name of a channel's buffer and the short name shown for it.
pub fn local_surface_address(channel: &ChannelRef, opts: &Options) -> (r: (String, String))
    ensures
        r.0@ == surface_address(channel@),
        r.1@ == channel_ref_display(
            channel@,
            NameFormat { include_prefix: true, include_color: false },
            opts@,
        ),
{
    let (server_id, channel_id) = match channel {
        ChannelRef::Private(private) => (0, private.id.0),
        ChannelRef::Group(group) => (0, group.channel_id.0),
        ChannelRef::Public(server, channel) => (server.id.0, channel.id.0),
    };
    (address(server_id, channel_id), channel.name(&NameFormat::prefix(), opts))
}

/// Whether the channel is a voice channel, which gets no buffer.
pub open spec fn is_voice(chan: ChannelRefView) -> bool {
    match chan {
        ChannelRefView::Public(_, c) => c.kind == ChannelType::Voice,
        _ => false,
    }
}

/// The word by which the client tells buffers of server channels from those
/// of private channels and groups.
pub open spec fn kind_word(chan: ChannelRefView) -> Seq<char> {
    match chan {
        ChannelRefView::Public(_, _) => "channel"@,
        _ => "private"@,
    }
}

/// The names under which the members appear in a nick list.
pub open spec fn roster_names(members: Seq<MemberView>, opts: OptionsView) -> Seq<Seq<char>> {
    Seq::new(
        members.len(),
        |i: int|
            member_display(
                members[i],
                NameFormat { include_prefix: false, include_color: false },
                opts,
            ),
    )
}

/// The picture after each name that the nick list of the buffer at position
/// `i` lacks is added to it, in the order of the names.
pub open spec fn add_missing(h: HostView, i: int, names: Seq<Seq<char>>) -> HostView
    decreases names.len(),
{
    if names.len() == 0 {
        h
    } else {
        let before = add_missing(h, i, names.drop_last());
        if before.surfaces[i].nicks.contains(names.last()) {
            before
        } else {
            before.nick_added(i, names.last())
        }
    }
}

/// The picture after each of the `nicks` that is none of the `names` is
/// removed from the nick list of the buffer at position `i`.
pub open spec fn remove_stale(
    h: HostView,
    i: int,
    nicks: Seq<Seq<char>>,
    names: Seq<Seq<char>>,
) -> HostView
    decreases nicks.len(),
{
    if nicks.len() == 0 {
        h
    } else {
        let before = remove_stale(h, i, nicks.drop_last(), names);
        if names.contains(nicks.last()) {
            before
        } else {
            before.nick_removed(i, nicks.last())
        }
    }
}

/// The picture after the nick list of the buffer at position `i` is brought
/// in step with the names: missing names are added, then entries that are no
/// name are removed.
pub open spec fn rostered(h: HostView, i: int, names: Seq<Seq<char>>) -> HostView {
    let added = add_missing(h, i, names);
    remove_stale(added, i, added.surfaces[i].nicks, names)
}

/// The picture after the roster of a channel is brought into the nick list
/// of the buffer at position `i`. Only server channels have a roster.
pub open spec fn roster_synced(h: HostView, i: int, chan: ChannelRefView, opts: OptionsView) -> HostView {
    match chan {
        ChannelRefView::Public(server, _) => rostered(h, i, roster_names(server.members, opts)),
        _ => h,
    }
}

/// The picture after the properties that may change over a channel's life
/// are set anew on the buffer at position `i`: the short name, the kind of
/// buffer, and the user's own name.
pub open spec fn refreshed(
    h: HostView,
    i: int,
    me: CurrentUserView,
    chan: ChannelRefView,
    opts: OptionsView,
) -> HostView {
    h.set(
        i,
        "short_name"@,
        channel_ref_display(chan, NameFormat { include_prefix: true, include_color: false }, opts),
    ).set(i, "localvar_set_type"@, kind_word(chan)).set(i, "localvar_set_nick"@, me.username)
}

/// The picture after a new buffer at position `i` is set up for a channel:
/// the channel's identifier, the short name, the title, the output mode, the
/// kind of buffer, the nick list switched on for a server channel, the
/// user's own name, and then the roster.
pub open spec fn synced(
    h: HostView,
    i: int,
    me: CurrentUserView,
    chan: ChannelRefView,
    opts: OptionsView,
) -> HostView {
    let h1 = h.set(i, "localvar_set_channelid"@, decimal(channel_ref_id(chan).0 as nat)).set(
        i,
        "short_name"@,
        channel_ref_display(chan, NameFormat { include_prefix: true, include_color: false }, opts),
    ).set(i, "title"@, "Channel Title"@).set(i, "type"@, "formatted"@);
    let h2 = if chan is Public {
        h1.set(i, "localvar_set_type"@, "channel"@).set(i, "nicklist"@, "1"@)
    } else {
        h1.set(i, "localvar_set_type"@, "private"@)
    };
    roster_synced(h2.set(i, "localvar_set_nick"@, me.username), i, chan, opts)
}

/// The picture after a channel's buffer is looked for and, where asked,
/// opened. A voice channel gets no buffer. A buffer that exists is
/// refreshed. Where none exists and `auto_open` is set, one is opened and
/// set up, and the recent messages of the channel are asked for; else
/// nothing happens.
pub open spec fn ensured(
    h: HostView,
    me: CurrentUserView,
    chan: ChannelRefView,
    auto_open: bool,
    opts: OptionsView,
) -> HostView {
    let name = surface_address(chan);
    if is_voice(chan) {
        h
    } else if h.has(name) {
        refreshed(h, surface_index(h.surfaces, name), me, chan, opts)
    } else if auto_open {
        synced(h.opened(name), h.surfaces.len() as int, me, chan, opts).emit(
            CommandView::Backfill { name, channel: channel_ref_id(chan) },
        )
    } else {
        h
    }
}

/// Whether a channel has a buffer after it was looked for and, where asked,
/// opened.
pub open spec fn shown(h: HostView, chan: ChannelRefView, auto_open: bool) -> bool {
    !is_voice(chan) && (h.has(surface_address(chan)) || auto_open)
}

/// Whether two pictures have the same buffers under the same names, in the
/// same order and with the same lines; nick lists and commands may differ.
pub open spec fn same_names(a: HostView, b: HostView) -> bool {
    &&& a.surfaces.len() == b.surfaces.len()
    &&& forall|k: int|
        0 <= k < a.surfaces.len() ==> (#[trigger] a.surfaces[k]).name == b.surfaces[k].name
            && a.surfaces[k].lines == b.surfaces[k].lines
}

/// Pictures with the same names find the same buffer under a name.
pub proof fn lemma_same_names(a: HostView, b: HostView, name: Seq<char>)
    requires
        same_names(a, b),
    ensures
        surface_index(a.surfaces, name) == surface_index(
            b.surfaces,
            name,
        ),
        a.has(name) == b.has(name),
{
    lemma_surface_index(a.surfaces, name);
    let i = surface_index(a.surfaces, name);
    assert forall|k: int| 0 <= k < i implies (#[trigger] b.surfaces[k]).name != name by {
        assert(a.surfaces[k].name != name);
    }
    if i < a.surfaces.len() {
    }
    lemma_surface_index_is(b.surfaces, name, i);
}

/// Bringing a nick list in step with names opens and closes no buffer and
/// renames none.
pub proof fn lemma_rostered_names(h: HostView, i: int, names: Seq<Seq<char>>)
    requires
        0 <= i < h.surfaces.len(),
    ensures
        same_names(h, rostered(h, i, names)),
        same_names(h, add_missing(h, i, names)),
{
    lemma_add_missing_names(h, i, names);
    let added = add_missing(h, i, names);
    lemma_remove_stale_names(added, i, added.surfaces[i].nicks, names);
    let r = rostered(h, i, names);
    assert forall|k: int| 0 <= k < h.surfaces.len() implies (#[trigger] h.surfaces[k]).name
        == r.surfaces[k].name && h.surfaces[k].lines == r.surfaces[k].lines by {
    }
}

/// Adding missing names opens and closes no buffer and renames none.
pub proof fn lemma_add_missing_names(h: HostView, i: int, names: Seq<Seq<char>>)
    requires
        0 <= i < h.surfaces.len(),
    ensures
        same_names(h, add_missing(h, i, names)),
    decreases names.len(),
{
    if names.len() > 0 {
        lemma_add_missing_names(h, i, names.drop_last());
    }
}

/// Removing stale entries opens and closes no buffer and renames none.
pub proof fn lemma_remove_stale_names(
    h: HostView,
    i: int,
    nicks: Seq<Seq<char>>,
    names: Seq<Seq<char>>,
)
    requires
        0 <= i < h.surfaces.len(),
    ensures
        same_names(h, remove_stale(h, i, nicks, names)),
    decreases nicks.len(),
{
    if nicks.len() > 0 {
        lemma_remove_stale_names(h, i, nicks.drop_last(), names);
    }
}

/// Whether the list has an entry equal to `item`.
pub fn contains_text(list: &Vec<String>, item: &String) -> (r: bool)
    ensures
        r == list.deep_view().contains(item@),
{
    let mut i: usize = 0;
    while i < list.len()
        invariant
            i <= list.len(),
            forall|k: int| 0 <= k < i ==> list.deep_view()[k] != item@,
        decreases list.len() - i,
    {
        if list[i] == *item {
            assert(list.deep_view()[i as int] == item@);
            return true;
        }
        i += 1;
    }
    false
}

/// The names under which the members appear in a nick list.
pub fn roster(members: &Vec<Member>, opts: &Options) -> (r: Vec<String>)
    ensures
        r.deep_view() == roster_names(members.deep_view(), opts@),
{
    let mut names: Vec<String> = Vec::new();
    let fmt = NameFormat::none();
    let mut k: usize = 0;
    while k < members.len()
        invariant
            k <= members.len(),
            fmt == (NameFormat { include_prefix: false, include_color: false }),
            names.deep_view() == roster_names(members.deep_view(), opts@).take(k as int),
        decreases members.len() - k,
    {
        let ghost before = names.deep_view();
        let name = members[k].name(&fmt, opts);
        names.push(name);
        assert(names.deep_view() =~= before.push(name@));
        k += 1;
    }
    names
}

impl Buffer {
    /// Brings the nick list of the buffer in step with the names.
    pub fn set_roster(&self, host: &mut Host, names: &Vec<String>)
        requires
            self.valid(old(host)@),
        ensures
            final(host)@ == rostered(old(host)@, self.index as int, names.deep_view()),
            old(host)@.wf() ==> final(host)@.wf(),
            self.valid(final(host)@),
    {
        let ghost start = host@;
        let ghost idx = self.index as int;
        let mut k: usize = 0;
        while k < names.len()
            invariant
                k <= names.len(),
                start == old(host)@,
                idx == self.index as int,
                self.valid(host@),
                host@ == add_missing(start, idx, names.deep_view().take(k as int)),
                start.wf() ==> host@.wf(),
            decreases names.len() - k,
        {
            proof {
                let now = names.deep_view().take(k + 1);
                assert(now.drop_last() =~= names.deep_view().take(k as int));
            }
            if !self.nick_exists(host, &names[k]) {
                self.add_nick(host, &names[k]);
            }
            k += 1;
        }
        assert(names.deep_view().take(k as int) =~= names.deep_view());
        let ghost added = host@;
        let nicks = host.surfaces[self.index].nicks.clone();
        let mut j: usize = 0;
        while j < nicks.len()
            invariant
                j <= nicks.len(),
                start == old(host)@,
                idx == self.index as int,
                self.valid(host@),
                host@ == remove_stale(
                    added,
                    idx,
                    nicks.deep_view().take(j as int),
                    names.deep_view(),
                ),
                start.wf() ==> host@.wf(),
            decreases nicks.len() - j,
        {
            proof {
                let now = nicks.deep_view().take(j + 1);
                assert(now.drop_last() =~= nicks.deep_view().take(j as int));
            }
            if !contains_text(names, &nicks[j]) {
                self.remove_nick(host, &nicks[j]);
            }
            j += 1;
        }
        assert(nicks.deep_view().take(j as int) =~= nicks.deep_view());
    }
}

/// The position of a channel's buffer in the picture, or the number of
/// buffers if the channel has none.
pub open spec fn buffer_of(h: HostView, chan: ChannelRefView) -> int {
    surface_index(h.surfaces, surface_address(chan))
}

/// Setting up a buffer opens and closes no buffer and renames none.
pub proof fn lemma_synced_names(
    h: HostView,
    i: int,
    me: CurrentUserView,
    chan: ChannelRefView,
    opts: OptionsView,
)
    requires
        0 <= i < h.surfaces.len(),
    ensures
        same_names(h, synced(h, i, me, chan, opts)),
        same_names(h, roster_synced(h, i, chan, opts)),
        same_names(h, refreshed(h, i, me, chan, opts)),
{
    match chan {
        ChannelRefView::Public(server, _) => {
            let names = roster_names(server.members, opts);
            lemma_rostered_names(h, i, names);
            let h1 = h.set(i, "localvar_set_channelid"@, decimal(channel_ref_id(chan).0 as nat)).set(
                i,
                "short_name"@,
                channel_ref_display(
                    chan,
                    NameFormat { include_prefix: true, include_color: false },
                    opts,
                ),
            ).set(i, "title"@, "Channel Title"@).set(i, "type"@, "formatted"@);
            let h3 = h1.set(i, "localvar_set_type"@, "channel"@).set(i, "nicklist"@, "1"@).set(
                i,
                "localvar_set_nick"@,
                me.username,
            );
            lemma_rostered_names(h3, i, names);
            let r = rostered(h3, i, names);
            assert forall|k: int| 0 <= k < h.surfaces.len() implies (#[trigger] h.surfaces[k]).name
                == r.surfaces[k].name && h.surfaces[k].lines == r.surfaces[k].lines by {
            }
        },
        _ => {},
    }
}

/// The picture after the placeholder buffer of a server is looked for,
/// opened if there is none, and given its short name and kind.
pub open spec fn server_shown(h: HostView, server: ServerView, opts: OptionsView) -> HostView {
    let name = decimal(server.id.0 as nat);
    let h1 = if h.has(name) {
        h
    } else {
        h.opened(name)
    };
    h1.set(
        surface_index(h.surfaces, name),
        "short_name"@,
        server_display(server, NameFormat { include_prefix: true, include_color: false }, opts),
    ).set(surface_index(h.surfaces, name), "localvar_set_type"@, "server"@)
}

/// The channel that a buffer shows, judged by the buffer's name.
pub open spec fn channel_shown(s: StateView, name: Seq<char>) -> Option<ChannelRefView> {
    match parse_address(name) {
        Some((_, c)) => s.find_channel(ChannelId(c)),
        None => None,
    }
}

impl<'a> ChannelData<'a> {
    /// Brings the channel's roster into the nick list of its buffer.
    pub fn sync_roster(&self, host: &mut Host, opts: &Options)
        requires
            self.buffer.valid(old(host)@),
        ensures
            final(host)@ == roster_synced(
                old(host)@,
                self.buffer.index as int,
                self.channel@,
                opts@,
            ),
            old(host)@.wf() ==> final(host)@.wf(),
            self.buffer.valid(final(host)@),
    {
        if let ChannelRef::Public(server, _) = self.channel {
            let names = roster(&server.members, opts);
            self.buffer.set_roster(host, &names);
        }
    }

    /// Sets anew the properties of the buffer that may change over the
    /// channel's life.
    pub fn refresh(&self, host: &mut Host, opts: &Options)
        requires
            self.buffer.valid(old(host)@),
        ensures
            final(host)@ == refreshed(
                old(host)@,
                self.buffer.index as int,
                self.state@.user,
                self.channel@,
                opts@,
            ),
            old(host)@.wf() ==> final(host)@.wf(),
            self.buffer.valid(final(host)@),
    {
        let short = self.channel.name(&NameFormat::prefix(), opts);
        self.buffer.set(host, "short_name", short.as_str());
        if let ChannelRef::Public(_, _) = self.channel {
            self.buffer.set(host, "localvar_set_type", "channel");
        } else {
            self.buffer.set(host, "localvar_set_type", "private");
        }
        self.buffer.set(host, "localvar_set_nick", self.state.user().username.as_str());
    }

    /// Sets up the buffer of the channel: all its properties, then the
    /// roster.
    pub fn sync(&self, host: &mut Host, opts: &Options)
        requires
            self.buffer.valid(old(host)@),
        ensures
            final(host)@ == synced(
                old(host)@,
                self.buffer.index as int,
                self.state@.user,
                self.channel@,
                opts@,
            ),
            old(host)@.wf() ==> final(host)@.wf(),
            self.buffer.valid(final(host)@),
    {
        let id = decimal_string(self.channel.id().0);
        self.buffer.set(host, "localvar_set_channelid", id.as_str());
        let short = self.channel.name(&NameFormat::prefix(), opts);
        self.buffer.set(host, "short_name", short.as_str());
        self.buffer.set(host, "title", "Channel Title");
        self.buffer.set(host, "type", "formatted");
        if let ChannelRef::Public(_, _) = self.channel {
            self.buffer.set(host, "localvar_set_type", "channel");
            self.buffer.set(host, "nicklist", "1");
        } else {
            self.buffer.set(host, "localvar_set_type", "private");
        }
        self.buffer.set(host, "localvar_set_nick", self.state.user().username.as_str());
        self.sync_roster(host, opts);
    }

    /// The channel that a buffer shows.
    pub fn from_buffer(state: &'a State, host: &Host, buffer: Buffer) -> (r: Option<
        ChannelData<'a>,
    >)
        requires
            buffer.valid(host@),
        ensures
            match r {
                Some(d) => d.state@ == state@ && d.buffer == buffer && Some(d.channel@)
                    == channel_shown(state@, host@.surfaces[buffer.index as int].name),
                None => channel_shown(state@, host@.surfaces[buffer.index as int].name) is None,
            },
    {
        let ids = parse_name(host.surfaces[buffer.index].name.as_str());
        match ids {
            Some((_, c)) => match state.find_channel(ChannelId(c)) {
                Some(channel) => Some(ChannelData { state, channel, buffer }),
                None => None,
            },
            None => None,
        }
    }

    /// Finds the buffer of a channel, or opens one if `auto_open` is set. A
    /// buffer that exists is refreshed; a new one is set up in full. Voice
    /// channels have no buffer.
    pub fn from_channel(
        state: &'a State,
        host: &mut Host,
        channel: ChannelRef<'a>,
        auto_open: bool,
        opts: &Options,
    ) -> (r: Option<ChannelData<'a>>)
        ensures
            final(host)@ == ensured(old(host)@, state@.user, channel@, auto_open, opts@),
            r is Some <==> shown(old(host)@, channel@, auto_open),
            match r {
                Some(d) => d.state@ == state@ && d.channel@ == channel@ && d.buffer.valid(
                    final(host)@,
                ) && d.buffer.index == buffer_of(final(host)@, channel@),
                None => true,
            },
            old(host)@.wf() ==> final(host)@.wf(),
    {
        if let ChannelRef::Public(_, c) = channel {
            if let ChannelType::Voice = c.kind {
                return None;
            }
        }
        let (name_id, _) = local_surface_address(&channel, opts);
        match Buffer::search(host, &name_id) {
            Some(buffer) => {
                let result = ChannelData { state, channel, buffer };
                result.refresh(host, opts);
                Some(result)
            },
            None => {
                if !auto_open {
                    return None;
                }
                match Buffer::new(host, &name_id) {
                    Some(buffer) => {
                        let result = ChannelData { state, channel, buffer };
                        let ghost opened = host@;
                        result.sync(host, opts);
                        host.backfill(name_id, channel.id());
                        proof {
                            lemma_synced_names(
                                opened,
                                buffer.index as int,
                                state@.user,
                                channel@,
                                opts@,
                            );
                            lemma_surface_index(old(host)@.surfaces, name_id@);
                            assert forall|k: int| 0 <= k < buffer.index implies (
                            #[trigger] host@.surfaces[k]).name != name_id@ by {
                                assert(opened.surfaces[k].name == old(host)@.surfaces[k].name);
                            }
                            lemma_surface_index_is(host@.surfaces, name_id@, buffer.index as int);
                        }
                        Some(result)
                    },
                    None => None,
                }
            },
        }
    }

    /// Finds or opens the buffer for the channel of an event. Buffers of
    /// private channels and groups open by themselves; those of server
    /// channels do not.
    pub fn from_discord_event(
        state: &'a State,
        host: &mut Host,
        channel_id: ChannelId,
        opts: &Options,
    ) -> (r: Option<ChannelData<'a>>)
        ensures
            final(host)@ == match state@.find_channel(channel_id) {
                Some(c) => ensured(old(host)@, state@.user, c, !(c is Public), opts@),
                None => old(host)@,
            },
            r is Some <==> state@.find_channel(channel_id) is Some && shown(
                old(host)@,
                state@.find_channel(channel_id)->0,
                !(state@.find_channel(channel_id)->0 is Public),
            ),
            match r {
                Some(d) => d.state@ == state@ && Some(d.channel@) == state@.find_channel(
                    channel_id,
                ) && d.buffer.valid(final(host)@) && d.buffer.index == buffer_of(
                    final(host)@,
                    d.channel@,
                ),
                None => true,
            },
            old(host)@.wf() ==> final(host)@.wf(),
    {
        let channel_ref = match state.find_channel(channel_id) {
            Some(c) => c,
            None => {
                return None;
            },
        };
        let is_private = match channel_ref {
            ChannelRef::Public(_, _) => false,
            _ => true,
        };
        ChannelData::from_channel(state, host, channel_ref, is_private, opts)
    }

    /// Finds or opens the placeholder buffer of a server and gives it its
    /// short name.
    pub fn create_server(host: &mut Host, server: &LiveServer, opts: &Options)
        ensures
            final(host)@ == server_shown(old(host)@, server@, opts@),
            old(host)@.wf() ==> final(host)@.wf(),
    {
        let name_id = decimal_string(server.id.0);
        let buffer = match Buffer::search(host, &name_id) {
            Some(buffer) => buffer,
            None => {
                proof {
                    lemma_surface_index(old(host)@.surfaces, name_id@);
                }
                match Buffer::new(host, &name_id) {
                    Some(buffer) => buffer,
                    None => {
                        return ;
                    },
                }
            },
        };
        let short = server.name(&NameFormat::prefix(), opts);
        buffer.set(host, "short_name", short.as_str());
        buffer.set(host, "localvar_set_type", "server");
    }
}

/// Pictures that differ in nick lists and commands only are well formed
/// together.
pub proof fn lemma_same_names_wf(a: HostView, b: HostView)
    requires
        same_names(a, b),
        a.wf(),
    ensures
        b.wf(),
{
    assert forall|i: int, j: int|
        0 <= i < b.surfaces.len() && 0 <= j < b.surfaces.len() && i != j implies (
    #[trigger] b.surfaces[i]).name != (#[trigger] b.surfaces[j]).name by {
        assert(a.surfaces[i].name == b.surfaces[i].name);
        assert(a.surfaces[j].name == b.surfaces[j].name);
    }
    assert forall|i: int| 0 <= i < b.surfaces.len() implies (#[trigger] b.surfaces[i]).lines.len()
        <= HISTORY_WINDOW by {
        assert(a.surfaces[i].lines == b.surfaces[i].lines);
    }
}

/// Looking for a channel's buffer, and opening it where asked, keeps the
/// picture well formed.
pub proof fn lemma_ensured_wf(
    h: HostView,
    me: CurrentUserView,
    chan: ChannelRefView,
    auto_open: bool,
    opts: OptionsView,
)
    requires
        h.wf(),
    ensures
        ensured(h, me, chan, auto_open, opts).wf(),
{
    let name = surface_address(chan);
    lemma_surface_index(h.surfaces, name);
    if is_voice(chan) {
    } else if h.has(name) {
    } else if auto_open {
        let opened = h.opened(name);
        assert(opened.wf()) by {
            assert forall|i: int, j: int|
                0 <= i < opened.surfaces.len() && 0 <= j < opened.surfaces.len() && i
                    != j implies (#[trigger] opened.surfaces[i]).name != (
            #[trigger] opened.surfaces[j]).name by {
                if i < h.surfaces.len() {
                }
                if j < h.surfaces.len() {
                }
            }
            assert forall|i: int| 0 <= i < opened.surfaces.len() implies (
            #[trigger] opened.surfaces[i]).lines.len() <= HISTORY_WINDOW by {
                if i < h.surfaces.len() {
                }
            }
        }
        lemma_synced_names(opened, h.surfaces.len() as int, me, chan, opts);
        lemma_same_names_wf(opened, synced(opened, h.surfaces.len() as int, me, chan, opts));
    }
}

/// Asking twice for the buffer of a channel opens at most one: after the
/// first call the buffer exists, the second call finds it in the same place,
/// opens nothing, and only sets anew the properties that may change.
pub proof fn lemma_ensure_twice(
    h: HostView,
    me: CurrentUserView,
    chan: ChannelRefView,
    opts: OptionsView,
)
    requires
        !is_voice(chan),
    ensures
        ({
            let first = ensured(h, me, chan, true, opts);
            let second = ensured(first, me, chan, true, opts);
            &&& first.has(surface_address(chan))
            &&& first.surfaces.len() == if h.has(surface_address(chan)) {
                h.surfaces.len()
            } else {
                h.surfaces.len() + 1
            }
            &&& second == refreshed(first, buffer_of(first, chan), me, chan, opts)
            &&& second.surfaces == first.surfaces
            &&& buffer_of(second, chan) == buffer_of(first, chan)
        }),
{
    let name = surface_address(chan);
    lemma_surface_index(h.surfaces, name);
    if !h.has(name) {
        let opened = h.opened(name);
        let at = h.surfaces.len() as int;
        assert forall|k: int| 0 <= k < at implies (#[trigger] opened.surfaces[k]).name != name by {
        }
        lemma_surface_index_is(opened.surfaces, name, at);
        lemma_synced_names(opened, at, me, chan, opts);
        lemma_same_names(opened, synced(opened, at, me, chan, opts), name);
    }
}

/// What is left of a list after the entries equal to `item` are dropped:
/// the entries that differ from it.
pub proof fn lemma_drop_text(list: Seq<Seq<char>>, item: Seq<char>, x: Seq<char>)
    ensures
        drop_text(list, item).contains(x) <==> list.contains(x) && x != item,
    decreases list.len(),
{
    let d = drop_text(list, item);
    if list.len() > 0 {
        let init = list.drop_last();
        let di = drop_text(init, item);
        lemma_drop_text(init, item, x);
        if d.contains(x) {
            let k = choose|k: int| 0 <= k < d.len() && d[k] == x;
            if list.last() != item && k == d.len() - 1 {
            } else {
                let j = choose|j: int| 0 <= j < init.len() && init[j] == x;
            }
        }
        if list.contains(x) && x != item {
            let j = choose|j: int| 0 <= j < list.len() && list[j] == x;
            if j < init.len() {
                assert(init[j] == x);
                let k = choose|k: int| 0 <= k < di.len() && di[k] == x;
                assert(d[k] == x);
            } else {
                assert(d[d.len() - 1] == x);
            }
        }
    }
}

/// After missing names are added, the nick list holds what it held and the
/// names.
pub proof fn lemma_add_missing_set(h: HostView, i: int, names: Seq<Seq<char>>, x: Seq<char>)
    requires
        0 <= i < h.surfaces.len(),
    ensures
        add_missing(h, i, names).surfaces[i].nicks.contains(x) <==> h.surfaces[i].nicks.contains(x)
            || names.contains(x),
    decreases names.len(),
{
    if names.len() > 0 {
        let init = names.drop_last();
        lemma_add_missing_set(h, i, init, x);
        lemma_add_missing_names(h, i, init);
        let before = add_missing(h, i, init);
        let after = add_missing(h, i, names);
        if names.contains(x) {
            let j = choose|j: int| 0 <= j < names.len() && names[j] == x;
            if j < init.len() {
                assert(init[j] == x);
            }
        }
        if init.contains(x) {
            let j = choose|j: int| 0 <= j < init.len() && init[j] == x;
        }
        if !before.surfaces[i].nicks.contains(names.last()) {
            let nicks = before.surfaces[i].nicks;
            let grown = nicks.push(names.last());
            if grown.contains(x) {
                let k = choose|k: int| 0 <= k < grown.len() && grown[k] == x;
                if k < nicks.len() {
                }
            }
            if nicks.contains(x) {
                let k = choose|k: int| 0 <= k < nicks.len() && nicks[k] == x;
                assert(grown[k] == x);
            }
            assert(grown[grown.len() - 1] == names.last());
        }
    }
}

/// After stale entries are removed, the nick list holds what it held, less
/// those of the examined entries that are no name.
pub proof fn lemma_remove_stale_set(
    h: HostView,
    i: int,
    nicks: Seq<Seq<char>>,
    names: Seq<Seq<char>>,
    x: Seq<char>,
)
    requires
        0 <= i < h.surfaces.len(),
    ensures
        remove_stale(h, i, nicks, names).surfaces[i].nicks.contains(x) <==> h.surfaces[i].nicks.contains(
            x,
        ) && !(nicks.contains(x) && !names.contains(x)),
    decreases nicks.len(),
{
    if nicks.len() > 0 {
        let init = nicks.drop_last();
        lemma_remove_stale_set(h, i, init, names, x);
        lemma_remove_stale_names(h, i, init, names);
        let before = remove_stale(h, i, init, names);
        if nicks.contains(x) {
            let j = choose|j: int| 0 <= j < nicks.len() && nicks[j] == x;
            if j < init.len() {
                assert(init[j] == x);
            }
        }
        if init.contains(x) {
            let j = choose|j: int| 0 <= j < init.len() && init[j] == x;
        }
        if !names.contains(nicks.last()) {
            lemma_drop_text(before.surfaces[i].nicks, nicks.last(), x);
        }
    }
}

/// After a nick list is brought in step with names, it holds the names and
/// nothing else.
pub proof fn lemma_rostered_set(h: HostView, i: int, names: Seq<Seq<char>>)
    requires
        0 <= i < h.surfaces.len(),
    ensures
        forall|x: Seq<char>| #[trigger]
            rostered(h, i, names).surfaces[i].nicks.contains(x) <==> names.contains(x),
{
    let added = add_missing(h, i, names);
    lemma_add_missing_names(h, i, names);
    assert forall|x: Seq<char>| #[trigger]
        rostered(h, i, names).surfaces[i].nicks.contains(x) <==> names.contains(x) by {
        lemma_add_missing_set(h, i, names, x);
        lemma_remove_stale_set(added, i, added.surfaces[i].nicks, names, x);
    }
}

} // verus!

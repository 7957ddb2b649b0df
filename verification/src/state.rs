//! The mirror: what the session currently knows of the remote servers,
//! channels, members and roles.

use crate::keyed::{all_distinct, distinct, find_key, has_key, index_of, lemma_index_of, lookup};
use crate::keyed::Keyed;
use crate::types::{
    ChannelId, ChannelRef, ChannelRefView, CurrentUser, CurrentUserView, Group, GroupView,
    LiveServer, Member, PrivateChannel, PrivateChannelView, PublicChannel, Role, ServerId,
    ServerView,
};
use vstd::prelude::*;

verus! {

/// The mirror of the remote state.
#[derive(Debug, PartialEq, Eq)]
pub struct State {
    pub user: CurrentUser,
    pub servers: Vec<LiveServer>,
    pub private_channels: Vec<PrivateChannel>,
    pub groups: Vec<Group>,
}

/// What a [`State`] stands for in contracts.
pub struct StateView {
    pub user: CurrentUserView,
    pub servers: Seq<ServerView>,
    pub private_channels: Seq<PrivateChannelView>,
    pub groups: Seq<GroupView>,
}

impl View for State {
    type V = StateView;

    open spec fn view(&self) -> StateView {
        StateView {
            user: self.user@,
            servers: self.servers.deep_view(),
            private_channels: self.private_channels.deep_view(),
            groups: self.groups.deep_view(),
        }
    }
}

/// The first snapshot of the remote state, as the service sends it when a
/// session starts.
#[derive(Debug, PartialEq, Eq)]
pub struct ReadyEvent {
    pub user: CurrentUser,
    pub servers: Vec<LiveServer>,
    pub private_channels: Vec<PrivateChannel>,
    pub groups: Vec<Group>,
}

/// The state that a snapshot describes.
pub open spec fn snapshot_state(ready: ReadyEvent) -> StateView {
    StateView {
        user: ready.user@,
        servers: ready.servers.deep_view(),
        private_channels: ready.private_channels.deep_view(),
        groups: ready.groups.deep_view(),
    }
}

/// A snapshot in which two entities that must differ share an identifier.
#[derive(Clone, Copy, Debug, PartialEq, Eq, Structural)]
pub struct MalformedSnapshot;

/// Within one server no two channels, no two members and no two roles share
/// an identifier.
pub open spec fn server_wf(sv: ServerView) -> bool {
    &&& distinct::<PublicChannel>(sv.channels)
    &&& distinct::<Member>(sv.members)
    &&& distinct::<Role>(sv.roles)
}

/// Whether a channel with the identifier is known outside the server at
/// position `skip`: in another server, among the private channels or among
/// the groups.
pub open spec fn known_outside(s: StateView, skip: int, id: u64) -> bool {
    ||| in_servers(s.servers, skip, id)
    ||| has_key::<PrivateChannel>(s.private_channels, id)
    ||| has_key::<Group>(s.groups, id)
}

/// Whether a server other than the one at position `skip` has a channel with
/// the identifier.
pub open spec fn in_servers(servers: Seq<ServerView>, skip: int, id: u64) -> bool {
    exists|j: int|
        0 <= j < servers.len() && j != skip && has_key::<PublicChannel>(
            #[trigger] servers[j].channels,
            id,
        )
}

/// Whether a channel with the identifier is known anywhere in the mirror.
pub open spec fn known_channel(s: StateView, id: u64) -> bool {
    known_outside(s, -1, id)
}

/// The position of the first server that has a channel with the identifier,
/// or the number of servers if none has.
pub open spec fn server_holding(servers: Seq<ServerView>, id: u64) -> int
    decreases servers.len(),
{
    if servers.len() == 0 {
        0
    } else if has_key::<PublicChannel>(servers[0].channels, id) {
        0
    } else {
        1 + server_holding(servers.skip(1), id)
    }
}

impl StateView {
    /// The invariant of the mirror: servers differ in their identifiers, so
    /// do the members, the roles and the channels within each server, and no
    /// channel identifier occurs in two places of the mirror.
    pub open spec fn wf(self) -> bool {
        &&& distinct::<LiveServer>(self.servers)
        &&& distinct::<PrivateChannel>(self.private_channels)
        &&& distinct::<Group>(self.groups)
        &&& forall|i: int| 0 <= i < self.servers.len() ==> server_wf(#[trigger] self.servers[i])
        &&& forall|i: int, id: u64|
            0 <= i < self.servers.len() && has_key::<PublicChannel>(
                #[trigger] self.servers[i].channels,
                id,
            ) ==> !#[trigger] known_outside(self, i, id)
        &&& forall|id: u64| #[trigger]
            has_key::<PrivateChannel>(self.private_channels, id) ==> !has_key::<Group>(
                self.groups,
                id,
            )
    }

    /// The channel with the identifier: in the first server that has one,
    /// else among the private channels, else among the groups.
    pub open spec fn find_channel(self, id: ChannelId) -> Option<ChannelRefView> {
        let i = server_holding(self.servers, id.0);
        if i < self.servers.len() {
            Some(
                ChannelRefView::Public(
                    self.servers[i],
                    self.servers[i].channels[index_of::<PublicChannel>(
                        self.servers[i].channels,
                        id.0,
                    )],
                ),
            )
        } else if has_key::<PrivateChannel>(self.private_channels, id.0) {
            Some(
                ChannelRefView::Private(
                    self.private_channels[index_of::<PrivateChannel>(self.private_channels, id.0)],
                ),
            )
        } else if has_key::<Group>(self.groups, id.0) {
            Some(ChannelRefView::Group(self.groups[index_of::<Group>(self.groups, id.0)]))
        } else {
            None
        }
    }

    /// The first server with the identifier.
    pub open spec fn find_server(self, id: ServerId) -> Option<ServerView> {
        lookup::<LiveServer>(self.servers, id.0)
    }
}

/// The view of an optional channel reference.
pub open spec fn opt_channel_ref(r: Option<ChannelRef>) -> Option<ChannelRefView> {
    match r {
        Some(c) => Some(c@),
        None => None,
    }
}

/// The view of an optional server.
pub open spec fn opt_server(r: Option<&LiveServer>) -> Option<ServerView> {
    match r {
        Some(s) => Some(s@),
        None => None,
    }
}

/// What `server_holding` finds: a position within the list or its length; at
/// a position within, the server has the channel; no server before it has.
pub proof fn lemma_server_holding(servers: Seq<ServerView>, id: u64)
    ensures
        0 <= server_holding(servers, id) <= servers.len(),
        server_holding(servers, id) < servers.len() ==> has_key::<PublicChannel>(
            servers[server_holding(servers, id)].channels,
            id,
        ),
        forall|k: int|
            0 <= k < server_holding(servers, id) ==> !has_key::<PublicChannel>(
                #[trigger] servers[k].channels,
                id,
            ),
    decreases servers.len(),
{
    if servers.len() == 0 {
    } else if has_key::<PublicChannel>(servers[0].channels, id) {
    } else {
        let rest = servers.skip(1);
        lemma_server_holding(rest, id);
        let r = server_holding(rest, id);
        if r < rest.len() {
        }
        assert forall|k: int| 0 <= k < 1 + r implies !has_key::<PublicChannel>(
            #[trigger] servers[k].channels,
            id,
        ) by {
            if k > 0 {
                assert(rest[k - 1] == servers[k]);
            }
        }
    }
}

/// The first position whose server has the channel is what `server_holding`
/// finds.
pub proof fn lemma_server_holding_is(servers: Seq<ServerView>, id: u64, i: int)
    requires
        0 <= i <= servers.len(),
        i < servers.len() ==> has_key::<PublicChannel>(servers[i].channels, id),
        forall|k: int| 0 <= k < i ==> !has_key::<PublicChannel>(#[trigger] servers[k].channels, id),
    ensures
        server_holding(servers, id) == i,
{
    lemma_server_holding(servers, id);
    let j = server_holding(servers, id);
    if j < i {
    } else if i < j {
    }
}

impl State {
    /// The account that the session is signed in as.
    pub fn user(&self) -> (r: &CurrentUser)
        ensures
            r@ == self@.user,
    {
        &self.user
    }

    /// The servers of the mirror.
    pub fn servers(&self) -> (r: &Vec<LiveServer>)
        ensures
            r.deep_view() == self@.servers,
    {
        &self.servers
    }

    /// The private channels of the mirror.
    pub fn private_channels(&self) -> (r: &Vec<PrivateChannel>)
        ensures
            r.deep_view() == self@.private_channels,
    {
        &self.private_channels
    }

    /// The groups of the mirror.
    pub fn groups(&self) -> (r: &Vec<Group>)
        ensures
            r.deep_view() == self@.groups,
    {
        &self.groups
    }

    /// Whether a channel with the identifier is known outside the server at
    /// position `skip`. A `skip` that is no position leaves no server out.
    pub fn knows_outside(&self, skip: usize, id: u64) -> (r: bool)
        ensures
            r == known_outside(self@, skip as int, id),
            skip >= self.servers.len() ==> r == known_channel(self@, id),
    {
        if self.held_elsewhere(skip, id) {
            return true;
        }
        if let Some(_) = find_key(&self.private_channels, id) {
            return true;
        }
        if let Some(_) = find_key(&self.groups, id) {
            return true;
        }
        false
    }

    /// Whether a server other than the one at position `skip` has a channel
    /// with the identifier. A `skip` that is no position leaves no server out.
    pub fn held_elsewhere(&self, skip: usize, id: u64) -> (r: bool)
        ensures
            r == in_servers(self@.servers, skip as int, id),
            skip >= self.servers.len() ==> r == in_servers(self@.servers, -1, id),
    {
        let mut j: usize = 0;
        while j < self.servers.len()
            invariant
                j <= self.servers.len(),
                forall|k: int|
                    0 <= k < j && k != skip ==> !has_key::<PublicChannel>(
                        #[trigger] self@.servers[k].channels,
                        id,
                    ),
            decreases self.servers.len() - j,
        {
            if j != skip {
                if let Some(_) = find_key(&self.servers[j].channels, id) {
                    proof {
                        lemma_index_of::<PublicChannel>(self@.servers[j as int].channels, id);
                    }
                    return true;
                }
            }
            j += 1;
        }
        false
    }

    /// The channel with the identifier, with its server where it has one.
    pub fn find_channel(&self, id: ChannelId) -> (r: Option<ChannelRef<'_>>)
        ensures
            opt_channel_ref(r) == self@.find_channel(id),
    {
        let mut i: usize = 0;
        while i < self.servers.len()
            invariant
                i <= self.servers.len(),
                forall|k: int|
                    0 <= k < i ==> !has_key::<PublicChannel>(
                        #[trigger] self@.servers[k].channels,
                        id.0,
                    ),
            decreases self.servers.len() - i,
        {
            if let Some(a) = find_key(&self.servers[i].channels, id.0) {
                proof {
                    lemma_server_holding_is(self@.servers, id.0, i as int);
                }
                return Some(ChannelRef::Public(&self.servers[i], &self.servers[i].channels[a]));
            }
            i += 1;
        }
        proof {
            lemma_server_holding_is(self@.servers, id.0, self.servers.len() as int);
        }
        if let Some(p) = find_key(&self.private_channels, id.0) {
            return Some(ChannelRef::Private(&self.private_channels[p]));
        }
        if let Some(g) = find_key(&self.groups, id.0) {
            return Some(ChannelRef::Group(&self.groups[g]));
        }
        None
    }
}

/// A record of the list with the key makes the key one that the list holds.
pub proof fn lemma_holds_key<T: Keyed>(s: Seq<T::V>, k: int)
    requires
        0 <= k < s.len(),
    ensures
        has_key::<T>(s, T::key_of(s[k])),
{
    lemma_index_of::<T>(s, T::key_of(s[k]));
}

impl LiveServer {
    /// Whether no two channels, members or roles of the server share an
    /// identifier.
    pub fn is_wf(&self) -> (r: bool)
        ensures
            r == server_wf(self@),
    {
        all_distinct(&self.channels) && all_distinct(&self.members) && all_distinct(&self.roles)
    }
}

impl State {
    /// Whether the mirror's invariant holds.
    pub fn is_wf(&self) -> (r: bool)
        ensures
            r == self@.wf(),
    {
        if !all_distinct(&self.servers) || !all_distinct(&self.private_channels) || !all_distinct(
            &self.groups,
        ) {
            return false;
        }
        let mut i: usize = 0;
        while i < self.servers.len()
            invariant
                i <= self.servers.len(),
                forall|k: int| 0 <= k < i ==> server_wf(#[trigger] self@.servers[k]),
                forall|k: int, id: u64|
                    0 <= k < i && has_key::<PublicChannel>(
                        #[trigger] self@.servers[k].channels,
                        id,
                    ) ==> !#[trigger] known_outside(self@, k, id),
            decreases self.servers.len() - i,
        {
            if !self.servers[i].is_wf() {
                assert(!server_wf(self@.servers[i as int]));
                return false;
            }
            let mut a: usize = 0;
            while a < self.servers[i].channels.len()
                invariant
                    i < self.servers.len(),
                    a <= self.servers[i as int].channels.len(),
                    forall|b: int|
                        0 <= b < a ==> !known_outside(
                            self@,
                            i as int,
                            PublicChannel::key_of(
                                #[trigger] self@.servers[i as int].channels[b],
                            ),
                        ),
                decreases self.servers[i as int].channels.len() - a,
            {
                let id = self.servers[i].channels[a].id.0;
                if self.knows_outside(i, id) {
                    proof {
                        lemma_holds_key::<PublicChannel>(
                            self@.servers[i as int].channels,
                            a as int,
                        );
                    }
                    return false;
                }
                a += 1;
            }
            proof {
                assert forall|id: u64|
                    has_key::<PublicChannel>(
                        self@.servers[i as int].channels,
                        id,
                    ) implies !known_outside(self@, i as int, id) by {
                    lemma_index_of::<PublicChannel>(self@.servers[i as int].channels, id);
                }
            }
            i += 1;
        }
        let mut p: usize = 0;
        while p < self.private_channels.len()
            invariant
                p <= self.private_channels.len(),
                forall|b: int|
                    0 <= b < p ==> !has_key::<Group>(
                        self@.groups,
                        PrivateChannel::key_of(#[trigger] self@.private_channels[b]),
                    ),
            decreases self.private_channels.len() - p,
        {
            if let Some(_) = find_key(&self.groups, self.private_channels[p].id.0) {
                proof {
                    lemma_holds_key::<PrivateChannel>(self@.private_channels, p as int);
                }
                return false;
            }
            p += 1;
        }
        proof {
            assert forall|id: u64| #[trigger]
                has_key::<PrivateChannel>(self@.private_channels, id) implies !has_key::<Group>(
                self@.groups,
                id,
            ) by {
                lemma_index_of::<PrivateChannel>(self@.private_channels, id);
            }
        }
        true
    }

    /// The mirror that a snapshot describes, if the snapshot is well formed.
    pub fn new(ready: ReadyEvent) -> (r: Result<State, MalformedSnapshot>)
        ensures
            match r {
                Ok(s) => s@ == snapshot_state(ready) && s@.wf(),
                Err(_) => !snapshot_state(ready).wf(),
            },
    {
        let state = State {
            user: ready.user,
            servers: ready.servers,
            private_channels: ready.private_channels,
            groups: ready.groups,
        };
        if state.is_wf() {
            Ok(state)
        } else {
            Err(MalformedSnapshot)
        }
    }
}

/// The identifiers of a server and of what it holds: the server's own, then
/// those of its channels, of its members and of its roles.
pub open spec fn server_ids(sv: ServerView) -> Seq<u64> {
    seq![sv.id.0] + Seq::new(sv.channels.len(), |i: int| sv.channels[i].id.0) + Seq::new(
        sv.members.len(),
        |i: int| sv.members[i].user.id.0,
    ) + Seq::new(sv.roles.len(), |i: int| sv.roles[i].id.0)
}

/// The identifiers of the servers, one server after the other.
pub open spec fn servers_ids(servers: Seq<ServerView>) -> Seq<u64>
    decreases servers.len(),
{
    if servers.len() == 0 {
        Seq::empty()
    } else {
        servers_ids(servers.drop_last()) + server_ids(servers.last())
    }
}

/// The identifiers of the groups and their recipients.
pub open spec fn groups_ids(groups: Seq<GroupView>) -> Seq<u64>
    decreases groups.len(),
{
    if groups.len() == 0 {
        Seq::empty()
    } else {
        groups_ids(groups.drop_last()) + seq![groups.last().channel_id.0] + Seq::new(
            groups.last().recipients.len(),
            |i: int| groups.last().recipients[i].id.0,
        )
    }
}

/// The identifiers of the private channels, each followed by that of its
/// recipient.
pub open spec fn privates_ids(privates: Seq<PrivateChannelView>) -> Seq<u64> {
    Seq::new(
        2 * privates.len(),
        |i: int|
            if i % 2 == 0 {
                privates[i / 2].id.0
            } else {
                privates[i / 2].recipient.id.0
            },
    )
}

/// Every identifier in the mirror under which a name could be configured:
/// the user's own, then those of the servers, of the private channels and of
/// the groups.
pub open spec fn entity_ids(s: StateView) -> Seq<u64> {
    seq![s.user.id.0] + servers_ids(s.servers) + privates_ids(s.private_channels) + groups_ids(
        s.groups,
    )
}

impl LiveServer {
    /// Appends the identifiers of the server and of what it holds.
    pub fn push_ids(&self, out: &mut Vec<u64>)
        ensures
            final(out)@ == old(out)@ + server_ids(self@),
    {
        out.push(self.id.0);
        let ghost base = out@;
        let mut i: usize = 0;
        while i < self.channels.len()
            invariant
                i <= self.channels.len(),
                out@ == base + Seq::new(i as nat, |k: int| self@.channels[k].id.0),
            decreases self.channels.len() - i,
        {
            out.push(self.channels[i].id.0);
            i += 1;
        }
        let ghost base2 = out@;
        let mut j: usize = 0;
        while j < self.members.len()
            invariant
                j <= self.members.len(),
                out@ == base2 + Seq::new(j as nat, |k: int| self@.members[k].user.id.0),
            decreases self.members.len() - j,
        {
            out.push(self.members[j].user.id.0);
            j += 1;
        }
        let ghost base3 = out@;
        let mut r: usize = 0;
        while r < self.roles.len()
            invariant
                r <= self.roles.len(),
                out@ == base3 + Seq::new(r as nat, |k: int| self@.roles[k].id.0),
            decreases self.roles.len() - r,
        {
            out.push(self.roles[r].id.0);
            r += 1;
        }
    }
}

impl State {
    /// Every identifier in the mirror under which a name could be
    /// configured.
    pub fn entity_ids(&self) -> (r: Vec<u64>)
        ensures
            r@ == entity_ids(self@),
    {
        let mut out: Vec<u64> = Vec::new();
        out.push(self.user.id.0);
        let ghost head = out@;
        let mut i: usize = 0;
        while i < self.servers.len()
            invariant
                i <= self.servers.len(),
                out@ == head + servers_ids(self@.servers.take(i as int)),
            decreases self.servers.len() - i,
        {
            proof {
                let now = self@.servers.take(i + 1);
                assert(now.drop_last() =~= self@.servers.take(i as int));
            }
            self.servers[i].push_ids(&mut out);
            i += 1;
        }
        assert(self@.servers.take(i as int) =~= self@.servers);
        let ghost base = out@;
        let mut p: usize = 0;
        while p < self.private_channels.len()
            invariant
                p <= self.private_channels.len(),
                out@ == base + privates_ids(self@.private_channels.take(p as int)),
            decreases self.private_channels.len() - p,
        {
            out.push(self.private_channels[p].id.0);
            out.push(self.private_channels[p].recipient.id.0);
            p += 1;
        }
        let ghost base2 = out@;
        let mut g: usize = 0;
        while g < self.groups.len()
            invariant
                g <= self.groups.len(),
                out@ == base2 + groups_ids(self@.groups.take(g as int)),
            decreases self.groups.len() - g,
        {
            proof {
                let now = self@.groups.take(g + 1);
                assert(now.drop_last() =~= self@.groups.take(g as int));
            }
            let group = &self.groups[g];
            out.push(group.channel_id.0);
            let ghost start = out@;
            let mut k: usize = 0;
            while k < group.recipients.len()
                invariant
                    k <= group.recipients.len(),
                    out@ == start + Seq::new(k as nat, |x: int| group@.recipients[x].id.0),
                decreases group.recipients.len() - k,
            {
                out.push(group.recipients[k].id.0);
                k += 1;
            }
            g += 1;
        }
        assert(self@.groups.take(g as int) =~= self@.groups);
        out
    }
}

} // verus!

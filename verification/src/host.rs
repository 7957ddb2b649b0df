//! The library's picture of the client: the buffers that the bridge has
//! opened there, with their nick lists and the lines printed to them, and the
//! commands that the driver still has to carry out on the real client.

use crate::text::{join, join_text, push_str, to_text};
use crate::types::{ChannelId, UserId};
use vstd::prelude::*;
use vstd::string::*;

verus! {

/// The number of printed lines that a buffer keeps for later look-ups.
pub const HISTORY_WINDOW: usize = 100;

/// A printed line: its tags, its prefix column and its text.
#[derive(Debug, PartialEq, Eq)]
pub struct Line {
    pub tags: Vec<String>,
    pub prefix: String,
    pub message: String,
}

/// What a [`Line`] stands for in contracts.
pub struct LineView {
    pub tags: Seq<Seq<char>>,
    pub prefix: Seq<char>,
    pub message: Seq<char>,
}

impl View for Line {
    type V = LineView;

    open spec fn view(&self) -> LineView {
        LineView { tags: self.tags.deep_view(), prefix: self.prefix@, message: self.message@ }
    }
}

impl DeepView for Line {
    type V = LineView;

    open spec fn deep_view(&self) -> LineView {
        self@
    }
}

/// One buffer of the client.
#[derive(Debug, PartialEq, Eq)]
pub struct Surface {
    pub name: String,
    pub nicks: Vec<String>,
    pub lines: Vec<Line>,
}

/// What a [`Surface`] stands for in contracts.
pub struct SurfaceView {
    pub name: Seq<char>,
    pub nicks: Seq<Seq<char>>,
    pub lines: Seq<LineView>,
}

impl View for Surface {
    type V = SurfaceView;

    open spec fn view(&self) -> SurfaceView {
        SurfaceView {
            name: self.name@,
            nicks: self.nicks.deep_view(),
            lines: self.lines.deep_view(),
        }
    }
}

impl DeepView for Surface {
    type V = SurfaceView;

    open spec fn deep_view(&self) -> SurfaceView {
        self@
    }
}

/// Something for the driver to do. A buffer is named by its address; the
/// empty name stands for the client's main buffer.
#[derive(Debug, PartialEq, Eq)]
pub enum Command {
    /// Open a buffer and bind its input to the bridge.
    BufferNew { name: String },
    /// Set a property of a buffer.
    BufferSet { name: String, property: String, value: String },
    /// Add an entry to the nick list of a buffer.
    NickAdd { name: String, nick: String },
    /// Remove an entry from the nick list of a buffer.
    NickRemove { name: String, nick: String },
    /// Print a line with tags; `tags` are joined by commas, and a tab parts
    /// the prefix column from the text in `message`.
    PrintTags { name: String, tags: String, message: String },
    /// Print a plain line.
    Print { name: String, message: String },
    /// Send a message to a channel of the service; where `strip_colors` is
    /// set, without the colour codes that the text holds.
    SendMessage { channel: ChannelId, text: String, strip_colors: bool },
    /// Ask the service for a private channel with a user.
    OpenPrivate { user: UserId },
    /// Fetch the recent messages of a channel for its newly opened buffer.
    Backfill { name: String, channel: ChannelId },
}

/// What a [`Command`] stands for in contracts.
pub enum CommandView {
    BufferNew { name: Seq<char> },
    BufferSet { name: Seq<char>, property: Seq<char>, value: Seq<char> },
    NickAdd { name: Seq<char>, nick: Seq<char> },
    NickRemove { name: Seq<char>, nick: Seq<char> },
    PrintTags { name: Seq<char>, tags: Seq<char>, message: Seq<char> },
    Print { name: Seq<char>, message: Seq<char> },
    SendMessage { channel: ChannelId, text: Seq<char>, strip_colors: bool },
    OpenPrivate { user: UserId },
    Backfill { name: Seq<char>, channel: ChannelId },
}

impl View for Command {
    type V = CommandView;

    open spec fn view(&self) -> CommandView {
        match self {
            Command::BufferNew { name } => CommandView::BufferNew { name: name@ },
            Command::BufferSet { name, property, value } => CommandView::BufferSet {
                name: name@,
                property: property@,
                value: value@,
            },
            Command::NickAdd { name, nick } => CommandView::NickAdd { name: name@, nick: nick@ },
            Command::NickRemove { name, nick } => CommandView::NickRemove {
                name: name@,
                nick: nick@,
            },
            Command::PrintTags { name, tags, message } => CommandView::PrintTags {
                name: name@,
                tags: tags@,
                message: message@,
            },
            Command::Print { name, message } => CommandView::Print {
                name: name@,
                message: message@,
            },
            Command::SendMessage { channel, text, strip_colors } => CommandView::SendMessage {
                channel: *channel,
                text: text@,
                strip_colors: *strip_colors,
            },
            Command::OpenPrivate { user } => CommandView::OpenPrivate { user: *user },
            Command::Backfill { name, channel } => CommandView::Backfill {
                name: name@,
                channel: *channel,
            },
        }
    }
}

impl DeepView for Command {
    type V = CommandView;

    open spec fn deep_view(&self) -> CommandView {
        self@
    }
}

/// The buffers that are open, and the commands not yet handed to the driver.
/// The first buffer is the client's main buffer.
#[derive(Debug, PartialEq, Eq)]
pub struct Host {
    pub surfaces: Vec<Surface>,
    pub commands: Vec<Command>,
}

/// What a [`Host`] stands for in contracts.
pub struct HostView {
    pub surfaces: Seq<SurfaceView>,
    pub commands: Seq<CommandView>,
}

impl View for Host {
    type V = HostView;

    open spec fn view(&self) -> HostView {
        HostView { surfaces: self.surfaces.deep_view(), commands: self.commands.deep_view() }
    }
}

/// The position of the first buffer with the name, or the number of buffers
/// if none has it.
pub open spec fn surface_index(surfaces: Seq<SurfaceView>, name: Seq<char>) -> int
    decreases surfaces.len(),
{
    if surfaces.len() == 0 {
        0
    } else if surfaces[0].name == name {
        0
    } else {
        1 + surface_index(surfaces.skip(1), name)
    }
}

/// What `surface_index` finds: a position within the list or its length; at
/// a position within, the buffer has the name; no buffer before it has.
pub proof fn lemma_surface_index(surfaces: Seq<SurfaceView>, name: Seq<char>)
    ensures
        0 <= surface_index(surfaces, name) <= surfaces.len(),
        surface_index(surfaces, name) < surfaces.len() ==> surfaces[surface_index(
            surfaces,
            name,
        )].name == name,
        forall|k: int|
            0 <= k < surface_index(surfaces, name) ==> (#[trigger] surfaces[k]).name != name,
    decreases surfaces.len(),
{
    if surfaces.len() == 0 {
    } else if surfaces[0].name == name {
    } else {
        let rest = surfaces.skip(1);
        lemma_surface_index(rest, name);
        let r = surface_index(rest, name);
        if r < rest.len() {
        }
        assert forall|k: int| 0 <= k < 1 + r implies (#[trigger] surfaces[k]).name != name by {
            if k > 0 {
                assert(rest[k - 1] == surfaces[k]);
            }
        }
    }
}

/// The first position whose buffer has the name is what `surface_index`
/// finds.
pub proof fn lemma_surface_index_is(surfaces: Seq<SurfaceView>, name: Seq<char>, i: int)
    requires
        0 <= i <= surfaces.len(),
        i < surfaces.len() ==> surfaces[i].name == name,
        forall|k: int| 0 <= k < i ==> (#[trigger] surfaces[k]).name != name,
    ensures
        surface_index(surfaces, name) == i,
{
    lemma_surface_index(surfaces, name);
    let j = surface_index(surfaces, name);
    if j < i {
        assert(surfaces[j].name != name);
    } else if i < j {
        assert(surfaces[i].name != name);
    }
}

/// The list without the entries equal to `item`.
pub open spec fn drop_text(list: Seq<Seq<char>>, item: Seq<char>) -> Seq<Seq<char>>
    decreases list.len(),
{
    if list.len() == 0 {
        list
    } else if list.last() == item {
        drop_text(list.drop_last(), item)
    } else {
        drop_text(list.drop_last(), item).push(list.last())
    }
}

/// The last `n` items of a sequence, or all of it if it is shorter.
pub open spec fn last_n<T>(s: Seq<T>, n: nat) -> Seq<T> {
    if s.len() <= n {
        s
    } else {
        s.skip(s.len() - n)
    }
}

impl HostView {
    /// The invariant of the picture: the main buffer exists, no two buffers
    /// share a name, and no buffer keeps more lines than the window.
    pub open spec fn wf(self) -> bool {
        &&& self.surfaces.len() >= 1
        &&& forall|i: int, j: int|
            0 <= i < self.surfaces.len() && 0 <= j < self.surfaces.len() && i != j ==> (
            #[trigger] self.surfaces[i]).name != (#[trigger] self.surfaces[j]).name
        &&& forall|i: int|
            0 <= i < self.surfaces.len() ==> (#[trigger] self.surfaces[i]).lines.len()
                <= HISTORY_WINDOW
    }

    /// Whether a buffer with the name is open.
    pub open spec fn has(self, name: Seq<char>) -> bool {
        surface_index(self.surfaces, name) < self.surfaces.len()
    }

    /// The picture with one more command for the driver.
    pub open spec fn emit(self, c: CommandView) -> HostView {
        HostView { commands: self.commands.push(c), ..self }
    }

    /// The picture with the buffer at position `i` replaced.
    pub open spec fn with_surface(self, i: int, sv: SurfaceView) -> HostView {
        HostView { surfaces: self.surfaces.update(i, sv), ..self }
    }

    /// The picture after a buffer with the name is opened.
    pub open spec fn opened(self, name: Seq<char>) -> HostView {
        HostView {
            surfaces: self.surfaces.push(
                SurfaceView { name, nicks: Seq::empty(), lines: Seq::empty() },
            ),
            commands: self.commands.push(CommandView::BufferNew { name }),
        }
    }

    /// The picture after a property of the buffer at position `i` is set.
    pub open spec fn set(self, i: int, property: Seq<char>, value: Seq<char>) -> HostView {
        self.emit(CommandView::BufferSet { name: self.surfaces[i].name, property, value })
    }

    /// The picture after a nick is added to the buffer at position `i`.
    pub open spec fn nick_added(self, i: int, nick: Seq<char>) -> HostView {
        let sv = self.surfaces[i];
        self.with_surface(i, SurfaceView { nicks: sv.nicks.push(nick), ..sv }).emit(
            CommandView::NickAdd { name: sv.name, nick },
        )
    }

    /// The picture after a nick is removed from the buffer at position `i`.
    pub open spec fn nick_removed(self, i: int, nick: Seq<char>) -> HostView {
        let sv = self.surfaces[i];
        self.with_surface(i, SurfaceView { nicks: drop_text(sv.nicks, nick), ..sv }).emit(
            CommandView::NickRemove { name: sv.name, nick },
        )
    }

    /// The picture after a tagged line is printed to the buffer at position
    /// `i`: the buffer keeps the line, and of the lines before it as many as
    /// the window still has room for.
    pub open spec fn printed(self, i: int, line: LineView) -> HostView {
        let sv = self.surfaces[i];
        self.with_surface(
            i,
            SurfaceView { lines: last_n(sv.lines.push(line), HISTORY_WINDOW as nat), ..sv },
        ).emit(
            CommandView::PrintTags {
                name: sv.name,
                tags: join_text(line.tags, seq![',']),
                message: line.prefix + seq!['\t'] + line.message,
            },
        )
    }

    /// The picture after a plain line is printed to the buffer at position
    /// `i`.
    pub open spec fn noted(self, i: int, message: Seq<char>) -> HostView {
        self.emit(CommandView::Print { name: self.surfaces[i].name, message })
    }
}

/// A handle on one buffer of the picture.
#[derive(Clone, Copy, Debug, PartialEq, Eq, Structural)]
pub struct Buffer {
    pub index: usize,
}

impl Buffer {
    /// Whether the handle points at a buffer of the picture.
    pub open spec fn valid(self, h: HostView) -> bool {
        self.index < h.surfaces.len()
    }
}

impl Host {
    /// A picture with the main buffer only and nothing to do.
    pub fn new() -> (r: Host)
        ensures
            r@.wf(),
            r@.surfaces.len() == 1,
            r@.surfaces[0] == (SurfaceView {
                name: Seq::empty(),
                nicks: Seq::empty(),
                lines: Seq::empty(),
            }),
            r@.commands.len() == 0,
    {
        let mut surfaces: Vec<Surface> = Vec::new();
        surfaces.push(Surface { name: String::new(), nicks: Vec::new(), lines: Vec::new() });
        let r = Host { surfaces, commands: Vec::new() };
        assert(r@.surfaces[0].nicks =~= Seq::empty());
        assert(r@.surfaces[0].lines =~= Seq::empty());
        r
    }

    /// Whether the picture's invariant holds.
    pub fn is_wf(&self) -> (r: bool)
        ensures
            r == self@.wf(),
    {
        if self.surfaces.len() == 0 {
            return false;
        }
        let mut i: usize = 0;
        while i < self.surfaces.len()
            invariant
                i <= self.surfaces.len(),
                forall|a: int, b: int|
                    0 <= a < i && a < b < self.surfaces.len() ==> (#[trigger] self@.surfaces[a]).name
                        != (#[trigger] self@.surfaces[b]).name,
                forall|a: int| 0 <= a < i ==> (#[trigger] self@.surfaces[a]).lines.len()
                    <= HISTORY_WINDOW,
            decreases self.surfaces.len() - i,
        {
            if self.surfaces[i].lines.len() > HISTORY_WINDOW {
                assert(self@.surfaces[i as int].lines.len() > HISTORY_WINDOW);
                return false;
            }
            let mut j: usize = i + 1;
            while j < self.surfaces.len()
                invariant
                    i < j <= self.surfaces.len(),
                    forall|b: int|
                        i < b < j ==> self@.surfaces[i as int].name != (
                        #[trigger] self@.surfaces[b]).name,
                decreases self.surfaces.len() - j,
            {
                if self.surfaces[i].name == self.surfaces[j].name {
                    assert(self@.surfaces[i as int].name == self@.surfaces[j as int].name);
                    return false;
                }
                j += 1;
            }
            i += 1;
        }
        assert forall|a: int, b: int|
            0 <= a < self@.surfaces.len() && 0 <= b < self@.surfaces.len() && a != b implies (
        #[trigger] self@.surfaces[a]).name != (#[trigger] self@.surfaces[b]).name by {
            if a < b {
            } else {
            }
        }
        true
    }

    /// Hands the pending commands to the driver, oldest first.
    pub fn take_commands(&mut self) -> (r: Vec<Command>)
        ensures
            r.deep_view() == old(self)@.commands,
            final(self)@ == (HostView { commands: Seq::empty(), ..old(self)@ }),
    {
        let mut out: Vec<Command> = Vec::new();
        std::mem::swap(&mut self.commands, &mut out);
        assert(self@.commands =~= Seq::empty());
        out
    }

    /// Asks the driver to send a message to a channel of the service.
    pub fn send(&mut self, channel: ChannelId, text: String, strip_colors: bool)
        ensures
            final(self)@ == old(self)@.emit(
                CommandView::SendMessage { channel, text: text@, strip_colors },
            ),
            old(self)@.wf() ==> final(self)@.wf(),
    {
        self.commands.push(Command::SendMessage { channel, text, strip_colors });
        assert(self@.commands =~= old(self)@.commands.push(
            CommandView::SendMessage { channel, text: text@, strip_colors },
        ));
    }

    /// Asks the driver to have the service open a private channel with a
    /// user.
    pub fn open_private(&mut self, user: UserId)
        ensures
            final(self)@ == old(self)@.emit(CommandView::OpenPrivate { user }),
            old(self)@.wf() ==> final(self)@.wf(),
    {
        self.commands.push(Command::OpenPrivate { user });
        assert(self@.commands =~= old(self)@.commands.push(CommandView::OpenPrivate { user }));
    }

    /// Asks the driver to fetch the recent messages of a channel for the
    /// buffer of the given name.
    pub fn backfill(&mut self, name: String, channel: ChannelId)
        ensures
            final(self)@ == old(self)@.emit(CommandView::Backfill { name: name@, channel }),
            old(self)@.wf() ==> final(self)@.wf(),
    {
        self.commands.push(Command::Backfill { name, channel });
        assert(self@.commands =~= old(self)@.commands.push(
            CommandView::Backfill { name: name@, channel },
        ));
    }

    /// Takes note of a buffer that the client already has under the name,
    /// with its nick list and the last lines printed to it. Nothing happens
    /// if the picture has a buffer of that name.
    pub fn adopt(&mut self, name: String, nicks: Vec<String>, lines: Vec<Line>) -> (r: Option<
        Buffer,
    >)
        ensures
            old(self)@.has(name@) ==> r is None && final(self)@ == old(self)@,
            !old(self)@.has(name@) ==> r == Some(Buffer { index: old(self).surfaces.len() })
                && final(self)@ == (HostView {
                surfaces: old(self)@.surfaces.push(
                    SurfaceView {
                        name: name@,
                        nicks: nicks.deep_view(),
                        lines: last_n(lines.deep_view(), HISTORY_WINDOW as nat),
                    },
                ),
                ..old(self)@
            }),
            old(self)@.wf() ==> final(self)@.wf(),
    {
        if let Some(_) = Buffer::search(self, &name) {
            return None;
        }
        let mut lines = lines;
        let ghost all = lines.deep_view();
        trim_lines(&mut lines);
        let index = self.surfaces.len();
        proof {
            lemma_surface_index(old(self)@.surfaces, name@);
        }
        self.surfaces.push(Surface { name, nicks, lines });
        assert(self@.surfaces =~= old(self)@.surfaces.push(
            SurfaceView {
                name: name@,
                nicks: nicks.deep_view(),
                lines: last_n(all, HISTORY_WINDOW as nat),
            },
        ));
        Some(Buffer { index })
    }

    /// Forgets the buffer with the name, which the client has closed. The
    /// main buffer stays.
    pub fn close(&mut self, name: &String)
        ensures
            final(self)@ == (if 0 < surface_index(old(self)@.surfaces, name@) < old(
                self,
            )@.surfaces.len() {
                HostView {
                    surfaces: old(self)@.surfaces.remove(
                        surface_index(old(self)@.surfaces, name@),
                    ),
                    ..old(self)@
                }
            } else {
                old(self)@
            }),
            old(self)@.wf() ==> final(self)@.wf(),
    {
        if let Some(b) = Buffer::search(self, name) {
            if b.index > 0 {
                self.surfaces.remove(b.index);
                assert(self@.surfaces =~= old(self)@.surfaces.remove(b.index as int));
            }
        }
    }
}

impl Buffer {
    /// The client's main buffer.
    pub fn main() -> (r: Buffer)
        ensures
            r.index == 0,
    {
        Buffer { index: 0 }
    }

    /// The buffer with the name, if one is open.
    pub fn search(host: &Host, name: &String) -> (r: Option<Buffer>)
        ensures
            match r {
                Some(b) => b.valid(host@) && b.index == surface_index(host@.surfaces, name@),
                None => !host@.has(name@),
            },
    {
        let mut i: usize = 0;
        while i < host.surfaces.len()
            invariant
                i <= host.surfaces.len(),
                forall|k: int| 0 <= k < i ==> (#[trigger] host@.surfaces[k]).name != name@,
            decreases host.surfaces.len() - i,
        {
            if host.surfaces[i].name == *name {
                proof {
                    lemma_surface_index_is(host@.surfaces, name@, i as int);
                }
                return Some(Buffer { index: i });
            }
            i += 1;
        }
        proof {
            lemma_surface_index_is(host@.surfaces, name@, host.surfaces.len() as int);
        }
        None
    }

    /// Opens a buffer with the name. Fails if one is open already.
    pub fn new(host: &mut Host, name: &String) -> (r: Option<Buffer>)
        ensures
            old(host)@.has(name@) ==> r is None && final(host)@ == old(host)@,
            !old(host)@.has(name@) ==> r == Some(Buffer { index: old(host).surfaces.len() })
                && final(host)@ == old(host)@.opened(name@),
            old(host)@.wf() ==> final(host)@.wf(),
    {
        if let Some(_) = Buffer::search(host, name) {
            return None;
        }
        let index = host.surfaces.len();
        proof {
            lemma_surface_index(old(host)@.surfaces, name@);
        }
        host.surfaces.push(Surface { name: name.clone(), nicks: Vec::new(), lines: Vec::new() });
        host.commands.push(Command::BufferNew { name: name.clone() });
        assert(host@.surfaces[index as int].nicks =~= Seq::empty());
        assert(host@.surfaces[index as int].lines =~= Seq::empty());
        assert(host@.surfaces =~= old(host)@.opened(name@).surfaces);
        assert(host@.commands =~= old(host)@.opened(name@).commands);
        Some(Buffer { index })
    }

    /// Prints a plain line to the buffer.
    pub fn print(&self, host: &mut Host, message: &str)
        requires
            self.valid(old(host)@),
        ensures
            final(host)@ == old(host)@.noted(self.index as int, message@),
            old(host)@.wf() ==> final(host)@.wf(),
    {
        let name = host.surfaces[self.index].name.clone();
        host.commands.push(Command::Print { name, message: String::from_str(message) });
        assert(host@.commands =~= old(host)@.noted(self.index as int, message@).commands);
    }

    /// Prints a line with tags to the buffer.
    pub fn print_tags(&self, host: &mut Host, tags: &Vec<String>, prefix: &String, message: &String)
        requires
            self.valid(old(host)@),
        ensures
            final(host)@ == old(host)@.printed(
                self.index as int,
                LineView { tags: tags.deep_view(), prefix: prefix@, message: message@ },
            ),
            old(host)@.wf() ==> final(host)@.wf(),
    {
        let ghost line = LineView { tags: tags.deep_view(), prefix: prefix@, message: message@ };
        let ghost before = old(host)@.surfaces[self.index as int].lines;
        let name = host.surfaces[self.index].name.clone();
        let mut text: Vec<char> = Vec::new();
        push_str(&mut text, prefix.as_str());
        text.push('\t');
        push_str(&mut text, message.as_str());
        assert(text@ =~= prefix@ + seq!['\t'] + message@);
        let command = Command::PrintTags {
            name,
            tags: join(tags, ","),
            message: to_text(&text),
        };
        proof {
            reveal_strlit(",");
            assert(","@ =~= seq![',']);
        }
        host.surfaces[self.index].lines.push(
            Line { tags: tags.clone(), prefix: prefix.clone(), message: message.clone() },
        );
        assert(host@.surfaces[self.index as int].lines =~= before.push(line));
        trim_lines(&mut host.surfaces[self.index].lines);
        host.commands.push(command);
        assert(host@.commands =~= old(host)@.printed(self.index as int, line).commands);
        assert(host@.surfaces =~= old(host)@.printed(self.index as int, line).surfaces);
    }

    /// Sets a property of the buffer.
    pub fn set(&self, host: &mut Host, property: &str, value: &str)
        requires
            self.valid(old(host)@),
        ensures
            final(host)@ == old(host)@.set(self.index as int, property@, value@),
            old(host)@.wf() ==> final(host)@.wf(),
    {
        let name = host.surfaces[self.index].name.clone();
        host.commands.push(
            Command::BufferSet {
                name,
                property: String::from_str(property),
                value: String::from_str(value),
            },
        );
        assert(host@.commands =~= old(host)@.set(
            self.index as int,
            property@,
            value@,
        ).commands);
    }

    /// Whether the nick list of the buffer has the entry.
    pub fn nick_exists(&self, host: &Host, nick: &String) -> (r: bool)
        requires
            self.valid(host@),
        ensures
            r == host@.surfaces[self.index as int].nicks.contains(nick@),
    {
        let nicks = &host.surfaces[self.index].nicks;
        assert(nicks.deep_view() == host@.surfaces[self.index as int].nicks);
        let mut i: usize = 0;
        while i < nicks.len()
            invariant
                i <= nicks.len(),
                self.index < host.surfaces.len(),
                nicks.deep_view() == host@.surfaces[self.index as int].nicks,
                forall|k: int| 0 <= k < i ==> nicks.deep_view()[k] != nick@,
            decreases nicks.len() - i,
        {
            if nicks[i] == *nick {
                assert(nicks.deep_view()[i as int] == nick@);
                return true;
            }
            i += 1;
        }
        false
    }

    /// Adds an entry to the nick list of the buffer.
    pub fn add_nick(&self, host: &mut Host, nick: &String)
        requires
            self.valid(old(host)@),
        ensures
            final(host)@ == old(host)@.nick_added(self.index as int, nick@),
            old(host)@.wf() ==> final(host)@.wf(),
    {
        let name = host.surfaces[self.index].name.clone();
        host.surfaces[self.index].nicks.push(nick.clone());
        host.commands.push(Command::NickAdd { name, nick: nick.clone() });
        let ghost want = old(host)@.nick_added(self.index as int, nick@);
        assert(host@.surfaces[self.index as int].nicks =~= want.surfaces[self.index as int].nicks);
        assert(host@.surfaces =~= want.surfaces);
        assert(host@.commands =~= want.commands);
    }

    /// Removes an entry from the nick list of the buffer.
    pub fn remove_nick(&self, host: &mut Host, nick: &String)
        requires
            self.valid(old(host)@),
        ensures
            final(host)@ == old(host)@.nick_removed(self.index as int, nick@),
            old(host)@.wf() ==> final(host)@.wf(),
    {
        let name = host.surfaces[self.index].name.clone();
        drop_entries(&mut host.surfaces[self.index].nicks, nick);
        host.commands.push(Command::NickRemove { name, nick: nick.clone() });
        let ghost want = old(host)@.nick_removed(self.index as int, nick@);
        assert(host@.surfaces =~= want.surfaces);
        assert(host@.commands =~= want.commands);
    }
}

/// Drops the oldest lines until no more than the window are left.
pub fn trim_lines(lines: &mut Vec<Line>)
    ensures
        final(lines).deep_view() == last_n(old(lines).deep_view(), HISTORY_WINDOW as nat),
{
    let ghost all = lines.deep_view();
    while lines.len() > HISTORY_WINDOW
        invariant
            lines.len() <= all.len(),
            all.len() > HISTORY_WINDOW ==> lines.len() >= HISTORY_WINDOW,
            all.len() <= HISTORY_WINDOW ==> lines.len() == all.len(),
            lines.deep_view() == all.skip(all.len() - lines.len()),
        decreases lines.len(),
    {
        let ghost before = lines.deep_view();
        lines.remove(0);
        assert(lines.deep_view() =~= before.skip(1));
    }
}

/// Removes the entries equal to `item` from the list.
pub fn drop_entries(v: &mut Vec<String>, item: &String)
    ensures
        final(v).deep_view() == drop_text(old(v).deep_view(), item@),
{
    let mut i: usize = 0;
    let ghost mut done: int = 0;
    assert(old(v).deep_view().take(0) =~= Seq::<Seq<char>>::empty());
    assert(v.deep_view() =~= drop_text(old(v).deep_view().take(0), item@) + old(
        v,
    ).deep_view().skip(0));
    while i < v.len()
        invariant
            0 <= done <= old(v).len(),
            i <= v.len(),
            v.len() - i == old(v).len() - done,
            v.deep_view() == drop_text(old(v).deep_view().take(done), item@) + old(
                v,
            ).deep_view().skip(done),
            i == drop_text(old(v).deep_view().take(done), item@).len(),
        decreases v.len() - i,
    {
        let ghost all = old(v).deep_view();
        let ghost kept = drop_text(all.take(done), item@);
        proof {
            assert(all.take(done + 1).drop_last() =~= all.take(done));
            assert(all.take(done + 1).last() == all[done]);
            assert(v.deep_view()[i as int] == all.skip(done)[0]);
        }
        let ghost before = v.deep_view();
        let ghost before_items = v@;
        if v[i] == *item {
            v.remove(i);
            proof {
                assert forall|k: int| 0 <= k < v.len() implies v.deep_view()[k] == (kept
                    + all.skip(done + 1))[k] by {
                    if k < i {
                        assert(v@[k] == before_items[k]);
                        assert(before[k] == kept[k]);
                    } else {
                        assert(v@[k] == before_items[k + 1]);
                        assert(before[k + 1] == all.skip(done)[k + 1 - i]);
                    }
                }
                assert(v.deep_view() =~= kept + all.skip(done + 1));
            }
        } else {
            proof {
                assert(v.deep_view() =~= kept.push(all[done]) + all.skip(done + 1));
            }
            i += 1;
        }
        proof {
            done = done + 1;
        }
    }
    proof {
        assert(old(v).deep_view().take(done) =~= old(v).deep_view());
        assert(v.deep_view() =~= drop_text(old(v).deep_view(), item@));
    }
}

} // verus!

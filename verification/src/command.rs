//! The user's commands to the bridge, and the lines that answer them.

use crate::host::{Buffer, Host};
use crate::text::{has_prefix, matches_at, push_str, to_chars, to_text};
use vstd::prelude::*;
use vstd::string::*;

verus! {

/// The name of the command under which the bridge is reached.
pub const COMMAND: &'static str = "discord";

/// What the user asked for.
#[derive(Debug, PartialEq, Eq)]
pub enum UserCommand {
    /// Nothing was typed after the command's name.
    Help,
    Connect,
    Disconnect,
    /// Store the login token.
    Token(String),
    /// Open a private conversation with the named user.
    Query(String),
    /// Run a diagnostic.
    Debug(String),
    /// Anything else.
    Unknown,
}

/// What a [`UserCommand`] stands for in contracts.
pub enum UserCommandView {
    Help,
    Connect,
    Disconnect,
    Token(Seq<char>),
    Query(Seq<char>),
    Debug(Seq<char>),
    Unknown,
}

impl View for UserCommand {
    type V = UserCommandView;

    open spec fn view(&self) -> UserCommandView {
        match self {
            UserCommand::Help => UserCommandView::Help,
            UserCommand::Connect => UserCommandView::Connect,
            UserCommand::Disconnect => UserCommandView::Disconnect,
            UserCommand::Token(t) => UserCommandView::Token(t@),
            UserCommand::Query(t) => UserCommandView::Query(t@),
            UserCommand::Debug(t) => UserCommandView::Debug(t@),
            UserCommand::Unknown => UserCommandView::Unknown,
        }
    }
}

/// The text without the double quotes at its start.
pub open spec fn strip_front(s: Seq<char>) -> Seq<char>
    decreases s.len(),
{
    if s.len() > 0 && s[0] == '"' {
        strip_front(s.skip(1))
    } else {
        s
    }
}

/// The text without the double quotes at its end.
pub open spec fn strip_back(s: Seq<char>) -> Seq<char>
    decreases s.len(),
{
    if s.len() > 0 && s.last() == '"' {
        strip_back(s.drop_last())
    } else {
        s
    }
}

/// The text without the double quotes around it.
pub open spec fn unquoted(s: Seq<char>) -> Seq<char> {
    strip_back(strip_front(s))
}

/// What a command line asks for. The words `token`, `query` and `debug`
/// take the rest of the line after one space; a token loses the double
/// quotes around it.
pub open spec fn parsed(line: Seq<char>) -> UserCommandView {
    if line.len() == 0 {
        UserCommandView::Help
    } else if line == seq!['c', 'o', 'n', 'n', 'e', 'c', 't'] {
        UserCommandView::Connect
    } else if line == seq!['d', 'i', 's', 'c', 'o', 'n', 'n', 'e', 'c', 't'] {
        UserCommandView::Disconnect
    } else if has_prefix(line, seq!['t', 'o', 'k', 'e', 'n', ' ']) {
        UserCommandView::Token(unquoted(line.skip(6)))
    } else if has_prefix(line, seq!['q', 'u', 'e', 'r', 'y', ' ']) {
        UserCommandView::Query(line.skip(6))
    } else if has_prefix(line, seq!['d', 'e', 'b', 'u', 'g', ' ']) {
        UserCommandView::Debug(line.skip(6))
    } else {
        UserCommandView::Unknown
    }
}

/// The characters of a line from position `from` on.
fn rest(text: &Vec<char>, from: usize) -> (r: Vec<char>)
    requires
        from <= text.len(),
    ensures
        r@ == text@.skip(from as int),
{
    let mut out: Vec<char> = Vec::new();
    let mut i: usize = from;
    while i < text.len()
        invariant
            from <= i <= text.len(),
            out@ == text@.subrange(from as int, i as int),
        decreases text.len() - i,
    {
        out.push(text[i]);
        i += 1;
    }
    out
}

/// Removes the double quotes around a text.
pub fn unquote(text: &Vec<char>) -> (r: Vec<char>)
    ensures
        r@ == unquoted(text@),
{
    let mut start: usize = 0;
    assert(text@.skip(0) =~= text@);
    while start < text.len() && text[start] == '"'
        invariant
            start <= text.len(),
            strip_front(text@) == strip_front(text@.skip(start as int)),
        decreases text.len() - start,
    {
        assert(text@.skip(start as int).skip(1) =~= text@.skip(start + 1));
        start += 1;
    }
    let mut out = rest(text, start);
    let ghost front = out@;
    while out.len() > 0 && out[out.len() - 1] == '"'
        invariant
            strip_back(front) == strip_back(out@),
        decreases out.len(),
    {
        out.pop();
    }
    out
}

/// Reads a command line.
pub fn parse_command(line: &str) -> (r: UserCommand)
    ensures
        r@ == parsed(line@),
{
    let text = to_chars(line);
    assert(text@.skip(0) =~= text@);
    if text.len() == 0 {
        return UserCommand::Help;
    }
    let connect = to_chars("connect");
    let disconnect = to_chars("disconnect");
    let token = to_chars("token ");
    let query = to_chars("query ");
    let debug = to_chars("debug ");
    proof {
        reveal_strlit("connect");
        reveal_strlit("disconnect");
        reveal_strlit("token ");
        reveal_strlit("query ");
        reveal_strlit("debug ");
        assert(connect@ =~= seq!['c', 'o', 'n', 'n', 'e', 'c', 't']);
        assert(disconnect@ =~= seq!['d', 'i', 's', 'c', 'o', 'n', 'n', 'e', 'c', 't']);
        assert(token@ =~= seq!['t', 'o', 'k', 'e', 'n', ' ']);
        assert(query@ =~= seq!['q', 'u', 'e', 'r', 'y', ' ']);
        assert(debug@ =~= seq!['d', 'e', 'b', 'u', 'g', ' ']);
    }
    if text.len() == connect.len() && matches_at(&text, 0, &connect) {
        return UserCommand::Connect;
    }
    assert(text@ != connect@) by {
        if text@ == connect@ {
        }
    }
    if text.len() == disconnect.len() && matches_at(&text, 0, &disconnect) {
        return UserCommand::Disconnect;
    }
    assert(text@ != disconnect@) by {
        if text@ == disconnect@ {
        }
    }
    if matches_at(&text, 0, &token) {
        let arg = rest(&text, 6);
        return UserCommand::Token(to_text(&unquote(&arg)));
    }
    if matches_at(&text, 0, &query) {
        return UserCommand::Query(to_text(&rest(&text, 6)));
    }
    if matches_at(&text, 0, &debug) {
        return UserCommand::Debug(to_text(&rest(&text, 6)));
    }
    UserCommand::Unknown
}

/// Prints a line of the bridge to the main buffer, under the command's
/// name.
pub fn command_print(host: &mut Host, message: &str)
    requires
        old(host)@.surfaces.len() >= 1,
    ensures
        final(host)@ == old(host)@.noted(0, "discord: "@ + message@),
        old(host)@.wf() ==> final(host)@.wf(),
{
    let mut text: Vec<char> = Vec::new();
    push_str(&mut text, "discord: ");
    push_str(&mut text, message);
    let line = to_text(&text);
    Buffer::main().print(host, line.as_str());
}

/// The line that tells how setting an option went. `code` is what the
/// client answered: 0 for changed, 1 for unchanged, 2 for not found,
/// anything else for an error. `before` is the option's earlier value.
pub open spec fn option_message(
    code: i32,
    before: Option<Seq<char>>,
    name: Seq<char>,
    value: Seq<char>,
) -> Seq<char> {
    match before {
        Some(b) => if code == 0 {
            "option successfully changed from "@ + b + " to "@ + value
        } else if code == 1 {
            "option already contained "@ + b
        } else if code == 2 {
            "option "@ + name + " not found"@
        } else {
            "error when setting option "@ + name + " to "@ + value + " (was "@ + b + ")"@
        },
        None => if code == 0 || code == 1 {
            "option successfully set to "@ + value
        } else if code == 2 {
            "option "@ + name + " not found"@
        } else {
            "error when setting option "@ + name + " to "@ + value
        },
    }
}

/// The view of an optional string.
pub open spec fn opt_string(s: Option<&String>) -> Option<Seq<char>> {
    match s {
        Some(t) => Some(t@),
        None => None,
    }
}

/// The line that tells how setting an option went.
pub fn set_option(code: i32, before: Option<&String>, name: &str, value: &str) -> (r: String)
    ensures
        r@ == option_message(code, opt_string(before), name@, value@),
{
    let mut out: Vec<char> = Vec::new();
    match before {
        Some(b) => {
            if code == 0 {
                push_str(&mut out, "option successfully changed from ");
                push_str(&mut out, b.as_str());
                push_str(&mut out, " to ");
                push_str(&mut out, value);
            } else if code == 1 {
                push_str(&mut out, "option already contained ");
                push_str(&mut out, b.as_str());
            } else if code == 2 {
                push_str(&mut out, "option ");
                push_str(&mut out, name);
                push_str(&mut out, " not found");
            } else {
                push_str(&mut out, "error when setting option ");
                push_str(&mut out, name);
                push_str(&mut out, " to ");
                push_str(&mut out, value);
                push_str(&mut out, " (was ");
                push_str(&mut out, b.as_str());
                push_str(&mut out, ")");
            }
        },
        None => {
            if code == 0 || code == 1 {
                push_str(&mut out, "option successfully set to ");
                push_str(&mut out, value);
            } else if code == 2 {
                push_str(&mut out, "option ");
                push_str(&mut out, name);
                push_str(&mut out, " not found");
            } else {
                push_str(&mut out, "error when setting option ");
                push_str(&mut out, name);
                push_str(&mut out, " to ");
                push_str(&mut out, value);
            }
        },
    }
    to_text(&out)
}

/// Prints to the main buffer how setting an option went.
pub fn user_set_option(
    host: &mut Host,
    code: i32,
    before: Option<&String>,
    name: &str,
    value: &str,
)
    requires
        old(host)@.surfaces.len() >= 1,
    ensures
        final(host)@ == old(host)@.noted(
            0,
            "discord: "@ + option_message(code, opt_string(before), name@, value@),
        ),
        old(host)@.wf() ==> final(host)@.wf(),
{
    let line = set_option(code, before, name, value);
    command_print(host, line.as_str());
}

} // verus!

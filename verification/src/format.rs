//! Formatting commands of the editor toolbar.
use vstd::prelude::*;
use vstd::string::StrSliceExecFns;
use vstd::string::StringExecFns;

verus! {

/// An edit that a toolbar button or shortcut asks of the editor.
pub enum FormatAction {
    /// Surround the selection with a left and a right marker.
    Wrap(&'static str, &'static str),
    /// Put a marker at the start of the line that holds the cursor.
    LinePrefix(&'static str),
    /// Insert a snippet at the cursor.
    Insert(&'static str),
}

/// The toolbar's buttons.
#[derive(Clone, Copy, PartialEq, Eq, Debug, Structural)]
pub enum ToolbarCommand {
    Bold,
    Italic,
    InlineCode,
    Heading1,
    Heading2,
    Bullet,
    Quote,
    Link,
}

/// The markdown snippet that the link button writes.
pub open spec fn link_snippet() -> Seq<char> {
    seq!['[', 't', 'e', 'x', 't', ']', '(', 'u', 'r', 'l', ')']
}

/// The markers of each command: the kind of edit and its text.
pub open spec fn command_markers(cmd: ToolbarCommand) -> (u8, Seq<char>, Seq<char>) {
    match cmd {
        ToolbarCommand::Bold => (0, seq!['*', '*'], seq!['*', '*']),
        ToolbarCommand::Italic => (0, seq!['*'], seq!['*']),
        ToolbarCommand::InlineCode => (0, seq!['`'], seq!['`']),
        ToolbarCommand::Heading1 => (1, seq!['#', ' '], seq![]),
        ToolbarCommand::Heading2 => (1, seq!['#', '#', ' '], seq![]),
        ToolbarCommand::Bullet => (1, seq!['-', ' '], seq![]),
        ToolbarCommand::Quote => (1, seq!['>', ' '], seq![]),
        ToolbarCommand::Link => (2, link_snippet(), seq![]),
    }
}

/// The kind and text of an action, as plain values.
pub open spec fn action_markers(a: FormatAction) -> (u8, Seq<char>, Seq<char>) {
    match a {
        FormatAction::Wrap(l, r) => (0, l@, r@),
        FormatAction::LinePrefix(p) => (1, p@, seq![]),
        FormatAction::Insert(s) => (2, s@, seq![]),
    }
}

/// The action that a toolbar command asks for.
pub fn command_action(cmd: ToolbarCommand) -> (a: FormatAction)
    ensures
        action_markers(a) == command_markers(cmd),
{
    proof {
        reveal_strlit("**");
        reveal_strlit("*");
        reveal_strlit("`");
        reveal_strlit("# ");
        reveal_strlit("## ");
        reveal_strlit("- ");
        reveal_strlit("> ");
        reveal_strlit("[text](url)");
    }
    let a = match cmd {
        ToolbarCommand::Bold => FormatAction::Wrap("**", "**"),
        ToolbarCommand::Italic => FormatAction::Wrap("*", "*"),
        ToolbarCommand::InlineCode => FormatAction::Wrap("`", "`"),
        ToolbarCommand::Heading1 => FormatAction::LinePrefix("# "),
        ToolbarCommand::Heading2 => FormatAction::LinePrefix("## "),
        ToolbarCommand::Bullet => FormatAction::LinePrefix("- "),
        ToolbarCommand::Quote => FormatAction::LinePrefix("> "),
        ToolbarCommand::Link => FormatAction::Insert("[text](url)"),
    };
    assert(action_markers(a).1 =~= command_markers(cmd).1);
    assert(action_markers(a).2 =~= command_markers(cmd).2);
    a
}

/// Appends both markers at the end of the text.
pub fn wrap_selection(text: &mut String, left: &str, right: &str)
    ensures
        final(text)@ == old(text)@ + left@ + right@,
{
    text.append(left);
    text.append(right);
}

/// The text with a line break added unless it is empty or already ends in one.
pub open spec fn with_line_end(t: Seq<char>) -> Seq<char> {
    if t.len() > 0 && t.last() != '\n' {
        t.push('\n')
    } else {
        t
    }
}

/// Starts a new line, if the text does not end on one, and writes the prefix.
pub fn line_prefix(text: &mut String, prefix: &str)
    ensures
        final(text)@ == with_line_end(old(text)@) + prefix@,
{
    let n = text.as_str().unicode_len();
    if n > 0 && text.as_str().get_char(n - 1) != '\n' {
        text.push('\n');
    }
    text.append(prefix);
}

} // verus!

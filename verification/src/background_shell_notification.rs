//! The note that tells the model that a shell in the background has ended.
use vstd::prelude::*;
use vstd::string::*;

use crate::outside::{members, object_json, show_json_object, JsonScalar, Scalar};
use crate::text::{decimal_i32, owned, signed_decimal};

verus! {

/// The role that the note is sent in.
pub const ROLE: &'static str = "user";

/// What stands before the note.
pub const START_MARKER: &'static str = "<background_shell_notification>";

/// What stands behind the note.
pub const END_MARKER: &'static str = "</background_shell_notification>";

/// A shell in the background that has ended.
#[derive(Debug, PartialEq, Eq)]
pub struct BackgroundShellNotification {
    pub shell_id: i32,
    pub command: String,
    pub exit_code: i32,
}

/// How the output of a shell is read.
pub open spec fn hint_text(shell_id: i32) -> Seq<char> {
    "Use read_shell_output with shell_id "@ + signed_decimal(shell_id as int)
        + " if you need the final output."@
}

/// The members of the note.
pub open spec fn note_members(shell_id: i32, command: Seq<char>, exit_code: i32) -> Seq<
    (Seq<char>, Scalar),
> {
    seq![
        ("shell_id"@, Scalar::Number(shell_id as int)),
        ("command"@, Scalar::Text(command)),
        ("exit_code"@, Scalar::Number(exit_code as int)),
        ("hint"@, Scalar::Text(hint_text(shell_id))),
    ]
}

/// A text on lines of its own.
pub open spec fn on_own_lines(text: Seq<char>) -> Seq<char> {
    "\n"@ + text + "\n"@
}

/// Puts a text on lines of its own.
pub fn frame_lines(text: &str) -> (r: String)
    ensures
        r@ == on_own_lines(text@),
{
    let mut out = owned("\n");
    out.append(text);
    out.append("\n");
    out
}

impl BackgroundShellNotification {
    /// A note for a shell.
    pub fn new(shell_id: i32, command: String, exit_code: i32) -> (r: BackgroundShellNotification)
        ensures
            r == (BackgroundShellNotification { shell_id, command, exit_code }),
    {
        BackgroundShellNotification { shell_id, command, exit_code }
    }

    /// The members of the note, in the order in which they are written.
    pub fn entries(&self) -> (r: Vec<(String, JsonScalar)>)
        ensures
            members(r@) == note_members(self.shell_id, self.command@, self.exit_code),
    {
        let mut hint = owned("Use read_shell_output with shell_id ");
        let id = decimal_i32(self.shell_id);
        hint.append(id.as_str());
        hint.append(" if you need the final output.");
        let mut out: Vec<(String, JsonScalar)> = Vec::new();
        out.push((owned("shell_id"), JsonScalar::Number(self.shell_id as i64)));
        out.push((owned("command"), JsonScalar::Text(owned(self.command.as_str()))));
        out.push((owned("exit_code"), JsonScalar::Number(self.exit_code as i64)));
        out.push((owned("hint"), JsonScalar::Text(hint)));
        assert(members(out@) =~= note_members(self.shell_id, self.command@, self.exit_code));
        out
    }

    /// The note as JSON, on lines of its own.
    pub fn body(&self) -> (r: String)
        ensures
            r@ == on_own_lines(
                object_json(note_members(self.shell_id, self.command@, self.exit_code)),
            ),
    {
        let shown = show_json_object(self.entries());
        frame_lines(shown.as_str())
    }
}

/// The note names the shell, its command and its exit code, and how its output is read, in this order and on
/// lines of its own.
pub proof fn law_note_names_the_shell(shell_id: i32, command: Seq<char>, exit_code: i32, text: Seq<char>)
    ensures
        ({
            let note = note_members(shell_id, command, exit_code);
            &&& note.len() == 4
            &&& note[0] == ("shell_id"@, Scalar::Number(shell_id as int))
            &&& note[1] == ("command"@, Scalar::Text(command))
            &&& note[2] == ("exit_code"@, Scalar::Number(exit_code as int))
            &&& note[3] == (
                "hint"@,
                Scalar::Text(
                    "Use read_shell_output with shell_id "@ + signed_decimal(shell_id as int)
                        + " if you need the final output."@,
                ),
            )
        }),
        on_own_lines(text) == "\n"@ + text + "\n"@,
{
}

} // verus!

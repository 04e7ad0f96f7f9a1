//! Source references that a terminal shows as links.

use crate::text::{decimal, usize_to_string};
use vstd::prelude::*;

verus! {

/// The terminal that a report is written for. It decides where a link
/// points to.
#[derive(Debug, Clone, Copy, PartialEq, Eq, Structural)]
pub enum TerminalEnvironment {
    Unknown,
    JetBrains,
    VSCode,
}

/// Where the link to line `line` of the file at `abs_path` points to.
pub open spec fn link_target(terminal: TerminalEnvironment, abs_path: Seq<char>, line: nat) -> Seq<
    char,
> {
    match terminal {
        TerminalEnvironment::JetBrains => "file://"@ + abs_path + ":"@ + decimal(line),
        TerminalEnvironment::VSCode => "vscode://file/"@ + abs_path + ":"@ + decimal(line),
        TerminalEnvironment::Unknown => "file://"@ + abs_path,
    }
}

/// The text that the link to line `line` of `file_path` shows.
pub open spec fn link_text(file_path: Seq<char>, line: nat) -> Seq<char> {
    file_path + "[L"@ + decimal(line) + "]"@
}

/// The link to line `line` of a file: an OSC 8 hyperlink that shows
/// `link_text` and points to `link_target`.
pub open spec fn clickable_link(
    terminal: TerminalEnvironment,
    file_path: Seq<char>,
    abs_path: Seq<char>,
    line: nat,
) -> Seq<char> {
    "\x1b]8;;"@ + link_target(terminal, abs_path, line) + "\x1b\\"@ + link_text(file_path, line)
        + "\x1b]8;;\x1b\\"@
}

/// Writes the link to line `line` of the file that lies at `file_path`
/// below its source root and at `abs_path` on disk.
pub fn create_clickable_link(
    terminal: TerminalEnvironment,
    file_path: &str,
    abs_path: &str,
    line: usize,
) -> (r: String)
    ensures
        r@ == clickable_link(terminal, file_path@, abs_path@, line as nat),
{
    let number = usize_to_string(line);
    let mut link = match terminal {
        TerminalEnvironment::JetBrains => {
            let mut link = String::from_str("file://");
            link.append(abs_path);
            link.append(":");
            link.append(number.as_str());
            link
        },
        TerminalEnvironment::VSCode => {
            let mut link = String::from_str("vscode://file/");
            link.append(abs_path);
            link.append(":");
            link.append(number.as_str());
            link
        },
        TerminalEnvironment::Unknown => {
            let mut link = String::from_str("file://");
            link.append(abs_path);
            link
        },
    };
    let mut display_with_line = String::from_str(file_path);
    display_with_line.append("[L");
    display_with_line.append(number.as_str());
    display_with_line.append("]");
    let mut r = String::from_str("\x1b]8;;");
    r.append(link.as_str());
    r.append("\x1b\\");
    r.append(display_with_line.as_str());
    r.append("\x1b]8;;\x1b\\");
    r
}

} // verus!

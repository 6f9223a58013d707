//! The command line of the interactive colour converter: what a line asks
//! for. Reading the numbers of a conversion and converting them is the
//! caller's part.

use crate::literal::{is_number_literal, reads_as_number};
use crate::text::{lowercase, same_text, split_whitespace, texts, to_lowercase, words};
use vstd::prelude::*;
use vstd::string::*;

verus! {

/// The colour space that the numbers of a conversion are given in.
#[derive(Debug, Clone, Copy, PartialEq, Eq, Structural)]
pub enum Space {
    Srgb,
    Xyz,
    Lab,
    Hsv,
}

/// What an accepted line asks the caller to print.
#[derive(Debug)]
pub enum Output {
    /// The text as it stands.
    Text { text: String },
    /// The colour with the coordinates `first`, `second` and `third` in
    /// `space`, converted to every space. The coordinates are the words of
    /// the line; each of them can be read as a number.
    Conversion { space: Space, first: String, second: String, third: String },
}

/// The help text.
pub const HELP: &'static str = r#"Available commands:
  srgb <r> <g> <b>  Convert from sRGB (0.0-1.0)
  xyz <x> <y> <z>   Convert from CIE XYZ (0.0-1.0)
  lab <l> <a> <b>   Convert from CIE Lab (0-100, -128-127, -128-127)
  hsv <h> <s> <v>   Convert from HSV (h: 0-360, s: 0-1, v: 0-1)
  help              Show this help message
  quit / exit       Exit the program

Examples:
  > srgb 1.0 0.5 0.0
  > xyz 0.5 0.5 0.5
  > lab 50 25 -10
  > hsv 180 0.5 0.8"#;

/// The text of the help message.
pub fn show_help() -> (text: String)
    ensures
        text@ == HELP@,
{
    String::from_str(HELP)
}

/// The space that a command converts from, if the command is a conversion.
pub open spec fn space_named(command: Seq<char>) -> Option<Space> {
    if command == "srgb"@ {
        Some(Space::Srgb)
    } else if command == "xyz"@ {
        Some(Space::Xyz)
    } else if command == "lab"@ {
        Some(Space::Lab)
    } else if command == "hsv"@ {
        Some(Space::Hsv)
    } else {
        None
    }
}

/// How a conversion from `space` is to be written.
pub open spec fn usage_text(space: Space) -> Seq<char> {
    match space {
        Space::Srgb => "Usage: srgb <r> <g> <b>"@,
        Space::Xyz => "Usage: xyz <x> <y> <z>"@,
        Space::Lab => "Usage: lab <l> <a> <b>"@,
        Space::Hsv => "Usage: hsv <h> <s> <v>"@,
    }
}

/// The name of a coordinate of a space: the first, the second or the third.
pub open spec fn coordinate_name(space: Space, place: int) -> Seq<char> {
    match space {
        Space::Srgb => if place == 1 {
            "r"@
        } else if place == 2 {
            "g"@
        } else {
            "b"@
        },
        Space::Xyz => if place == 1 {
            "x"@
        } else if place == 2 {
            "y"@
        } else {
            "z"@
        },
        Space::Lab => if place == 1 {
            "l"@
        } else if place == 2 {
            "a"@
        } else {
            "b"@
        },
        Space::Hsv => if place == 1 {
            "h"@
        } else if place == 2 {
            "s"@
        } else {
            "v"@
        },
    }
}

/// The complaint about a word that stands for the coordinate `name` and
/// cannot be read as a number.
pub open spec fn invalid_text(name: Seq<char>, word: Seq<char>) -> Seq<char> {
    "Invalid value for '"@ + name + "': '"@ + word + "'"@
}

/// What a conversion from `space` of the words at the places one to three of
/// `parts` comes to: the complaint about the first word that cannot be read
/// as a number, and the conversion where there is none.
pub open spec fn is_conversion(
    space: Space,
    parts: Seq<Seq<char>>,
    r: Result<Option<Output>, String>,
) -> bool {
    if !is_number_literal(parts[1]) {
        r matches Err(message) && message@ == invalid_text(coordinate_name(space, 1), parts[1])
    } else if !is_number_literal(parts[2]) {
        r matches Err(message) && message@ == invalid_text(coordinate_name(space, 2), parts[2])
    } else if !is_number_literal(parts[3]) {
        r matches Err(message) && message@ == invalid_text(coordinate_name(space, 3), parts[3])
    } else {
        &&& r matches Ok(Some(Output::Conversion { space: named, first, second, third }))
        &&& named == space
        &&& first@ == parts[1]
        &&& second@ == parts[2]
        &&& third@ == parts[3]
    }
}

/// The complaint about a command that is not known.
pub open spec fn unknown_text(command: Seq<char>) -> Seq<char> {
    "Unknown command: '"@ + command + "'. Type 'help' for available commands."@
}

/// `r` is what the command `command`, already in lower case, asks for on a
/// line with the words `parts`, the command's own word being the first:
/// `help` prints the help text; `quit` and `exit` end the dialogue, which is
/// `Ok(None)`; the name of a space with exactly three more words asks for a
/// conversion of those words, which must each be readable as a number, and
/// with any other number of words is answered with the usage of that command;
/// every other command is unknown.
pub open spec fn is_outcome(
    command: Seq<char>,
    parts: Seq<Seq<char>>,
    r: Result<Option<Output>, String>,
) -> bool {
    if command == "help"@ {
        r matches Ok(Some(Output::Text { text })) && text@ == HELP@
    } else if command == "quit"@ || command == "exit"@ {
        r matches Ok(None)
    } else {
        match space_named(command) {
            Some(space) => if parts.len() == 4 {
                is_conversion(space, parts, r)
            } else {
                r matches Err(message) && message@ == usage_text(space)
            },
            None => r matches Err(message) && message@ == unknown_text(command),
        }
    }
}

/// `r` is what the line with the words `parts` asks for: nothing, and so an
/// empty text, where it has no word; otherwise what its first word in lower
/// case asks for.
pub open spec fn is_outcome_of_line(parts: Seq<Seq<char>>, r: Result<Option<Output>, String>) -> bool {
    if parts.len() == 0 {
        r matches Ok(Some(Output::Text { text })) && text@ == Seq::<char>::empty()
    } else {
        is_outcome(lowercase(parts[0]), parts, r)
    }
}

fn name_of(space: Space, place: usize) -> (name: &'static str)
    ensures
        name@ == coordinate_name(space, place as int),
{
    match space {
        Space::Srgb => if place == 1 {
            "r"
        } else if place == 2 {
            "g"
        } else {
            "b"
        },
        Space::Xyz => if place == 1 {
            "x"
        } else if place == 2 {
            "y"
        } else {
            "z"
        },
        Space::Lab => if place == 1 {
            "l"
        } else if place == 2 {
            "a"
        } else {
            "b"
        },
        Space::Hsv => if place == 1 {
            "h"
        } else if place == 2 {
            "s"
        } else {
            "v"
        },
    }
}

fn invalid(space: Space, place: usize, word: &str) -> (message: String)
    ensures
        message@ == invalid_text(coordinate_name(space, place as int), word@),
{
    let mut message = String::from_str("Invalid value for '");
    message.append(name_of(space, place));
    message.append("': '");
    message.append(word);
    message.append("'");
    message
}

fn convert_or_usage(space: Space, parts: &Vec<&str>) -> (r: Result<Option<Output>, String>)
    ensures
        if parts.len() == 4 {
            is_conversion(space, texts(parts@), r)
        } else {
            r matches Err(message) && message@ == usage_text(space)
        },
{
    if parts.len() != 4 {
        let usage = match space {
            Space::Srgb => "Usage: srgb <r> <g> <b>",
            Space::Xyz => "Usage: xyz <x> <y> <z>",
            Space::Lab => "Usage: lab <l> <a> <b>",
            Space::Hsv => "Usage: hsv <h> <s> <v>",
        };
        return Err(String::from_str(usage));
    }
    if !reads_as_number(parts[1]) {
        return Err(invalid(space, 1, parts[1]));
    }
    if !reads_as_number(parts[2]) {
        return Err(invalid(space, 2, parts[2]));
    }
    if !reads_as_number(parts[3]) {
        return Err(invalid(space, 3, parts[3]));
    }
    Ok(
        Some(
            Output::Conversion {
                space,
                first: String::from_str(parts[1]),
                second: String::from_str(parts[2]),
                third: String::from_str(parts[3]),
            },
        ),
    )
}

/// Says what the command `command`, already in lower case, asks for on a line
/// with the words `parts`.
pub fn interpret(command: &str, parts: &Vec<&str>) -> (r: Result<Option<Output>, String>)
    ensures
        is_outcome(command@, texts(parts@), r),
{
    if same_text(command, "help") {
        Ok(Some(Output::Text { text: show_help() }))
    } else if same_text(command, "quit") || same_text(command, "exit") {
        Ok(None)
    } else if same_text(command, "srgb") {
        convert_or_usage(Space::Srgb, parts)
    } else if same_text(command, "xyz") {
        convert_or_usage(Space::Xyz, parts)
    } else if same_text(command, "lab") {
        convert_or_usage(Space::Lab, parts)
    } else if same_text(command, "hsv") {
        convert_or_usage(Space::Hsv, parts)
    } else {
        let mut message = String::from_str("Unknown command: '");
        message.append(command);
        message.append("'. Type 'help' for available commands.");
        Err(message)
    }
}

/// Reads one line of the dialogue and says what it asks for.
///
/// `Ok(None)` ends the dialogue. `Ok(Some(..))` holds what is to be printed:
/// a text, or a conversion that the caller carries out. `Err(..)` holds the
/// complaint to print.
pub fn parse_and_process(line: &str) -> (r: Result<Option<Output>, String>)
    ensures
        is_outcome_of_line(words(line@), r),
{
    let parts = split_whitespace(line);
    if parts.len() == 0 {
        return Ok(Some(Output::Text { text: String::new() }));
    }
    let command = to_lowercase(parts[0]);
    interpret(command.as_str(), &parts)
}

} // verus!

//! The commands of the interactive session: how a line that was typed is
//! read as a command.
use crate::names::same_text;
use vstd::prelude::*;
use vstd::string::{StrSliceExecFns, StringExecFns};

verus! {

/// Why a line is no command.
#[derive(Debug, Clone, Copy, PartialEq, Eq)]
pub enum ReplError {
    /// An empty line.
    NoCommand,
    /// A first word that names no command.
    InvalidCommand,
    /// A command with too few or too many words behind it.
    Usage,
    /// A directory name with a character that is neither letter nor number.
    NameNotAlphanumeric,
    /// An empty directory name.
    NameEmpty,
    /// A directory name that begins with a number.
    NameStartsWithNumber,
}

impl ReplError {
    /// The text that `describe` returns.
    pub open spec fn description(&self) -> Seq<char> {
        match self {
            ReplError::NoCommand => "No command provided"@,
            ReplError::InvalidCommand => "Invalid command"@,
            ReplError::Usage => "Incorrect usage of command. Try running help."@,
            ReplError::NameNotAlphanumeric => "Directory name must only consist of alphanumeric characters"@,
            ReplError::NameEmpty => "Directory name cannot be empty"@,
            ReplError::NameStartsWithNumber => "Directory name cannot start with a number"@,
        }
    }

    /// A line of text for the person at the terminal.
    pub fn describe(&self) -> (text: &'static str)
        ensures
            text@ == self.description(),
    {
        match self {
            ReplError::NoCommand => "No command provided",
            ReplError::InvalidCommand => "Invalid command",
            ReplError::Usage => "Incorrect usage of command. Try running help.",
            ReplError::NameNotAlphanumeric => "Directory name must only consist of alphanumeric characters",
            ReplError::NameEmpty => "Directory name cannot be empty",
            ReplError::NameStartsWithNumber => "Directory name cannot start with a number",
        }
    }
}

/// Whether Unicode counts the character as a letter or a number.
pub uninterp spec fn alphanumeric(c: char) -> bool;

/// Whether Unicode counts the character as a number.
pub uninterp spec fn numeric(c: char) -> bool;

/// Whether Unicode counts the character as white space.
pub uninterp spec fn whitespace(c: char) -> bool;

/// `char::is_alphanumeric` of std.
#[verifier::external_body]
fn is_alphanumeric(c: char) -> (b: bool)
    ensures
        b == alphanumeric(c),
{
    c.is_alphanumeric()
}

/// `char::is_numeric` of std.
#[verifier::external_body]
fn is_numeric(c: char) -> (b: bool)
    ensures
        b == numeric(c),
{
    c.is_numeric()
}

/// `char::is_whitespace` of std.
#[verifier::external_body]
pub(crate) fn is_whitespace(c: char) -> (b: bool)
    ensures
        b == whitespace(c),
{
    c.is_whitespace()
}

/// What stands in the way of `name` as the name of a directory, if anything:
/// a character that is neither letter nor number, no character at all, or a
/// number in front, looked for in that order.
pub open spec fn checked_dir_name(name: Seq<char>) -> Result<(), ReplError> {
    if exists|i: int| 0 <= i < name.len() && !alphanumeric(#[trigger] name[i]) {
        Err(ReplError::NameNotAlphanumeric)
    } else if name.len() == 0 {
        Err(ReplError::NameEmpty)
    } else if numeric(name[0]) {
        Err(ReplError::NameStartsWithNumber)
    } else {
        Ok(())
    }
}

/// A command as plain values.
pub enum ReplCommandView {
    Ls,
    Mkdir(Seq<char>),
    Get(Seq<char>),
    Add(Seq<char>),
    Exit,
}

/// Lists what is there.
#[derive(Debug, PartialEq, Eq)]
pub struct LSCommand;

/// Makes a directory.
#[derive(Debug, PartialEq, Eq)]
pub struct MKDirCommand {
    pub dir_name: String,
}

/// Shows a record.
#[derive(Debug, PartialEq, Eq)]
pub struct GetCommand {
    pub key_name: String,
}

/// Adds a record.
#[derive(Debug, PartialEq, Eq)]
pub struct AddCommand {
    pub key_name: String,
}

/// Ends the session.
#[derive(Debug, PartialEq, Eq)]
pub struct ExitCommand;

/// One of the commands of the session.
#[derive(Debug, PartialEq, Eq)]
pub enum ReplCommandType {
    LS(LSCommand),
    MKDIR(MKDirCommand),
    GET(GetCommand),
    ADD(AddCommand),
    EXIT(ExitCommand),
}

impl View for ReplCommandType {
    type V = ReplCommandView;

    open spec fn view(&self) -> ReplCommandView {
        match self {
            ReplCommandType::LS(_) => ReplCommandView::Ls,
            ReplCommandType::MKDIR(c) => ReplCommandView::Mkdir(c.dir_name@),
            ReplCommandType::GET(c) => ReplCommandView::Get(c.key_name@),
            ReplCommandType::ADD(c) => ReplCommandView::Add(c.key_name@),
            ReplCommandType::EXIT(_) => ReplCommandView::Exit,
        }
    }
}

/// The words as plain values.
pub open spec fn texts(words: Seq<&str>) -> Seq<Seq<char>> {
    Seq::new(words.len(), |i: int| words[i]@)
}

/// How the words behind `mkdir` are read: two words, of which the first is
/// the directory's name.
pub open spec fn parsed_mkdir(args: Seq<Seq<char>>) -> Result<Seq<char>, ReplError> {
    if args.len() != 2 {
        Err(ReplError::Usage)
    } else {
        match checked_dir_name(args[0]) {
            Ok(_) => Ok(args[0]),
            Err(e) => Err(e),
        }
    }
}

/// How the words behind `get` and `add` are read: one word, the record's name.
pub open spec fn parsed_key(args: Seq<Seq<char>>) -> Result<Seq<char>, ReplError> {
    if args.len() != 1 {
        Err(ReplError::Usage)
    } else {
        Ok(args[0])
    }
}

/// How the words of a line are read as a command.
pub open spec fn parsed(words: Seq<Seq<char>>) -> Result<ReplCommandView, ReplError> {
    if words.len() == 0 {
        Err(ReplError::NoCommand)
    } else if words[0] == "ls"@ {
        if words.len() == 1 {
            Ok(ReplCommandView::Ls)
        } else {
            Err(ReplError::Usage)
        }
    } else if words[0] == "mkdir"@ {
        match parsed_mkdir(words.skip(1)) {
            Ok(name) => Ok(ReplCommandView::Mkdir(name)),
            Err(e) => Err(e),
        }
    } else if words[0] == "get"@ {
        match parsed_key(words.skip(1)) {
            Ok(name) => Ok(ReplCommandView::Get(name)),
            Err(e) => Err(e),
        }
    } else if words[0] == "add"@ {
        match parsed_key(words.skip(1)) {
            Ok(name) => Ok(ReplCommandView::Add(name)),
            Err(e) => Err(e),
        }
    } else if words[0] == "exit"@ {
        if words.len() == 1 {
            Ok(ReplCommandView::Exit)
        } else {
            Err(ReplError::Usage)
        }
    } else {
        Err(ReplError::InvalidCommand)
    }
}

impl LSCommand {
    /// `ls` takes no word.
    pub fn parse(args: &[&str]) -> (r: Result<Self, ReplError>)
        ensures
            match r {
                Ok(_) => args@.len() == 0,
                Err(e) => args@.len() != 0 && e == ReplError::Usage,
            },
    {
        if args.len() != 0 {
            return Err(ReplError::Usage);
        }
        Ok(Self)
    }
}

impl ExitCommand {
    /// `exit` takes no word.
    pub fn parse(args: &[&str]) -> (r: Result<Self, ReplError>)
        ensures
            match r {
                Ok(_) => args@.len() == 0,
                Err(e) => args@.len() != 0 && e == ReplError::Usage,
            },
    {
        if args.len() != 0 {
            return Err(ReplError::Usage);
        }
        Ok(Self {  })
    }
}

impl MKDirCommand {
    /// The name, where it can be the name of a directory.
    pub fn validate_dir_name(dir_name: &str) -> (r: Result<&str, ReplError>)
        ensures
            match checked_dir_name(dir_name@) {
                Ok(_) => r matches Ok(name) && name@ == dir_name@,
                Err(e) => r matches Err(x) && x == e,
            },
    {
        let length = dir_name.unicode_len();
        let mut i: usize = 0;
        while i < length
            invariant
                i <= length,
                length == dir_name@.len(),
                forall|k: int| 0 <= k < i ==> alphanumeric(#[trigger] dir_name@[k]),
            decreases length - i,
        {
            if !is_alphanumeric(dir_name.get_char(i)) {
                return Err(ReplError::NameNotAlphanumeric);
            }
            i += 1;
        }
        if length == 0 {
            return Err(ReplError::NameEmpty);
        }
        if is_numeric(dir_name.get_char(0)) {
            return Err(ReplError::NameStartsWithNumber);
        }
        Ok(dir_name)
    }

    /// `mkdir` takes two words, of which the first is the directory's name.
    pub fn parse(args: &[&str]) -> (r: Result<Self, ReplError>)
        ensures
            match parsed_mkdir(texts(args@)) {
                Ok(name) => r matches Ok(command) && command.dir_name@ == name,
                Err(e) => r matches Err(x) && x == e,
            },
    {
        if args.len() != 2 {
            return Err(ReplError::Usage);
        }
        match Self::validate_dir_name(args[0]) {
            Ok(dir_name) => Ok(Self { dir_name: String::from_str(dir_name) }),
            Err(e) => Err(e),
        }
    }
}

impl GetCommand {
    /// `get` takes one word, the record's name.
    pub fn parse(args: &[&str]) -> (r: Result<Self, ReplError>)
        ensures
            match parsed_key(texts(args@)) {
                Ok(name) => r matches Ok(command) && command.key_name@ == name,
                Err(e) => r matches Err(x) && x == e,
            },
    {
        if args.len() != 1 {
            return Err(ReplError::Usage);
        }
        Ok(Self { key_name: String::from_str(args[0]) })
    }
}

impl AddCommand {
    /// `add` takes one word, the record's name.
    pub fn parse(args: &[&str]) -> (r: Result<Self, ReplError>)
        ensures
            match parsed_key(texts(args@)) {
                Ok(name) => r matches Ok(command) && command.key_name@ == name,
                Err(e) => r matches Err(x) && x == e,
            },
    {
        if args.len() != 1 {
            return Err(ReplError::Usage);
        }
        Ok(Self { key_name: String::from_str(args[0]) })
    }
}

impl ReplCommandType {
    /// Reads the words of a line as a command: the command's name, then what
    /// it takes.
    pub fn parse(args: &[&str]) -> (r: Result<Self, ReplError>)
        ensures
            match parsed(texts(args@)) {
                Ok(command) => r matches Ok(c) && c@ == command,
                Err(e) => r matches Err(x) && x == e,
            },
    {
        if args.len() == 0 {
            return Err(ReplError::NoCommand);
        }
        let rest = vstd::slice::slice_subrange(args, 1, args.len());
        proof {
            assert(texts(rest@) =~= texts(args@).skip(1));
        }
        if same_text(args[0], "ls") {
            match LSCommand::parse(rest) {
                Ok(c) => Ok(ReplCommandType::LS(c)),
                Err(e) => Err(e),
            }
        } else if same_text(args[0], "mkdir") {
            match MKDirCommand::parse(rest) {
                Ok(c) => Ok(ReplCommandType::MKDIR(c)),
                Err(e) => Err(e),
            }
        } else if same_text(args[0], "get") {
            match GetCommand::parse(rest) {
                Ok(c) => Ok(ReplCommandType::GET(c)),
                Err(e) => Err(e),
            }
        } else if same_text(args[0], "add") {
            match AddCommand::parse(rest) {
                Ok(c) => Ok(ReplCommandType::ADD(c)),
                Err(e) => Err(e),
            }
        } else if same_text(args[0], "exit") {
            match ExitCommand::parse(rest) {
                Ok(c) => Ok(ReplCommandType::EXIT(c)),
                Err(e) => Err(e),
            }
        } else {
            Err(ReplError::InvalidCommand)
        }
    }
}

} // verus!

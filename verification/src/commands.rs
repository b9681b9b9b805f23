//! The commands of the program, without their input and output.
//!
//! A command is handed what was read for it, the password and the bytes of
//! the vault's file, and hands back what is to be done next: bytes to write,
//! or an open vault. Reading, writing and the terminal are the caller's.
use crate::envelope::{lemma_timestamp_short, Timestamp};
use crate::error::VaultError;
use crate::keygen::password_fits;
use crate::parsing::Commands;
use crate::vault::{fresh_vault, opened, Salts, VaultManager};
use vstd::prelude::*;
use vstd::string::StringExecFns;

verus! {

/// What was read for a command.
#[derive(Debug)]
pub struct Input {
    /// The master password, without the newline that ended the line.
    pub password: String,
    /// The bytes of the vault's file, for a command that opens one.
    pub file: Vec<u8>,
}

/// What a command leaves to be done.
#[derive(Debug)]
pub enum Outcome {
    /// Write `bytes` to the file `file_name` in the directory `dir`.
    Write { dir: String, file_name: String, bytes: Vec<u8> },
    /// Go on with this vault.
    Opened(VaultManager),
    /// Nothing.
    Done,
}

/// What every command has: it can be carried out.
pub trait Executable {
    /// What `execute` owes for this input.
    spec fn expected(&self, input: Input, r: Result<Outcome, VaultError>) -> bool;

    /// Carries the command out on what was read for it.
    fn execute(&self, input: Input) -> (r: Result<Outcome, VaultError>)
        ensures
            self.expected(input, r),
    ;
}

/// The ending of a vault's file name.
pub open spec fn extension() -> Seq<char> {
    ".rpdb"@
}

/// Makes a new vault.
#[derive(Debug)]
pub struct CreateCommand {
    pub name: String,
    pub dir: String,
}

impl CreateCommand {
    /// The command that makes the vault `name` in the directory `dir`.
    pub fn new(name: String, dir: String) -> (command: Self)
        ensures
            command.name == name,
            command.dir == dir,
    {
        Self { name, dir }
    }

    /// The name of the vault's file: the vault's name and the ending `.rpdb`.
    pub fn file_name(&self) -> (file_name: String)
        ensures
            file_name@ == self.name@ + extension(),
    {
        self.name.clone().concat(".rpdb")
    }
}

impl Executable for CreateCommand {
    /// A new vault for the password, sealed, to be written to the vault's
    /// file in the command's directory. It fails only where the system gives
    /// no random bytes or the password is too long to be stretched.
    open spec fn expected(&self, input: Input, r: Result<Outcome, VaultError>) -> bool {
        match r {
            Ok(Outcome::Write { dir, file_name, bytes }) => {
                &&& dir@ == self.dir@
                &&& file_name@ == self.name@ + extension()
                &&& exists|salts: Salts, now: Timestamp| #[trigger]
                    fresh_vault(salts, now, input.password@).file() == Ok::<Seq<u8>, VaultError>(
                        bytes@,
                    )
            },
            Ok(_) => false,
            Err(e) => e == VaultError::RandomError || (e == VaultError::KeyDerivationError
                && !password_fits(input.password@)),
        }
    }

    fn execute(&self, input: Input) -> (r: Result<Outcome, VaultError>) {
        let mut vault = VaultManager::default();
        match vault.regenerate(input.password) {
            Ok(_) => {},
            Err(e) => {
                return Err(e);
            },
        }
        proof {
            let (salts, now) = choose|salts: Salts, now: Timestamp|
                vault@ == #[trigger] fresh_vault(salts, now, input.password@);
            lemma_fresh_vault_is_small(salts, now, input.password@);
        }
        match vault.save() {
            Ok(bytes) => Ok(
                Outcome::Write { dir: self.dir.clone(), file_name: self.file_name(), bytes },
            ),
            Err(e) => Err(e),
        }
    }
}

/// A vault without directories is short.
proof fn lemma_fresh_vault_is_small(salts: Salts, now: Timestamp, password: Seq<char>)
    ensures
        crate::envelope::encode_body(fresh_vault(salts, now, password).body).len() <= 128,
        crate::envelope::encode_header(fresh_vault(salts, now, password).header).len() <= 128,
{
    let vault = fresh_vault(salts, now, password);
    lemma_timestamp_short(now);
    crate::wire::lemma_varint_short(32);
    crate::wire::lemma_varint_short(12);
    crate::wire::lemma_varint_short(crate::envelope::SIGNATURE as nat);
    crate::wire::lemma_varint_short(crate::envelope::VERSION as nat);
    crate::wire::lemma_varint_short(crate::envelope::encode_timestamp(now).len());
    assert(crate::wire::varint(32).len() == 1);
    assert(crate::wire::varint(12).len() == 1);
    assert(crate::wire::varint(crate::envelope::encode_timestamp(now).len()).len() == 1);
    assert(crate::envelope::encode_directories(vault.body.directories) =~= Seq::<
        Seq<u8>,
    >::empty());
}

/// Opens a vault.
#[derive(Debug)]
pub struct OpenCommand {
    pub file_path: String,
}

impl OpenCommand {
    /// The command that opens the vault in the file `file_path`.
    pub fn new(file_path: String) -> (command: Self)
        ensures
            command.file_path == file_path,
    {
        Self { file_path }
    }
}

impl Executable for OpenCommand {
    /// The vault that the file holds, opened with the password, or why the
    /// file does not open.
    open spec fn expected(&self, input: Input, r: Result<Outcome, VaultError>) -> bool {
        match opened(input.file@, input.password@) {
            Ok(vault) => r matches Ok(Outcome::Opened(manager)) && manager@ == vault,
            Err(e) => r matches Err(x) && x == e,
        }
    }

    fn execute(&self, input: Input) -> (r: Result<Outcome, VaultError>) {
        let mut vault = VaultManager::default();
        match vault.initialize_from_file(input.file.as_slice(), input.password) {
            Ok(_) => Ok(Outcome::Opened(vault)),
            Err(e) => Err(e),
        }
    }
}

/// Shows the configuration.
#[derive(Debug)]
pub struct ConfigCommand {}

impl ConfigCommand {
    /// The command that shows the configuration.
    pub fn new() -> (command: Self) {
        ConfigCommand {  }
    }
}

impl Executable for ConfigCommand {
    /// Nothing is left to be done.
    open spec fn expected(&self, input: Input, r: Result<Outcome, VaultError>) -> bool {
        r matches Ok(Outcome::Done)
    }

    fn execute(&self, input: Input) -> (r: Result<Outcome, VaultError>) {
        Ok(Outcome::Done)
    }
}

/// One of the commands.
#[derive(Debug)]
pub enum Command {
    Create(CreateCommand),
    Open(OpenCommand),
    Config(ConfigCommand),
}

impl Executable for Command {
    /// What the command that it holds owes.
    open spec fn expected(&self, input: Input, r: Result<Outcome, VaultError>) -> bool {
        match self {
            Command::Create(command) => command.expected(input, r),
            Command::Open(command) => command.expected(input, r),
            Command::Config(command) => command.expected(input, r),
        }
    }

    fn execute(&self, input: Input) -> (r: Result<Outcome, VaultError>) {
        match self {
            Command::Create(command) => command.execute(input),
            Command::Open(command) => command.execute(input),
            Command::Config(command) => command.execute(input),
        }
    }
}

/// The command that carries out what the command line asks for.
pub open spec fn command_for(command: Commands, made: Command) -> bool {
    match command {
        Commands::Create { name, dir } => made matches Command::Create(c) && c.name == name
            && c.dir == dir,
        Commands::Open { file_path } => made matches Command::Open(c) && c.file_path == file_path,
        Commands::Config => made is Config,
    }
}

/// Makes the command that carries out what the command line asks for.
pub fn command_factory(command: Commands) -> (made: Command)
    ensures
        command_for(command, made),
{
    match command {
        Commands::Create { name, dir } => Command::Create(CreateCommand::new(name, dir)),
        Commands::Open { file_path } => Command::Open(OpenCommand::new(file_path)),
        Commands::Config => Command::Config(ConfigCommand::new()),
    }
}

} // verus!

use rustpass::commands::{
    command_factory, Command, ConfigCommand, CreateCommand, Executable, Input, OpenCommand,
    Outcome,
};
use rustpass::display::InputReader;
use rustpass::error::VaultError;
use rustpass::parsing::Commands;
use rustpass::repl::{
    AddCommand, ExitCommand, GetCommand, LSCommand, MKDirCommand, ReplCommandType, ReplError,
};
use rustpass::names::same_text;
use rustpass::vault::VaultManager;

fn input(password: &str, file: &[u8]) -> Input {
    Input { password: String::from(password), file: file.to_vec() }
}

#[test]
fn factory_makes_the_command_asked_for() {
    let made = command_factory(Commands::Create {
        name: String::from("vault"),
        dir: String::from("/tmp"),
    });
    match made {
        Command::Create(c) => {
            assert_eq!(c.name, "vault");
            assert_eq!(c.dir, "/tmp");
        }
        _ => panic!("not a create command"),
    }
    match command_factory(Commands::Open { file_path: String::from("a/b.rpdb") }) {
        Command::Open(c) => assert_eq!(c.file_path, "a/b.rpdb"),
        _ => panic!("not an open command"),
    }
    assert!(matches!(command_factory(Commands::Config), Command::Config(_)));
}

#[test]
fn create_command_names_the_file() {
    let command = CreateCommand::new(String::from("secrets"), String::from("."));
    assert_eq!(command.name, "secrets");
    assert_eq!(command.dir, ".");
    assert_eq!(command.file_name(), "secrets.rpdb");
    assert_eq!(CreateCommand::new(String::new(), String::new()).file_name(), ".rpdb");
}

#[test]
fn create_then_open() {
    let create = command_factory(Commands::Create {
        name: String::from("mine"),
        dir: String::from("some/dir"),
    });
    let (dir, file_name, bytes) = match create.execute(input("abcdefgh", &[])) {
        Ok(Outcome::Write { dir, file_name, bytes }) => (dir, file_name, bytes),
        other => panic!("{:?}", other),
    };
    assert_eq!(dir, "some/dir");
    assert_eq!(file_name, "mine.rpdb");

    let open = command_factory(Commands::Open { file_path: String::from("some/dir/mine.rpdb") });
    let vault = match open.execute(input("abcdefgh", &bytes)) {
        Ok(Outcome::Opened(vault)) => vault,
        other => panic!("{:?}", other),
    };
    assert!(vault.header().is_valid());
    assert!(vault.body().directories.is_empty());
    let mut again = VaultManager::default();
    again.initialize_from_file(&bytes, String::from("abcdefgh")).unwrap();
    assert_eq!(vault, again);

    match open.execute(input("wrong", &bytes)) {
        Err(e) => assert_eq!(e, VaultError::AuthenticationFailure),
        other => panic!("{:?}", other),
    }
    match OpenCommand::new(String::from("x")).execute(input("abcdefgh", &[])) {
        Err(e) => assert_eq!(e, VaultError::EmptyFile),
        other => panic!("{:?}", other),
    }
}

#[test]
fn config_command_leaves_nothing_to_do() {
    assert!(matches!(ConfigCommand::new().execute(input("", &[])), Ok(Outcome::Done)));
    assert!(matches!(
        command_factory(Commands::Config).execute(input("p", &[1, 2])),
        Ok(Outcome::Done)
    ));
}

#[test]
fn error_texts() {
    assert_eq!(VaultError::InvalidSaltLength.describe(), "Invalid salt length");
    assert_eq!(VaultError::InvalidNonceLength.describe(), "Invalid nonce length");
    assert_eq!(VaultError::KeyDerivationError.describe(), "Could not generate argon2 hash");
    assert_eq!(VaultError::RandomError.describe(), "Could not generate salt");
    assert_eq!(VaultError::SealError.describe(), "Could not seal");
    assert_eq!(VaultError::AuthenticationFailure.describe(), "Could not decrypt");
    assert_eq!(VaultError::DirectoryNotFound.describe(), "Directory does not exist");
    assert_eq!(VaultError::KeyNotFound.describe(), "Key does not exist");
    assert_eq!(VaultError::EncodingError.describe(), "Key is not valid text");
    assert_eq!(VaultError::EmptyFile.describe(), "Read 0 bytes from file");
    assert_eq!(VaultError::ParseError.describe(), "Could not parse file");
    assert_eq!(VaultError::MissingHeader.describe(), "Could not parse header");
    assert_eq!(VaultError::InvalidConfiguration.describe(), "Invalid configuration");
    assert_eq!(ReplError::NoCommand.describe(), "No command provided");
    assert_eq!(ReplError::InvalidCommand.describe(), "Invalid command");
    assert_eq!(ReplError::Usage.describe(), "Incorrect usage of command. Try running help.");
    assert_eq!(
        ReplError::NameNotAlphanumeric.describe(),
        "Directory name must only consist of alphanumeric characters"
    );
    assert_eq!(ReplError::NameEmpty.describe(), "Directory name cannot be empty");
    assert_eq!(
        ReplError::NameStartsWithNumber.describe(),
        "Directory name cannot start with a number"
    );
}

#[test]
fn texts_are_compared_by_their_characters() {
    assert!(same_text("", ""));
    assert!(same_text("work", "work"));
    assert!(!same_text("work", "Work"));
    assert!(!same_text("work", "wor"));
    assert!(!same_text("wor", "work"));
    assert!(same_text("ünï✓", "ünï✓"));
    assert!(!same_text("ünï✓", "ünï✗"));
}

#[test]
fn directory_names() {
    assert_eq!(MKDirCommand::validate_dir_name("work"), Ok("work"));
    assert_eq!(MKDirCommand::validate_dir_name("w0rk2"), Ok("w0rk2"));
    assert_eq!(MKDirCommand::validate_dir_name("Ünï"), Ok("Ünï"));
    assert_eq!(MKDirCommand::validate_dir_name(""), Err(ReplError::NameEmpty));
    assert_eq!(MKDirCommand::validate_dir_name("2work"), Err(ReplError::NameStartsWithNumber));
    assert_eq!(MKDirCommand::validate_dir_name("٣work"), Err(ReplError::NameStartsWithNumber));
    assert_eq!(MKDirCommand::validate_dir_name("my work"), Err(ReplError::NameNotAlphanumeric));
    assert_eq!(MKDirCommand::validate_dir_name("work!"), Err(ReplError::NameNotAlphanumeric));
    assert_eq!(MKDirCommand::validate_dir_name("a_b"), Err(ReplError::NameNotAlphanumeric));
    // a sign is found before a number in front is
    assert_eq!(MKDirCommand::validate_dir_name("2-work"), Err(ReplError::NameNotAlphanumeric));
}

#[test]
fn commands_of_the_session() {
    assert_eq!(ReplCommandType::parse(&[]), Err(ReplError::NoCommand));
    assert_eq!(ReplCommandType::parse(&["ls"]), Ok(ReplCommandType::LS(LSCommand)));
    assert_eq!(ReplCommandType::parse(&["ls", "x"]), Err(ReplError::Usage));
    assert_eq!(ReplCommandType::parse(&["exit"]), Ok(ReplCommandType::EXIT(ExitCommand {})));
    assert_eq!(ReplCommandType::parse(&["exit", "now"]), Err(ReplError::Usage));
    assert_eq!(
        ReplCommandType::parse(&["get", "email"]),
        Ok(ReplCommandType::GET(GetCommand { key_name: String::from("email") }))
    );
    assert_eq!(ReplCommandType::parse(&["get"]), Err(ReplError::Usage));
    assert_eq!(ReplCommandType::parse(&["get", "a", "b"]), Err(ReplError::Usage));
    assert_eq!(
        ReplCommandType::parse(&["add", "email"]),
        Ok(ReplCommandType::ADD(AddCommand { key_name: String::from("email") }))
    );
    assert_eq!(ReplCommandType::parse(&["add"]), Err(ReplError::Usage));
    assert_eq!(
        ReplCommandType::parse(&["mkdir", "work", "x"]),
        Ok(ReplCommandType::MKDIR(MKDirCommand { dir_name: String::from("work") }))
    );
    assert_eq!(ReplCommandType::parse(&["mkdir", "work"]), Err(ReplError::Usage));
    assert_eq!(ReplCommandType::parse(&["mkdir"]), Err(ReplError::Usage));
    assert_eq!(
        ReplCommandType::parse(&["mkdir", "9lives", "x"]),
        Err(ReplError::NameStartsWithNumber)
    );
    assert_eq!(
        ReplCommandType::parse(&["mkdir", "a-b", "x"]),
        Err(ReplError::NameNotAlphanumeric)
    );
    assert_eq!(ReplCommandType::parse(&["LS"]), Err(ReplError::InvalidCommand));
    assert_eq!(ReplCommandType::parse(&["help"]), Err(ReplError::InvalidCommand));
    assert_eq!(ReplCommandType::parse(&[""]), Err(ReplError::InvalidCommand));
}

#[test]
fn each_command_reads_its_own_words() {
    assert_eq!(LSCommand::parse(&[]), Ok(LSCommand));
    assert_eq!(LSCommand::parse(&["x"]), Err(ReplError::Usage));
    assert_eq!(ExitCommand::parse(&[]), Ok(ExitCommand {}));
    assert_eq!(ExitCommand::parse(&["x"]), Err(ReplError::Usage));
    assert_eq!(GetCommand::parse(&["k"]), Ok(GetCommand { key_name: String::from("k") }));
    assert_eq!(GetCommand::parse(&[]), Err(ReplError::Usage));
    assert_eq!(AddCommand::parse(&["k"]), Ok(AddCommand { key_name: String::from("k") }));
    assert_eq!(AddCommand::parse(&["k", "v"]), Err(ReplError::Usage));
    assert_eq!(
        MKDirCommand::parse(&["d", "e"]),
        Ok(MKDirCommand { dir_name: String::from("d") })
    );
    assert_eq!(MKDirCommand::parse(&["", "e"]), Err(ReplError::NameEmpty));
    assert_eq!(MKDirCommand::parse(&["d"]), Err(ReplError::Usage));
}

#[test]
fn newline_is_stripped_from_the_password() {
    assert_eq!(InputReader::read_password("abcdefgh\n"), "abcdefgh");
    assert_eq!(InputReader::read_password("abcdefgh"), "abcdefgh");
    assert_eq!(InputReader::read_password("\n"), "");
    assert_eq!(InputReader::read_password(""), "");
    // only the one that ends the line
    assert_eq!(InputReader::read_password("ab\n\n"), "ab\n");
    assert_eq!(InputReader::read_password("a\nb"), "a\nb");
    assert_eq!(InputReader::read_password("pässwörd ✓\n"), "pässwörd ✓");
    assert_eq!(InputReader::read_password("trailing space \n"), "trailing space ");
}

#[test]
fn lines_are_split_into_words() {
    assert_eq!(InputReader::split_words(""), Vec::<String>::new());
    assert_eq!(InputReader::split_words("   \t\n"), Vec::<String>::new());
    assert_eq!(InputReader::split_words("ls"), vec!["ls"]);
    assert_eq!(InputReader::split_words("get email\n"), vec!["get", "email"]);
    assert_eq!(InputReader::split_words("  mkdir\twork   x  "), vec!["mkdir", "work", "x"]);
    assert_eq!(InputReader::split_words("a\u{00A0}b"), vec!["a", "b"]);
    assert_eq!(InputReader::split_words("a\u{200B}b"), vec!["a\u{200B}b"]);
    assert_eq!(InputReader::split_words("a\u{2003}b ü✓"), vec!["a", "b", "ü✓"]);
    for line in ["", " a  b ", "get email\n", "x\ty\rz", "  ", "ü ✓"] {
        let want: Vec<&str> = line.split_whitespace().collect();
        assert_eq!(InputReader::split_words(line), want);
    }
}

#[test]
fn lines_are_read_as_commands() {
    assert_eq!(InputReader::read_command("ls\n"), Ok(ReplCommandType::LS(LSCommand)));
    assert_eq!(InputReader::read_command("\n"), Err(ReplError::NoCommand));
    assert_eq!(InputReader::read_command(""), Err(ReplError::NoCommand));
    assert_eq!(
        InputReader::read_command("  get   email  \n"),
        Ok(ReplCommandType::GET(GetCommand { key_name: String::from("email") }))
    );
    assert_eq!(InputReader::read_command("get\n"), Err(ReplError::Usage));
    assert_eq!(InputReader::read_command("frobnicate\n"), Err(ReplError::InvalidCommand));
    assert_eq!(InputReader::read_command("exit\n"), Ok(ReplCommandType::EXIT(ExitCommand {})));
    assert_eq!(InputReader::read_command("mkdir 1st x\n"), Err(ReplError::NameStartsWithNumber));
}

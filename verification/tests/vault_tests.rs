use rustpass::envelope::{Body, Directory, Header, Record, Timestamp, RPDB, SIGNATURE, VERSION};
use rustpass::error::VaultError;
use rustpass::keygen::KeyGen;
use rustpass::vault::{DirectoryManager, Salts, VaultManager};

fn salts() -> Salts {
    Salts {
        master_nonce: [7u8; 12],
        master_salt: [1u8; 32],
        body_salt: [2u8; 32],
        argon_salt: [3u8; 32],
    }
}

fn fixed_vault(password: &str) -> VaultManager {
    let mut vm = VaultManager::default();
    vm.regenerate_with(salts(), Timestamp { seconds: 1_700_000_000, nanos: 5 }, String::from(password))
        .unwrap();
    vm
}

#[test]
fn test_init_save_open() {
    let master_password = "abcdefgh";
    let mut vm = VaultManager::default();
    vm.regenerate(String::from(master_password)).unwrap();

    let file = vm.save().unwrap();

    let mut vm1 = VaultManager::default();
    vm1.initialize_from_file(&file, String::from(master_password))
        .unwrap();

    assert_eq!(vm, vm1);
}

#[test]
fn test_directory_add_key() {
    let master_password = "abcdefgh";
    let dir_name = "test";
    let mut vm = VaultManager::default();
    vm.regenerate(String::from(master_password)).unwrap();
    vm.add_directory(&dir_name);
    let mut dm = vm.open_dir(&dir_name).unwrap();
    dm.add_record("aaa", "abc").unwrap();

    let buf = dm.get_record("aaa").unwrap();
    assert_eq!(buf, "abc");

    dm.remove_record("aaa").unwrap();
    assert!(dm.get_record("aaa").is_err());
    vm.remove_directory(dir_name).unwrap();
}

#[test]
fn default_vault_is_empty() {
    let vm = VaultManager::default();
    assert_eq!(*vm.header(), Header::default());
    assert_eq!(*vm.body(), Body::default());
    assert_eq!(vm.header().signature, 0);
    assert!(vm.body().directories.is_empty());
    assert_eq!(vm.get_directories(), Vec::<&str>::new());
}

#[test]
fn regenerate_sets_every_field() {
    let mut vm = VaultManager::default();
    vm.add_directory("left over");
    vm.regenerate(String::from("abcdefgh")).unwrap();
    let header = vm.header();
    assert_eq!(header.signature, 0x3af9c42);
    assert_eq!(header.signature, SIGNATURE);
    assert_eq!(header.version, 1);
    assert_eq!(header.version, VERSION);
    assert_eq!(header.master_salt.len(), 32);
    assert_eq!(header.master_nonce.len(), 12);
    assert_eq!(header.argon_salt.len(), 32);
    assert!(header.is_valid());
    let body = vm.body();
    assert_eq!(body.salt.len(), 32);
    assert!(body.created_at.is_some());
    assert_eq!(body.created_at, body.last_modified);
    assert!(body.directories.is_empty());
    assert_ne!(header.master_salt, header.argon_salt);
    assert_ne!(header.master_salt, body.salt);
}

#[test]
fn regenerate_twice_gives_another_vault() {
    let mut first = VaultManager::default();
    first.regenerate(String::from("abcdefgh")).unwrap();
    let mut second = VaultManager::default();
    second.regenerate(String::from("abcdefgh")).unwrap();
    assert_ne!(first.header().master_salt, second.header().master_salt);
    assert_ne!(first.header().master_nonce, second.header().master_nonce);
    assert_ne!(first, second);
}

#[test]
fn regenerate_with_is_exact() {
    let vm = fixed_vault("abcdefgh");
    assert_eq!(
        *vm.header(),
        Header {
            signature: 0x3af9c42,
            version: 1,
            master_salt: vec![1u8; 32],
            master_nonce: vec![7u8; 12],
            argon_salt: vec![3u8; 32],
        }
    );
    assert_eq!(
        *vm.body(),
        Body {
            salt: vec![2u8; 32],
            created_at: Some(Timestamp { seconds: 1_700_000_000, nanos: 5 }),
            last_modified: Some(Timestamp { seconds: 1_700_000_000, nanos: 5 }),
            directories: vec![],
        }
    );
    let same = fixed_vault("abcdefgh");
    assert_eq!(vm, same);
    let other = fixed_vault("abcdefgi");
    assert_ne!(vm, other);
}

#[test]
fn saved_file_is_the_same_for_the_same_vault() {
    let vm = fixed_vault("abcdefgh");
    let first = vm.save().unwrap();
    let second = vm.save().unwrap();
    assert_eq!(first, second);
    // header: tag, length, then the header's own bytes
    let header = vm.header().write_to_bytes();
    assert_eq!(first[0], 0x0A);
    assert_eq!(first[1] as usize, header.len());
    assert_eq!(&first[2..2 + header.len()], &header[..]);
    // the sealed body is 16 bytes longer than the body
    let body = vm.body().write_to_bytes();
    assert_eq!(first[2 + header.len()], 0x12);
    assert_eq!(first[3 + header.len()] as usize, body.len() + 16);
    assert_eq!(first.len(), 4 + header.len() + body.len() + 16);
    let envelope = vm.encrypt().unwrap();
    assert_eq!(envelope.write_to_bytes(), first);
    assert_eq!(envelope.header, Some(vm.header().clone()));
    assert_ne!(&envelope.body[..body.len()], &body[..]);
}

#[test]
fn round_trip_after_mutations() {
    let password = "correct horse battery staple";
    let mut vm = VaultManager::default();
    vm.regenerate(String::from(password)).unwrap();
    vm.add_directory("work");
    vm.add_directory("home");
    vm.add_directory("");
    {
        let mut dm = vm.open_dir("work").unwrap();
        dm.add_record("email", "a@b.com").unwrap();
        dm.add_record("vpn", "s3cr3t").unwrap();
        dm.remove_record("email").unwrap();
        dm.add_record("unicode", "pässwörd ✓").unwrap();
    }
    {
        let mut dm = vm.open_dir("home").unwrap();
        dm.add_record("", "").unwrap();
        dm.rename("house");
    }
    vm.remove_directory("").unwrap();
    let file = vm.save().unwrap();

    let mut reopened = VaultManager::default();
    reopened.initialize_from_file(&file, String::from(password)).unwrap();
    assert_eq!(reopened, vm);
    assert_eq!(reopened.header(), vm.header());
    assert_eq!(reopened.body(), vm.body());
    assert_eq!(reopened.get_directories(), vec!["work", "house"]);
    let mut dm = reopened.open_dir("work").unwrap();
    assert_eq!(dm.get_record_names(), vec!["vpn", "unicode"]);
    assert_eq!(dm.get_record("vpn").unwrap(), "s3cr3t");
    assert_eq!(dm.get_record("unicode").unwrap(), "pässwörd ✓");
    let mut dm = reopened.open_dir("house").unwrap();
    assert_eq!(dm.get_record("").unwrap(), "");
    // saving what was opened gives the same bytes again
    assert_eq!(reopened.save().unwrap(), file);
}

#[test]
fn scenario_work_email() {
    let mut vm = VaultManager::default();
    vm.regenerate(String::from("abcdefgh")).unwrap();
    vm.add_directory("work");
    vm.open_dir("work").unwrap().add_record("email", "a@b.com").unwrap();
    let file = vm.save().unwrap();

    let mut reopened = VaultManager::default();
    reopened.initialize_from_file(&file, String::from("abcdefgh")).unwrap();
    let value = reopened.open_dir("work").unwrap().get_record("email").unwrap();
    assert_eq!(value, "a@b.com");
}

#[test]
fn scenario_remove_then_add_reuses_the_position() {
    let mut vm = fixed_vault("abcdefgh");
    vm.add_directory("x");
    let mut dm = vm.open_dir("x").unwrap();
    dm.add_record("k", "v").unwrap();
    let first = dm.dir.records[0].clone();
    dm.remove_record("k").unwrap();
    assert!(dm.dir.records.is_empty());
    dm.add_record("k2", "v2").unwrap();
    assert_eq!(dm.get_record_names(), vec!["k2"]);
    assert_eq!(dm.get_record("k2").unwrap(), "v2");
    assert_eq!(dm.get_record("k"), Err(VaultError::KeyNotFound));
    let second = dm.dir.records[0].clone();
    // the nonce follows the position, so the new record has the old one's
    assert_eq!(second.nonce, first.nonce);
    assert_eq!(second.nonce.len(), 12);
    assert_eq!(second.data.len(), 2 + 16);
    assert_ne!(second.data, first.data);
    // and each seal stands on its own: the old ciphertext does not open as k2
    dm.dir.records[0].data = first.data.clone();
    assert_eq!(dm.get_record("k2"), Err(VaultError::AuthenticationFailure));
}

#[test]
fn wrong_password_is_an_authentication_failure() {
    let mut vm = VaultManager::default();
    vm.regenerate(String::from("abcdefgh")).unwrap();
    vm.add_directory("work");
    let file = vm.save().unwrap();

    let mut other = fixed_vault("something else");
    let before = fixed_vault("something else");
    for wrong in ["abcdefgH", "abcdefgh ", "", "abcdefg", "abcdefgh\n"] {
        assert_eq!(
            other.initialize_from_file(&file, String::from(wrong)),
            Err(VaultError::AuthenticationFailure)
        );
        // a failed open leaves the vault in memory as it was
        assert_eq!(other, before);
    }
    other.initialize_from_file(&file, String::from("abcdefgh")).unwrap();
    assert_eq!(other, vm);
}

fn flipped(file: &[u8], at: usize, bit: u8) -> Vec<u8> {
    let mut copy = file.to_vec();
    copy[at] ^= 1 << bit;
    copy
}

fn assert_rejected(file: &[u8], password: &str) {
    let mut vm = VaultManager::default();
    let r = vm.initialize_from_file(file, String::from(password));
    assert!(
        r == Err(VaultError::ParseError) || r == Err(VaultError::AuthenticationFailure),
        "{:?}",
        r
    );
    assert_eq!(vm, VaultManager::default());
}

#[test]
fn tampered_header_is_rejected() {
    let mut vm = fixed_vault("abcdefgh");
    vm.add_directory("work");
    let file = vm.save().unwrap();
    // envelope: 0x0A len | header: 0x08 sig(4) 0x10 ver(1) 0x1A 32 salt 0x22 12 nonce 0x2A 32 salt
    assert_eq!(file[2], 0x08);
    let signature_at = 3;
    assert_eq!(file[7], 0x10);
    let version_at = 8;
    assert_eq!(file[9], 0x1A);
    let master_salt_at = 11;
    assert_eq!(file[43], 0x22);
    let master_nonce_at = 45;
    assert_eq!(file[57], 0x2A);
    let argon_salt_at = 59;
    for at in [signature_at, version_at, master_salt_at, master_nonce_at, argon_salt_at] {
        assert_rejected(&flipped(&file, at, 0), "abcdefgh");
    }
    // the signature and the version are checked before any key is derived
    let mut vm1 = VaultManager::default();
    assert_eq!(
        vm1.initialize_from_file(&flipped(&file, signature_at, 1), String::from("abcdefgh")),
        Err(VaultError::ParseError)
    );
    assert_eq!(
        vm1.initialize_from_file(&flipped(&file, version_at, 1), String::from("abcdefgh")),
        Err(VaultError::ParseError)
    );
    // a changed salt or nonce ends at the cipher
    for at in [master_salt_at + 5, master_nonce_at + 3, argon_salt_at + 31] {
        assert_eq!(
            vm1.initialize_from_file(&flipped(&file, at, 7), String::from("abcdefgh")),
            Err(VaultError::AuthenticationFailure)
        );
    }
    // tags and lengths
    for at in [0, 1, 2, 7, 9, 10, 43, 44, 57, 58] {
        assert_rejected(&flipped(&file, at, 0), "abcdefgh");
        assert_rejected(&flipped(&file, at, 6), "abcdefgh");
    }
}

#[test]
fn tampered_body_is_rejected() {
    let mut vm = fixed_vault("abcdefgh");
    vm.add_directory("work");
    let file = vm.save().unwrap();
    let body_tag = 2 + file[1] as usize;
    assert_eq!(file[body_tag], 0x12);
    let first = body_tag + 2;
    let last = file.len() - 1;
    let mut vm1 = VaultManager::default();
    for at in [first, first + 1, (first + last) / 2, last - 16, last - 15, last] {
        for bit in [0u8, 7u8] {
            assert_eq!(
                vm1.initialize_from_file(&flipped(&file, at, bit), String::from("abcdefgh")),
                Err(VaultError::AuthenticationFailure)
            );
        }
    }
    assert_rejected(&flipped(&file, body_tag, 0), "abcdefgh");
    assert_rejected(&flipped(&file, body_tag + 1, 0), "abcdefgh");
    // cut short, or with something behind it
    assert_rejected(&file[..file.len() - 1], "abcdefgh");
    let mut longer = file.clone();
    longer.push(0);
    assert_rejected(&longer, "abcdefgh");
}

#[test]
fn body_does_not_open_beside_another_header() {
    let mut vm = fixed_vault("abcdefgh");
    vm.add_directory("work");
    let envelope = vm.encrypt().unwrap();
    let mut header = envelope.header.clone().unwrap();
    // a header that differs only in what is authenticated but not used
    header.master_nonce[0] ^= 1;
    let swapped = RPDB { header: Some(header), body: envelope.body.clone() };
    let mut vm1 = VaultManager::default();
    assert_eq!(
        vm1.initialize_from_file(&swapped.write_to_bytes(), String::from("abcdefgh")),
        Err(VaultError::AuthenticationFailure)
    );
}

#[test]
fn files_that_are_no_vault() {
    let mut vm = VaultManager::default();
    assert_eq!(vm.initialize_from_file(&[], String::from("abcdefgh")), Err(VaultError::EmptyFile));
    assert_eq!(
        vm.initialize_from_file(b"not a vault", String::from("abcdefgh")),
        Err(VaultError::ParseError)
    );
    let headless = RPDB { header: None, body: vec![1, 2, 3] };
    assert_eq!(headless.write_to_bytes(), vec![0x12, 3, 1, 2, 3]);
    assert_eq!(
        vm.initialize_from_file(&headless.write_to_bytes(), String::from("abcdefgh")),
        Err(VaultError::MissingHeader)
    );
    // a header of a vault that was never set up
    let blank = RPDB { header: Some(Header::default()), body: vec![1, 2, 3] };
    assert_eq!(
        vm.initialize_from_file(&blank.write_to_bytes(), String::from("abcdefgh")),
        Err(VaultError::ParseError)
    );
    // a salt of the wrong length
    let mut header = fixed_vault("abcdefgh").header().clone();
    header.argon_salt.push(0);
    let long_salt = RPDB { header: Some(header), body: vec![0u8; 40] };
    assert_eq!(
        vm.initialize_from_file(&long_salt.write_to_bytes(), String::from("abcdefgh")),
        Err(VaultError::ParseError)
    );
    // a body too short to hold a tag
    let header = fixed_vault("abcdefgh").header().clone();
    let short = RPDB { header: Some(header), body: vec![0u8; 15] };
    assert_eq!(
        vm.initialize_from_file(&short.write_to_bytes(), String::from("abcdefgh")),
        Err(VaultError::AuthenticationFailure)
    );
    assert_eq!(vm, VaultManager::default());
}

#[test]
fn sealed_garbage_is_a_parse_error() {
    // a body that opens but is no body
    let vm = fixed_vault("abcdefgh");
    let key = KeyGen::derive_key(
        &KeyGen::encrypt_master(String::from("abcdefgh"), &[3u8; 32]).unwrap(),
        &[1u8; 32],
    )
    .unwrap();
    let unbound = ring::aead::UnboundKey::new(&ring::aead::AES_256_GCM, &key.bytes).unwrap();
    let sealing = ring::aead::LessSafeKey::new(unbound);
    let mut body = vec![0xFFu8, 0xFF, 0xFF];
    sealing
        .seal_in_place_append_tag(
            ring::aead::Nonce::assume_unique_for_key([7u8; 12]),
            ring::aead::Aad::from(vm.header().write_to_bytes()),
            &mut body,
        )
        .unwrap();
    let file = RPDB { header: Some(vm.header().clone()), body }.write_to_bytes();
    let mut vm1 = VaultManager::default();
    assert_eq!(
        vm1.initialize_from_file(&file, String::from("abcdefgh")),
        Err(VaultError::ParseError)
    );
}

#[test]
fn default_vault_cannot_be_saved() {
    let vm = VaultManager::default();
    assert_eq!(vm.save(), Err(VaultError::InvalidSaltLength));
    assert_eq!(vm.encrypt().err(), Some(VaultError::InvalidSaltLength));
}

#[test]
fn directories_are_listed_in_order() {
    let mut vm = VaultManager::default();
    vm.add_directory("b");
    vm.add_directory("a");
    vm.add_directory("b");
    assert_eq!(vm.get_directories(), vec!["b", "a", "b"]);
    assert_eq!(vm.find_directory("a"), Some(1));
    assert_eq!(vm.find_directory("b"), Some(0));
    assert_eq!(vm.find_directory("c"), None);
    // the first of two is the one that leaves
    vm.remove_directory("b").unwrap();
    assert_eq!(vm.get_directories(), vec!["a", "b"]);
    vm.remove_directory("b").unwrap();
    assert_eq!(vm.get_directories(), vec!["a"]);
    assert_eq!(vm.remove_directory("b"), Err(VaultError::DirectoryNotFound));
    assert_eq!(vm.get_directories(), vec!["a"]);
}

#[test]
fn open_dir_finds_the_first_of_a_name() {
    let mut vm = fixed_vault("abcdefgh");
    vm.add_directory("d");
    vm.add_directory("d");
    vm.open_dir("d").unwrap().add_record("k", "v").unwrap();
    assert_eq!(vm.body().directories[0].records.len(), 1);
    assert_eq!(vm.body().directories[1].records.len(), 0);
    assert_eq!(vm.open_dir("e").err(), Some(VaultError::DirectoryNotFound));
    {
        let dm = vm.open_dir("d").unwrap();
        assert_eq!(dm.salt, [2u8; 32]);
        assert_eq!(dm.dir.name, "d");
    }
    // a vault that was never set up has no salt for its records
    let mut blank = VaultManager::default();
    blank.add_directory("d");
    assert_eq!(blank.open_dir("d").err(), Some(VaultError::InvalidSaltLength));
    assert_eq!(blank.open_dir("e").err(), Some(VaultError::DirectoryNotFound));
}

#[test]
fn record_is_bound_to_its_name() {
    let mut vm = fixed_vault("abcdefgh");
    vm.add_directory("d");
    let mut dm = vm.open_dir("d").unwrap();
    dm.add_record("one", "first value").unwrap();
    dm.add_record("two", "second value").unwrap();
    assert_eq!(dm.get_record("one").unwrap(), "first value");
    assert_eq!(dm.get_record("two").unwrap(), "second value");
    // the first record's ciphertext in the second record's place
    let stolen = dm.dir.records[0].data.clone();
    dm.dir.records[1].data = stolen;
    assert_eq!(dm.get_record("two"), Err(VaultError::AuthenticationFailure));
    // and with the first record's nonce too: only the name differs now
    let nonce = dm.dir.records[0].nonce.clone();
    dm.dir.records[1].nonce = nonce;
    assert_eq!(dm.get_record("two"), Err(VaultError::AuthenticationFailure));
    // under its own name it opens again
    dm.dir.records[1].name = String::from("one");
    dm.dir.records.remove(0);
    assert_eq!(dm.get_record("one").unwrap(), "first value");
}

#[test]
fn nonces_of_records_added_in_a_row_differ() {
    let mut vm = fixed_vault("abcdefgh");
    vm.add_directory("d");
    let mut dm = vm.open_dir("d").unwrap();
    for name in ["a", "b", "c", "d", "e"] {
        dm.add_record(name, "same value").unwrap();
    }
    let records = &dm.dir.records;
    for i in 0..records.len() {
        assert_eq!(records[i].nonce.len(), 12);
        assert_eq!(
            records[i].nonce,
            rustpass::keygen::generate_nonce_buf(&[2u8; 32], "ignored", i).unwrap().to_vec()
        );
        for j in 0..i {
            assert_ne!(records[i].nonce, records[j].nonce);
            assert_ne!(records[i].data, records[j].data);
        }
    }
}

#[test]
fn rename_keeps_every_value() {
    let mut vm = fixed_vault("abcdefgh");
    vm.add_directory("old");
    let mut dm = vm.open_dir("old").unwrap();
    dm.add_record("k1", "v1").unwrap();
    dm.add_record("k2", "v2").unwrap();
    let before = dm.dir.records.clone();
    dm.rename("new");
    assert_eq!(dm.dir.name, "new");
    assert_eq!(dm.dir.records, before);
    assert_eq!(dm.get_record("k1").unwrap(), "v1");
    assert_eq!(dm.get_record("k2").unwrap(), "v2");
    // a record added after the renaming is sealed as it would have been before
    dm.add_record("k3", "v3").unwrap();
    assert_eq!(dm.get_record("k3").unwrap(), "v3");
    assert_eq!(vm.get_directories(), vec!["new"]);
    assert_eq!(vm.open_dir("new").unwrap().get_record("k2").unwrap(), "v2");
    assert_eq!(vm.open_dir("old").err(), Some(VaultError::DirectoryNotFound));
}

#[test]
fn records_of_one_name() {
    let mut vm = fixed_vault("abcdefgh");
    vm.add_directory("d");
    let mut dm = vm.open_dir("d").unwrap();
    dm.add_record("k", "first").unwrap();
    dm.add_record("k", "second").unwrap();
    assert_eq!(dm.get_record_names(), vec!["k", "k"]);
    assert_eq!(dm.find_record("k"), Some(0));
    assert_eq!(dm.find_record("K"), None);
    assert_eq!(dm.get_record("k").unwrap(), "first");
    dm.remove_record("k").unwrap();
    assert_eq!(dm.get_record("k").unwrap(), "second");
    dm.remove_record("k").unwrap();
    assert_eq!(dm.remove_record("k"), Err(VaultError::KeyNotFound));
    assert_eq!(dm.get_record("k"), Err(VaultError::KeyNotFound));
}

#[test]
fn record_errors() {
    let salt = [2u8; 32];
    let key = [9u8; 32];
    let mut dir = Directory { name: String::from("d"), records: vec![] };
    let mut dm = DirectoryManager::new(&mut dir, &salt, &key);
    dm.add_record("k", "v").unwrap();
    assert_eq!(dm.get_record("k").unwrap(), "v");
    // another master key does not open it
    let other = [8u8; 32];
    let mut copy = dm.dir.clone();
    assert_eq!(
        DirectoryManager::new(&mut copy, &salt, &other).get_record("k"),
        Err(VaultError::AuthenticationFailure)
    );
    // nor does another salt
    assert_eq!(
        DirectoryManager::new(&mut copy, &[0u8; 32], &key).get_record("k"),
        Err(VaultError::AuthenticationFailure)
    );
    // a nonce of the wrong length
    dm.dir.records[0].nonce.push(0);
    assert_eq!(dm.get_record("k"), Err(VaultError::InvalidNonceLength));
    dm.dir.records[0].nonce.pop();
    // a flipped bit in the ciphertext, and in the tag
    dm.dir.records[0].data[0] ^= 1;
    assert_eq!(dm.get_record("k"), Err(VaultError::AuthenticationFailure));
    dm.dir.records[0].data[0] ^= 1;
    let last = dm.dir.records[0].data.len() - 1;
    dm.dir.records[0].data[last] ^= 0x80;
    assert_eq!(dm.get_record("k"), Err(VaultError::AuthenticationFailure));
    dm.dir.records[0].data[last] ^= 0x80;
    assert_eq!(dm.get_record("k").unwrap(), "v");
    // data too short to hold a tag
    dm.dir.records[0].data.truncate(15);
    assert_eq!(dm.get_record("k"), Err(VaultError::AuthenticationFailure));
}

#[test]
fn sealed_bytes_that_are_no_text() {
    let salt = [2u8; 32];
    let master = [9u8; 32];
    let key = KeyGen::derive_key(&master, &salt).unwrap();
    let nonce = rustpass::keygen::generate_nonce_buf(&salt, "d", 0).unwrap();
    let unbound = ring::aead::UnboundKey::new(&ring::aead::AES_256_GCM, &key.bytes).unwrap();
    let sealing = ring::aead::LessSafeKey::new(unbound);
    let mut data = vec![0xC3u8, 0x28];
    sealing
        .seal_in_place_append_tag(
            ring::aead::Nonce::assume_unique_for_key(nonce),
            ring::aead::Aad::from("k"),
            &mut data,
        )
        .unwrap();
    let record = Record { name: String::from("k"), nonce: nonce.to_vec(), data };
    let mut dir = Directory { name: String::from("d"), records: vec![record] };
    let mut dm = DirectoryManager::new(&mut dir, &salt, &master);
    assert_eq!(dm.get_record("k"), Err(VaultError::EncodingError));
}

#[test]
fn add_record_seals_as_the_cipher_does() {
    let salt = [2u8; 32];
    let master = [9u8; 32];
    let mut dir = Directory { name: String::from("d"), records: vec![] };
    let mut dm = DirectoryManager::new(&mut dir, &salt, &master);
    dm.add_record("first", "one").unwrap();
    dm.add_record("email", "a@b.com").unwrap();

    let key = KeyGen::derive_key(&master, &salt).unwrap();
    let nonce = rustpass::keygen::generate_nonce_buf(&salt, "d", 1).unwrap();
    let unbound = ring::aead::UnboundKey::new(&ring::aead::AES_256_GCM, &key.bytes).unwrap();
    let sealing = ring::aead::LessSafeKey::new(unbound);
    let mut data = b"a@b.com".to_vec();
    sealing
        .seal_in_place_append_tag(
            ring::aead::Nonce::assume_unique_for_key(nonce),
            ring::aead::Aad::from("email"),
            &mut data,
        )
        .unwrap();
    assert_eq!(
        dir.records[1],
        Record { name: String::from("email"), nonce: nonce.to_vec(), data }
    );
}

#[test]
fn salts_are_what_was_drawn() {
    let made = Salts::from_draws(Ok([1u8; 32]), Ok([2u8; 32]), Ok([3u8; 32]), Ok([7u8; 12])).unwrap();
    assert_eq!(made.master_salt, [1u8; 32]);
    assert_eq!(made.body_salt, [2u8; 32]);
    assert_eq!(made.argon_salt, [3u8; 32]);
    assert_eq!(made.master_nonce, [7u8; 12]);
    // the vault made from them is the vault made from the same values given by hand
    let mut vm = VaultManager::default();
    vm.regenerate_with(made, Timestamp { seconds: 1_700_000_000, nanos: 5 }, String::from("abcdefgh"))
        .unwrap();
    assert_eq!(vm, fixed_vault("abcdefgh"));
}

#[test]
fn one_failed_draw_fails_the_salts() {
    let failed = ring::error::Unspecified;
    assert_eq!(
        Salts::from_draws(Err(failed), Ok([2u8; 32]), Ok([3u8; 32]), Ok([7u8; 12])).err(),
        Some(VaultError::RandomError)
    );
    assert_eq!(
        Salts::from_draws(Ok([1u8; 32]), Err(failed), Ok([3u8; 32]), Ok([7u8; 12])).err(),
        Some(VaultError::RandomError)
    );
    assert_eq!(
        Salts::from_draws(Ok([1u8; 32]), Ok([2u8; 32]), Err(failed), Ok([7u8; 12])).err(),
        Some(VaultError::RandomError)
    );
    assert_eq!(
        Salts::from_draws(Ok([1u8; 32]), Ok([2u8; 32]), Ok([3u8; 32]), Err(failed)).err(),
        Some(VaultError::RandomError)
    );
    assert_eq!(
        Salts::from_draws(Err(failed), Err(failed), Err(failed), Err(failed)).err(),
        Some(VaultError::RandomError)
    );
}

#[test]
fn new_salts_are_random() {
    let first = Salts::new().unwrap();
    let second = Salts::new().unwrap();
    assert_ne!(first.master_salt, second.master_salt);
    assert_ne!(first.body_salt, second.body_salt);
    assert_ne!(first.argon_salt, second.argon_salt);
    assert_ne!(first.master_nonce, second.master_nonce);
    assert_ne!(first.master_salt, first.body_salt);
    assert_ne!(first.master_salt, first.argon_salt);
    assert_ne!(first.body_salt, first.argon_salt);
    assert_ne!(first.master_salt, [0u8; 32]);
    assert_ne!(first.master_nonce, [0u8; 12]);
}

#[test]
fn sealed_data_is_a_tag_longer_than_the_value() {
    let salt = [2u8; 32];
    let master = [9u8; 32];
    let mut dir = Directory { name: String::from("d"), records: vec![] };
    let mut dm = DirectoryManager::new(&mut dir, &salt, &master);
    let values = ["", "v", "v2", "a@b.com", "pässwörd ✓", "0123456789abcdef0123456789abcdef!"];
    for (i, value) in values.iter().enumerate() {
        dm.add_record(&format!("k{}", i), value).unwrap();
        let record = &dm.dir.records[i];
        // the length in bytes, not in characters
        assert_eq!(record.data.len(), value.len() + 16);
        assert_eq!(record.nonce.len(), 12);
    }
    assert_eq!(dm.dir.records[4].data.len(), 14 + 16);
    assert_eq!(dm.dir.records.len(), values.len());
}

#[test]
fn sealed_body_is_a_tag_longer_than_the_body() {
    let mut vm = fixed_vault("abcdefgh");
    for round in 0..3 {
        let envelope = vm.encrypt().unwrap();
        assert_eq!(envelope.body.len(), vm.body().write_to_bytes().len() + 16);
        vm.add_directory(&format!("dir{}", round));
        vm.open_dir(&format!("dir{}", round)).unwrap().add_record("k", "v").unwrap();
    }
}

#[test]
fn file_cut_off_behind_its_header() {
    let vm = fixed_vault("abcdefgh");
    let file = vm.save().unwrap();
    let header_end = 2 + file[1] as usize;
    let mut vm1 = VaultManager::default();
    // nothing behind the header: a sealed body of no bytes
    assert_eq!(
        vm1.initialize_from_file(&file[..header_end], String::from("abcdefgh")),
        Err(VaultError::AuthenticationFailure)
    );
    // a sealed body of 1 to 15 bytes
    for len in [1usize, 8, 15] {
        let short = RPDB { header: Some(vm.header().clone()), body: vec![0xAB; len] };
        assert_eq!(
            vm1.initialize_from_file(&short.write_to_bytes(), String::from("abcdefgh")),
            Err(VaultError::AuthenticationFailure)
        );
    }
    assert_eq!(vm1, VaultManager::default());
}

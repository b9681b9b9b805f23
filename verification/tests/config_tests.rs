use rustpass::config::{Config, LocalConfig};
use rustpass::error::VaultError;

#[test]
fn test_save_restore() {
    let mut want = LocalConfig::new();
    want.iterations = 5;
    let file = want.save();

    let mut config = LocalConfig::new();
    config.init_from_file(&file).unwrap();
    assert_eq!(config, want);
}

#[test]
fn default_parameters() {
    let config = LocalConfig::new();
    assert_eq!(config.chunk_size, 16);
    assert_eq!(config.iterations, 2);
    assert_eq!(config.memory, 16);
    assert_eq!(config.parallelism, 1);
    assert_eq!(LocalConfig::default(), config);
}

#[test]
fn saved_bytes_are_exact() {
    let config = LocalConfig { chunk_size: 16, iterations: 300, memory: 1, parallelism: 0 };
    assert_eq!(config.save(), vec![0x08, 16, 0x10, 0xAC, 0x02, 0x18, 1]);
}

#[test]
fn zero_parameter_is_refused() {
    let stored = Config { chunk_size: 16, iterations: 0, memory: 16, parallelism: 1 };
    assert_eq!(stored.validate(), None);
    let mut config = LocalConfig::new();
    let before = config;
    assert_eq!(config.init_from_file(&stored.write_to_bytes()), Err(VaultError::InvalidConfiguration));
    assert_eq!(config, before);
    assert_eq!(config.init_from_file(&[]), Err(VaultError::InvalidConfiguration));
}

#[test]
fn all_nonzero_is_valid() {
    let stored = Config { chunk_size: 1, iterations: 1, memory: 1, parallelism: 1 };
    assert_eq!(stored.validate(), Some(()));
}

#[test]
fn malformed_configuration_is_refused() {
    let mut config = LocalConfig::new();
    // a varint that never ends
    assert_eq!(config.init_from_file(&[0x08, 0x80]), Err(VaultError::ParseError));
    // a zero written out
    assert_eq!(config.init_from_file(&[0x08, 0x00]), Err(VaultError::ParseError));
    // fields out of order
    assert_eq!(config.init_from_file(&[0x10, 2, 0x08, 16]), Err(VaultError::ParseError));
    // a value beyond 32 bits
    assert_eq!(
        config.init_from_file(&[0x08, 0x80, 0x80, 0x80, 0x80, 0x10]),
        Err(VaultError::ParseError)
    );
    assert_eq!(config, LocalConfig::new());
}

//! The cost parameters of password stretching, as they are kept in a
//! configuration file: four unsigned numbers, none of which may be zero.
use crate::envelope::{FIELD_1_VARINT, FIELD_2_VARINT, FIELD_3_VARINT, FIELD_4_VARINT};
use crate::error::VaultError;
use crate::wire::{
    lemma_concat_assoc, lemma_concat_empty, lemma_uint_field_canonical,
    lemma_uint_field_roundtrip, lemma_uint_field_starts, parse_uint_field, read_uint_field,
    uint_field, write_uint_field,
};
use vstd::prelude::*;
use vstd::std_specs::convert::FromSpecImpl;

verus! {

/// The parameters as they are stored.
#[derive(Debug, Clone, Copy, PartialEq, Eq)]
pub struct Config {
    pub chunk_size: u32,
    pub iterations: u32,
    pub memory: u32,
    pub parallelism: u32,
}

/// The parameters as the program holds them.
#[derive(Debug, Clone, Copy, PartialEq)]
pub struct LocalConfig {
    pub chunk_size: u32,
    pub iterations: u32,
    pub memory: u32,
    pub parallelism: u32,
}

impl From<LocalConfig> for Config {
    fn from(value: LocalConfig) -> (config: Config) {
        Config {
            chunk_size: value.chunk_size,
            iterations: value.iterations,
            memory: value.memory,
            parallelism: value.parallelism,
        }
    }
}

impl FromSpecImpl<LocalConfig> for Config {
    open spec fn obeys_from_spec() -> bool {
        true
    }

    open spec fn from_spec(value: LocalConfig) -> Config {
        value.stored()
    }
}

impl From<Config> for LocalConfig {
    fn from(value: Config) -> (config: LocalConfig) {
        LocalConfig {
            chunk_size: value.chunk_size,
            iterations: value.iterations,
            memory: value.memory,
            parallelism: value.parallelism,
        }
    }
}

impl FromSpecImpl<Config> for LocalConfig {
    open spec fn obeys_from_spec() -> bool {
        true
    }

    open spec fn from_spec(value: Config) -> LocalConfig {
        value.held()
    }
}

impl Default for LocalConfig {
    fn default() -> (config: LocalConfig)
        ensures
            config == LocalConfig::initial(),
    {
        LocalConfig { chunk_size: 16, iterations: 2, memory: 16, parallelism: 1 }
    }
}

/// The bytes of the parameters: chunk size, iterations, memory and
/// parallelism, as fields 1 to 4.
pub open spec fn encode_config(c: Config) -> Seq<u8> {
    uint_field(FIELD_1_VARINT, c.chunk_size as u64) + uint_field(
        FIELD_2_VARINT,
        c.iterations as u64,
    ) + uint_field(FIELD_3_VARINT, c.memory as u64) + uint_field(
        FIELD_4_VARINT,
        c.parallelism as u64,
    )
}

/// The parameters that the bytes hold, if they are the encoding of some.
pub open spec fn parse_config(b: Seq<u8>) -> Option<Config> {
    match parse_uint_field(FIELD_1_VARINT, b) {
        Some((chunk_size, b1)) => match parse_uint_field(FIELD_2_VARINT, b1) {
            Some((iterations, b2)) => match parse_uint_field(FIELD_3_VARINT, b2) {
                Some((memory, b3)) => match parse_uint_field(FIELD_4_VARINT, b3) {
                    Some((parallelism, b4)) => if b4.len() == 0 && chunk_size <= u32::MAX
                        && iterations <= u32::MAX && memory <= u32::MAX && parallelism
                        <= u32::MAX {
                        Some(
                            Config {
                                chunk_size: chunk_size as u32,
                                iterations: iterations as u32,
                                memory: memory as u32,
                                parallelism: parallelism as u32,
                            },
                        )
                    } else {
                        None
                    },
                    None => None,
                },
                None => None,
            },
            None => None,
        },
        None => None,
    }
}

impl Config {
    /// The same parameters as the program holds them.
    pub open spec fn held(self) -> LocalConfig {
        LocalConfig {
            chunk_size: self.chunk_size,
            iterations: self.iterations,
            memory: self.memory,
            parallelism: self.parallelism,
        }
    }

    /// True where no parameter is zero.
    pub open spec fn valid(self) -> bool {
        self.parallelism != 0 && self.memory != 0 && self.iterations != 0 && self.chunk_size != 0
    }

    /// `Some` where no parameter is zero.
    pub fn validate(&self) -> (r: Option<()>)
        ensures
            r is Some <==> self.valid(),
    {
        if self.parallelism != 0 && self.memory != 0 && self.iterations != 0 && self.chunk_size
            != 0 {
            Some(())
        } else {
            None
        }
    }

    /// The bytes of these parameters.
    pub fn write_to_bytes(&self) -> (out: Vec<u8>)
        ensures
            out@ == encode_config(*self),
    {
        let mut out: Vec<u8> = Vec::new();
        write_uint_field(&mut out, FIELD_1_VARINT, self.chunk_size as u64);
        write_uint_field(&mut out, FIELD_2_VARINT, self.iterations as u64);
        write_uint_field(&mut out, FIELD_3_VARINT, self.memory as u64);
        write_uint_field(&mut out, FIELD_4_VARINT, self.parallelism as u64);
        proof {
            assert(out@ =~= encode_config(*self));
        }
        out
    }

    /// The parameters that the bytes hold, if they are the encoding of some.
    pub fn parse_from_bytes(b: &[u8]) -> (r: Option<Config>)
        ensures
            r == parse_config(b@),
    {
        proof {
            assert(b@.skip(0) =~= b@);
        }
        let (chunk_size, at1) = match read_uint_field(b, 0, FIELD_1_VARINT) {
            Some(x) => x,
            None => {
                return None;
            },
        };
        let (iterations, at2) = match read_uint_field(b, at1, FIELD_2_VARINT) {
            Some(x) => x,
            None => {
                return None;
            },
        };
        let (memory, at3) = match read_uint_field(b, at2, FIELD_3_VARINT) {
            Some(x) => x,
            None => {
                return None;
            },
        };
        let (parallelism, at4) = match read_uint_field(b, at3, FIELD_4_VARINT) {
            Some(x) => x,
            None => {
                return None;
            },
        };
        if at4 != b.len() || chunk_size > 0xffff_ffff || iterations > 0xffff_ffff || memory
            > 0xffff_ffff || parallelism > 0xffff_ffff {
            return None;
        }
        Some(
            Config {
                chunk_size: chunk_size as u32,
                iterations: iterations as u32,
                memory: memory as u32,
                parallelism: parallelism as u32,
            },
        )
    }
}

/// What loading the bytes of a configuration file gives: the parameters, or
/// why there are none.
pub open spec fn loaded(bytes: Seq<u8>) -> Result<LocalConfig, VaultError> {
    match parse_config(bytes) {
        Some(config) => if config.valid() {
            Ok(config.held())
        } else {
            Err(VaultError::InvalidConfiguration)
        },
        None => Err(VaultError::ParseError),
    }
}

impl LocalConfig {
    /// The same parameters as they are stored.
    pub open spec fn stored(self) -> Config {
        Config {
            chunk_size: self.chunk_size,
            iterations: self.iterations,
            memory: self.memory,
            parallelism: self.parallelism,
        }
    }

    /// The parameters that a program starts with.
    pub open spec fn initial() -> LocalConfig {
        LocalConfig { chunk_size: 16, iterations: 2, memory: 16, parallelism: 1 }
    }

    /// The parameters that a program starts with.
    pub fn new() -> (config: LocalConfig)
        ensures
            config == LocalConfig::initial(),
    {
        LocalConfig { chunk_size: 16, iterations: 2, memory: 16, parallelism: 1 }
    }

    /// Takes the parameters from the bytes of a configuration file. Where
    /// the bytes hold none, or hold a zero, nothing changes.
    pub fn init_from_file(&mut self, bytes: &[u8]) -> (r: Result<(), VaultError>)
        ensures
            match loaded(bytes@) {
                Ok(config) => r is Ok && *final(self) == config,
                Err(e) => r == Err::<(), VaultError>(e) && *final(self) == *old(self),
            },
    {
        let config = match Config::parse_from_bytes(bytes) {
            Some(config) => config,
            None => {
                return Err(VaultError::ParseError);
            },
        };
        if config.validate().is_none() {
            return Err(VaultError::InvalidConfiguration);
        }
        *self = LocalConfig::from(config);
        Ok(())
    }

    /// The bytes of the configuration file for these parameters.
    pub fn save(&self) -> (bytes: Vec<u8>)
        ensures
            bytes@ == encode_config(self.stored()),
    {
        Config::from(*self).write_to_bytes()
    }
}

/// Parameters that were written are read back unchanged.
pub proof fn lemma_config_roundtrip(c: Config)
    ensures
        parse_config(encode_config(c)) == Some(c),
{
    let empty = Seq::<u8>::empty();
    let f1 = uint_field(FIELD_1_VARINT, c.chunk_size as u64);
    let f2 = uint_field(FIELD_2_VARINT, c.iterations as u64);
    let f3 = uint_field(FIELD_3_VARINT, c.memory as u64);
    let f4 = uint_field(FIELD_4_VARINT, c.parallelism as u64);
    let r3 = f4 + empty;
    let r2 = f3 + r3;
    let r1 = f2 + r2;
    lemma_concat_empty(f4, empty);
    lemma_concat_assoc(f1, f2, f3 + f4);
    lemma_concat_assoc(f1 + f2, f3, f4);
    assert(encode_config(c) == f1 + r1);
    lemma_uint_field_starts(FIELD_4_VARINT, c.parallelism as u64, empty, FIELD_3_VARINT);
    lemma_uint_field_starts(FIELD_3_VARINT, c.memory as u64, r3, FIELD_2_VARINT);
    lemma_uint_field_starts(FIELD_2_VARINT, c.iterations as u64, r2, FIELD_1_VARINT);
    lemma_uint_field_roundtrip(FIELD_1_VARINT, c.chunk_size as u64, r1);
    lemma_uint_field_roundtrip(FIELD_2_VARINT, c.iterations as u64, r2);
    lemma_uint_field_roundtrip(FIELD_3_VARINT, c.memory as u64, r3);
    lemma_uint_field_roundtrip(FIELD_4_VARINT, c.parallelism as u64, empty);
}

/// The bytes that are read as parameters are the encoding of those parameters.
pub proof fn lemma_config_canonical(b: Seq<u8>)
    ensures
        parse_config(b) matches Some(c) ==> encode_config(c) == b,
{
    if let Some(c) = parse_config(b) {
        lemma_uint_field_canonical(FIELD_1_VARINT, b);
        let (chunk_size, b1) = parse_uint_field(FIELD_1_VARINT, b)->0;
        lemma_uint_field_canonical(FIELD_2_VARINT, b1);
        let (iterations, b2) = parse_uint_field(FIELD_2_VARINT, b1)->0;
        lemma_uint_field_canonical(FIELD_3_VARINT, b2);
        let (memory, b3) = parse_uint_field(FIELD_3_VARINT, b2)->0;
        lemma_uint_field_canonical(FIELD_4_VARINT, b3);
        let (parallelism, b4) = parse_uint_field(FIELD_4_VARINT, b3)->0;
        let f1 = uint_field(FIELD_1_VARINT, chunk_size);
        let f2 = uint_field(FIELD_2_VARINT, iterations);
        let f3 = uint_field(FIELD_3_VARINT, memory);
        let f4 = uint_field(FIELD_4_VARINT, parallelism);
        lemma_concat_empty(f4, b4);
        lemma_concat_assoc(f1, f2, f3 + f4);
        lemma_concat_assoc(f1 + f2, f3, f4);
    }
}

/// Parameters of which none is zero, saved and loaded, are the parameters
/// that were saved.
pub proof fn law_config_save_restore(config: LocalConfig)
    requires
        config.stored().valid(),
    ensures
        loaded(encode_config(config.stored())) == Ok::<LocalConfig, VaultError>(config),
{
    lemma_config_roundtrip(config.stored());
}

} // verus!

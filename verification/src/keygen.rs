//! Key derivation: from a password to the master hash, from the master hash to
//! a cipher key, and the nonces under which the cipher is used.
//!
//! The primitives are Argon2id (crate `argon2`), HKDF-SHA256 and the system's
//! random source (crate `ring`), and a seeded generator (crate `rand`). What
//! this module states of them is believed, not proved; each such function says
//! so in its own words.
use crate::envelope::{NONCE_LEN, SALT_LEN};
use crate::error::VaultError;
use vstd::bytes::{spec_u64_to_le_bytes, u64_to_le_bytes};
use vstd::prelude::*;
use vstd::string::{StrSliceExecFns, StringExecFns};
use vstd::utf8::encode_utf8;

verus! {

/// 32 bytes of salt.
pub type SaltBuffer = [u8; 32];

/// 12 bytes of nonce.
pub type NonceBuffer = [u8; 12];

/// 32 bytes of key material.
pub type KeyBuffer = [u8; 32];

/// What the Argon2 call hands back: the hash, or the crate's error.
pub type Argon2Result = Result<Vec<u8>, argon2::Error>;

/// What the HKDF calls hand back: the key bytes, or the crate's error.
pub type HkdfResult = Result<KeyBuffer, ring::error::Unspecified>;

/// The longest password, and the longest salt, that Argon2 takes.
pub const ARGON2_MAX_INPUT: usize = 0xFFFF_FFFF;

/// The shortest salt that Argon2 takes.
pub const ARGON2_MIN_SALT: usize = 8;

/// `argon2::Error`, carried through and never looked into.
#[verifier::external_type_specification]
#[verifier::external_body]
pub struct ExArgon2Error(argon2::Error);

/// `ring::error::Unspecified`, carried through and never looked into.
#[verifier::external_type_specification]
#[verifier::external_body]
pub struct ExUnspecified(ring::error::Unspecified);

/// `rand::rngs::StdRng`, carried through and never looked into.
#[verifier::external_type_specification]
#[verifier::external_body]
pub struct ExStdRng(rand::rngs::StdRng);

/// The Argon2id hash, with the crate's default cost parameters, of `password`
/// under `salt`, `len` bytes long.
pub uninterp spec fn argon2id(password: Seq<u8>, salt: Seq<u8>, len: nat) -> Seq<u8>;

/// The 32 bytes that HKDF-SHA256 extracts from `secret` under `salt` and
/// expands with one empty info string.
pub uninterp spec fn hkdf_sha256(secret: Seq<u8>, salt: Seq<u8>) -> Seq<u8>;

/// The passwords and salts that Argon2 takes: a password of at most 2^32 - 1
/// bytes, a salt of 8 to 2^32 - 1 bytes.
pub open spec fn argon2_accepts(password: Seq<u8>, salt: Seq<u8>) -> bool {
    password.len() <= ARGON2_MAX_INPUT && ARGON2_MIN_SALT <= salt.len() <= ARGON2_MAX_INPUT
}

/// `Argon2::default().hash_password_into` of `argon2`, on a fresh buffer of
/// `len` bytes. Believed: the hash depends on password, salt and length alone;
/// with the default parameters and an output of 4 to 1024 bytes the call
/// fails exactly where the password is longer than 2^32 - 1 bytes or the salt
/// is shorter than 8 or longer than 2^32 - 1 bytes.
#[verifier::external_body]
fn argon2_hash(password: &[u8], salt: &[u8], len: usize) -> (r: Argon2Result)
    requires
        4 <= len <= 1024,
    ensures
        match r {
            Ok(out) => argon2_accepts(password@, salt@) && out@.len() == len && out@ == argon2id(
                password@,
                salt@,
                len as nat,
            ),
            Err(_) => !argon2_accepts(password@, salt@),
        },
{
    let mut out = vec![0u8; len];
    argon2::Argon2::default().hash_password_into(password, salt, &mut out)?;
    Ok(out)
}

/// `Salt::new(HKDF_SHA256, salt).extract(secret)`, `expand` with one empty
/// info string and `fill` of 32 bytes, of `ring::hkdf`. Believed: the bytes
/// depend on secret and salt alone, and for 32 bytes of output none of the
/// calls fails.
#[verifier::external_body]
fn hkdf_extract_expand(secret: &[u8], salt: &[u8]) -> (r: HkdfResult)
    ensures
        match r {
            Ok(key) => key@ == hkdf_sha256(secret@, salt@),
            Err(_) => false,
        },
{
    let info: [&[u8]; 1] = [&[]];
    let prk = ring::hkdf::Salt::new(ring::hkdf::HKDF_SHA256, salt).extract(secret);
    let okm = prk.expand(&info, ring::hkdf::HKDF_SHA256)?;
    let mut key = [0u8; 32];
    okm.fill(&mut key)?;
    Ok(key)
}

/// `SystemRandom::new().fill` of `ring::rand`, on a buffer of `N` bytes.
/// Nothing is claimed of the bytes.
#[verifier::external_body]
pub(crate) fn random_bytes<const N: usize>() -> Result<[u8; N], ring::error::Unspecified> {
    let mut buffer = [0u8; N];
    ring::rand::SecureRandom::fill(&ring::rand::SystemRandom::new(), &mut buffer)?;
    Ok(buffer)
}

/// `StdRng::try_from_os_rng` of `rand`: a generator seeded by the system, or
/// nothing where the system gives no seed.
#[verifier::external_body]
fn seeded_rng() -> Option<rand::rngs::StdRng> {
    <rand::rngs::StdRng as rand::SeedableRng>::try_from_os_rng().ok()
}

/// `Uniform::new_inclusive(0, bound)` and one `sample` of it, of `rand`.
/// Believed: a sample lies in the closed range.
#[verifier::external_body]
fn sample_index(rng: &mut rand::rngs::StdRng, bound: usize) -> (r: Option<usize>)
    ensures
        r matches Some(i) ==> i <= bound,
{
    match rand::distr::Uniform::new_inclusive(0usize, bound) {
        Ok(range) => Some(rand::distr::Distribution::sample(&range, rng)),
        Err(_) => None,
    }
}

/// `String::into_bytes` of std: the UTF-8 bytes of the text.
#[verifier::external_body]
fn string_into_bytes(s: String) -> (bytes: Vec<u8>)
    ensures
        bytes@ == encode_utf8(s@),
{
    s.into_bytes()
}

/// Overwrites the buffer with zeros. The compiler and the allocator may have
/// kept copies elsewhere: this lowers the exposure of a secret, it does not
/// end it.
pub fn erase(buffer: &mut Vec<u8>)
    ensures
        final(buffer)@ == Seq::new(old(buffer)@.len(), |i: int| 0u8),
{
    let mut i: usize = 0;
    while i < buffer.len()
        invariant
            i <= buffer.len(),
            buffer.len() == old(buffer).len(),
            forall|k: int| 0 <= k < i ==> buffer@[k] == 0,
        decreases buffer.len() - i,
    {
        buffer.set(i, 0);
        i += 1;
    }
    proof {
        assert(buffer@ =~= Seq::new(old(buffer)@.len(), |i: int| 0u8));
    }
}

/// The bytes as an array of their number.
pub(crate) fn to_array<const N: usize>(bytes: &[u8]) -> (out: [u8; N])
    requires
        bytes@.len() == N,
    ensures
        out@ == bytes@,
{
    let mut out: [u8; N] = [0u8; N];
    let mut i: usize = 0;
    while i < N
        invariant
            i <= N,
            bytes@.len() == N,
            forall|k: int| 0 <= k < i ==> out@[k] == bytes@[k],
        decreases N - i,
    {
        out[i] = bytes[i];
        i += 1;
    }
    proof {
        assert(out@ =~= bytes@);
    }
    out
}

/// The master hash of a password: Argon2id over its UTF-8 bytes, 32 bytes long.
pub open spec fn master_hash(password: Seq<char>, salt: Seq<u8>) -> Seq<u8> {
    argon2id(encode_utf8(password), salt, 32)
}

/// True where the password is short enough to be stretched.
pub open spec fn password_fits(password: Seq<char>) -> bool {
    encode_utf8(password).len() <= ARGON2_MAX_INPUT
}

/// The nonce of the record at position `index`: Argon2id over the eight
/// little-endian bytes of the index, under the vault's salt, 12 bytes long.
pub open spec fn record_nonce(salt: Seq<u8>, index: u64) -> Seq<u8> {
    argon2id(spec_u64_to_le_bytes(index), salt, 12)
}

/// A key of the cipher: 32 bytes.
pub struct CipherKey {
    pub bytes: KeyBuffer,
}

impl View for CipherKey {
    type V = Seq<u8>;

    open spec fn view(&self) -> Seq<u8> {
        self.bytes@
    }
}

/// Which characters a generated password is drawn from.
#[derive(Debug, Clone, Copy, PartialEq, Eq)]
pub enum PasswordType {
    /// Letters.
    Alpha,
    /// Letters and digits.
    AlphaNum,
    /// Letters, digits and the five signs `!#%$@`.
    All,
}

/// Position of the last letter in the alphabet.
pub const ALPHA_BOUND: usize = 51;

/// Position of the last digit in the alphabet.
pub const ALPHA_NUM_BOUND: usize = 61;

/// Position of the last sign in the alphabet.
pub const ALL_BOUND: usize = 66;

/// The characters of generated passwords: the letters, then the digits, then
/// the signs.
pub open spec fn alphabet() -> Seq<char> {
    "abcdefghijklmnopqrstuvwxyzABCDEFGHIJKLMNOPQRSTUVWXYZ0123456789!#%$@"@
}

impl PasswordType {
    /// Position of the last character of the alphabet that this kind draws.
    pub open spec fn bound(self) -> usize {
        match self {
            PasswordType::Alpha => ALPHA_BOUND,
            PasswordType::AlphaNum => ALPHA_NUM_BOUND,
            PasswordType::All => ALL_BOUND,
        }
    }
}

/// True where every character of `s` is one of the first `bound + 1` of the
/// alphabet.
pub open spec fn drawn_from(s: Seq<char>, bound: usize) -> bool {
    forall|i: int| 0 <= i < s.len() ==> in_alphabet(#[trigger] s[i], bound)
}

/// True where `c` is one of the first `bound + 1` characters of the alphabet.
pub open spec fn in_alphabet(c: char, bound: usize) -> bool {
    exists|j: int| 0 <= j <= bound && #[trigger] alphabet()[j] == c
}

/// The password that a list of positions in the alphabet spells.
pub open spec fn spelled(indices: Seq<usize>) -> Seq<char> {
    Seq::new(indices.len(), |i: int| alphabet()[indices[i] as int])
}

/// Spells the password whose characters stand at the given positions of the
/// alphabet.
pub fn password_from_indices(indices: &[usize]) -> (password: String)
    requires
        forall|i: int| 0 <= i < indices@.len() ==> indices@[i] <= ALL_BOUND,
    ensures
        password@ == spelled(indices@),
{
    let letters = "abcdefghijklmnopqrstuvwxyzABCDEFGHIJKLMNOPQRSTUVWXYZ0123456789!#%$@";
    proof {
        reveal_strlit("abcdefghijklmnopqrstuvwxyzABCDEFGHIJKLMNOPQRSTUVWXYZ0123456789!#%$@");
    }
    let mut password = String::new();
    let mut i: usize = 0;
    while i < indices.len()
        invariant
            i <= indices@.len(),
            letters@ == alphabet(),
            letters@.len() == 67,
            letters.is_ascii(),
            forall|k: int| 0 <= k < indices@.len() ==> indices@[k] <= ALL_BOUND,
            password@ == spelled(indices@.take(i as int)),
        decreases indices.len() - i,
    {
        let at: usize = indices[i];
        let letter = letters.substring_ascii(at, at + 1);
        password.append(letter);
        proof {
            assert(password@ =~= spelled(indices@.take(i + 1)));
        }
        i += 1;
    }
    proof {
        assert(indices@.take(i as int) =~= indices@);
    }
    password
}

/// The namespace of the key-derivation functions.
pub struct KeyGen;

impl KeyGen {
    /// A random password of `len` characters of the given kind.
    pub fn generate_password(len: usize, pwd_type: PasswordType) -> (r: Result<String, VaultError>)
        ensures
            match r {
                Ok(password) => password@.len() == len && drawn_from(password@, pwd_type.bound()),
                Err(e) => e == VaultError::RandomError,
            },
    {
        let bound: usize = match pwd_type {
            PasswordType::Alpha => ALPHA_BOUND,
            PasswordType::AlphaNum => ALPHA_NUM_BOUND,
            PasswordType::All => ALL_BOUND,
        };
        let mut rng = match seeded_rng() {
            Some(rng) => rng,
            None => {
                return Err(VaultError::RandomError);
            },
        };
        let mut indices: Vec<usize> = Vec::new();
        while indices.len() < len
            invariant
                indices.len() <= len,
                bound <= ALL_BOUND,
                forall|k: int| 0 <= k < indices@.len() ==> indices@[k] <= bound,
            decreases len - indices.len(),
        {
            match sample_index(&mut rng, bound) {
                Some(index) => {
                    indices.push(index);
                },
                None => {
                    return Err(VaultError::RandomError);
                },
            }
        }
        let password = password_from_indices(indices.as_slice());
        proof {
            assert forall|i: int| 0 <= i < password@.len() implies in_alphabet(
                #[trigger] password@[i],
                bound,
            ) by {
                assert(alphabet()[indices@[i] as int] == password@[i]);
            }
        }
        Ok(password)
    }

    /// Stretches the password into the 32-byte master hash and overwrites the
    /// password's bytes with zeros.
    pub fn encrypt_master(master_key: String, salt: &SaltBuffer) -> (r: Result<
        KeyBuffer,
        VaultError,
    >)
        ensures
            match r {
                Ok(hash) => password_fits(master_key@) && hash@ == master_hash(
                    master_key@,
                    salt@,
                ),
                Err(e) => !password_fits(master_key@) && e == VaultError::KeyDerivationError,
            },
    {
        let mut password = string_into_bytes(master_key);
        let hashed = argon2_hash(password.as_slice(), salt.as_slice(), SALT_LEN);
        erase(&mut password);
        match hashed {
            Ok(hash) => Ok(to_array(hash.as_slice())),
            Err(_) => Err(VaultError::KeyDerivationError),
        }
    }

    /// Derives the cipher key from key material and a salt of 32 bytes.
    pub fn derive_key(key: &[u8], salt: &[u8]) -> (r: Result<CipherKey, VaultError>)
        ensures
            match r {
                Ok(k) => salt@.len() == SALT_LEN && k@ == hkdf_sha256(key@, salt@),
                Err(e) => salt@.len() != SALT_LEN && e == VaultError::InvalidSaltLength,
            },
    {
        if salt.len() != SALT_LEN {
            return Err(VaultError::InvalidSaltLength);
        }
        match hkdf_extract_expand(key, salt) {
            Ok(bytes) => Ok(CipherKey { bytes }),
            Err(_) => Err(VaultError::KeyDerivationError),
        }
    }

    /// What a draw from the system's random source comes to: the bytes that
    /// were drawn, or `RandomError` where the source gave none.
    pub fn drawn<const N: usize>(outcome: Result<[u8; N], ring::error::Unspecified>) -> (r: Result<
        [u8; N],
        VaultError,
    >)
        ensures
            match outcome {
                Ok(bytes) => r == Ok::<[u8; N], VaultError>(bytes),
                Err(_) => r == Err::<[u8; N], VaultError>(VaultError::RandomError),
            },
    {
        match outcome {
            Ok(bytes) => Ok(bytes),
            Err(_) => Err(VaultError::RandomError),
        }
    }

    /// Twelve random bytes from the system, for the one seal of a vault's
    /// body: what one draw of twelve bytes comes to (see `drawn`). Which
    /// bytes they are, and whether the system gives any, is the system's.
    pub fn get_unique_nonce() -> (r: Result<NonceBuffer, VaultError>)
        ensures
            r matches Err(e) ==> e == VaultError::RandomError,
    {
        Self::drawn(random_bytes::<12>())
    }
}

/// The nonce for the record at position `index` of a directory. The
/// directory's name takes no part in it, so a directory can be renamed
/// without touching its records; the position does, so a record that takes
/// the place of a removed one is sealed under the removed one's nonce.
pub fn generate_nonce_buf(salt: &SaltBuffer, directory_name: &str, index: usize) -> (r: Result<
    NonceBuffer,
    VaultError,
>)
    ensures
        r matches Ok(nonce) && nonce@ == record_nonce(salt@, index as u64),
{
    let position = u64_to_le_bytes(index as u64);
    match argon2_hash(position.as_slice(), salt.as_slice(), NONCE_LEN) {
        Ok(nonce) => Ok(to_array(nonce.as_slice())),
        Err(_) => Err(VaultError::KeyDerivationError),
    }
}

} // verus!

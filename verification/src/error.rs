//! What can go wrong in the vault engine.
use vstd::prelude::*;

verus! {

/// The ways in which an operation on a vault fails.
#[derive(Debug, Clone, Copy, PartialEq, Eq)]
pub enum VaultError {
    /// A salt that is not 32 bytes long.
    InvalidSaltLength,
    /// A nonce that is not 12 bytes long.
    InvalidNonceLength,
    /// The password-stretching function turned its input down.
    KeyDerivationError,
    /// The system's random source gave nothing.
    RandomError,
    /// The cipher could not seal.
    SealError,
    /// The authentication tag did not match: a wrong password, or a changed
    /// file or record. The two are not told apart.
    AuthenticationFailure,
    /// No directory of that name.
    DirectoryNotFound,
    /// No record of that name.
    KeyNotFound,
    /// An opened record that is no text.
    EncodingError,
    /// A file of zero bytes.
    EmptyFile,
    /// Bytes that are no vault file.
    ParseError,
    /// A vault file without a header.
    MissingHeader,
    /// Cost parameters of which one is zero.
    InvalidConfiguration,
}

impl VaultError {
    /// A line of text for the person at the terminal.
    pub fn describe(&self) -> (text: &'static str)
        ensures
            text@ == self.description(),
    {
        match self {
            VaultError::InvalidSaltLength => "Invalid salt length",
            VaultError::InvalidNonceLength => "Invalid nonce length",
            VaultError::KeyDerivationError => "Could not generate argon2 hash",
            VaultError::RandomError => "Could not generate salt",
            VaultError::SealError => "Could not seal",
            VaultError::AuthenticationFailure => "Could not decrypt",
            VaultError::DirectoryNotFound => "Directory does not exist",
            VaultError::KeyNotFound => "Key does not exist",
            VaultError::EncodingError => "Key is not valid text",
            VaultError::EmptyFile => "Read 0 bytes from file",
            VaultError::ParseError => "Could not parse file",
            VaultError::MissingHeader => "Could not parse header",
            VaultError::InvalidConfiguration => "Invalid configuration",
        }
    }

    /// The text that `describe` returns.
    pub open spec fn description(&self) -> Seq<char> {
        match self {
            VaultError::InvalidSaltLength => "Invalid salt length"@,
            VaultError::InvalidNonceLength => "Invalid nonce length"@,
            VaultError::KeyDerivationError => "Could not generate argon2 hash"@,
            VaultError::RandomError => "Could not generate salt"@,
            VaultError::SealError => "Could not seal"@,
            VaultError::AuthenticationFailure => "Could not decrypt"@,
            VaultError::DirectoryNotFound => "Directory does not exist"@,
            VaultError::KeyNotFound => "Key does not exist"@,
            VaultError::EncodingError => "Key is not valid text"@,
            VaultError::EmptyFile => "Read 0 bytes from file"@,
            VaultError::ParseError => "Could not parse file"@,
            VaultError::MissingHeader => "Could not parse header"@,
            VaultError::InvalidConfiguration => "Invalid configuration"@,
        }
    }
}

} // verus!

//! The vault: a header, a body and the master hash of the password, with the
//! operations that create a vault, seal it into a file and open it again, and
//! the work on the records of one directory.
use crate::cipher::{
    aes256_gcm_open, aes256_gcm_seal, open, opened_as, seal, SEAL_LIMIT, TAG_LEN,
};
use crate::envelope::{
    directory_views, encode_body, encode_envelope, encode_header, lemma_body_fits,
    lemma_body_roundtrip, lemma_envelope_canonical, lemma_envelope_roundtrip, parse_body,
    parse_envelope, string_from_utf8, Body, BodyView, Directory, DirectoryView, EnvelopeView,
    Header, HeaderView, Record, RecordView, Timestamp, NONCE_LEN, RPDB, SALT_LEN, SIGNATURE,
    VERSION,
};
use crate::error::VaultError;
use crate::keygen::{
    argon2id, generate_nonce_buf, hkdf_sha256, master_hash, password_fits, random_bytes,
    record_nonce, to_array, KeyBuffer, KeyGen, NonceBuffer, SaltBuffer,
};
use crate::names::{first_index, is_first, lemma_first_index, lemma_no_first_index, same_text};
use vstd::bytes::{lemma_auto_spec_u64_to_from_le_bytes, spec_u64_to_le_bytes};
use vstd::prelude::*;
use vstd::string::StringExecFns;
use vstd::utf8::{decode_utf8, encode_utf8, encode_utf8_decode_utf8, valid_utf8};

verus! {

/// `Timestamp::now` of `protobuf`: the system's time. Nothing is claimed of it.
#[verifier::external_body]
fn now() -> Timestamp {
    let now = protobuf::well_known_types::timestamp::Timestamp::now();
    Timestamp { seconds: now.seconds, nanos: now.nanos }
}

/// The names of the directories, in order.
pub open spec fn directory_names(directories: Seq<DirectoryView>) -> Seq<Seq<char>> {
    Seq::new(directories.len(), |i: int| directories[i].name)
}

/// The names of the records, in order.
pub open spec fn record_names(records: Seq<RecordView>) -> Seq<Seq<char>> {
    Seq::new(records.len(), |i: int| records[i].name)
}

/// A vault as plain values.
pub struct VaultView {
    pub header: HeaderView,
    pub body: BodyView,
    pub master_hash: Seq<u8>,
}

impl VaultView {
    /// The key under which the body is sealed: derived from the master hash
    /// under the header's master salt.
    pub open spec fn body_key(self) -> Seq<u8> {
        hkdf_sha256(self.master_hash, self.header.master_salt)
    }

    /// The body under seal. The header's bytes are the associated data, so a
    /// body does not open beside another header.
    pub open spec fn sealed_body(self) -> Option<Seq<u8>> {
        aes256_gcm_seal(
            self.body_key(),
            self.header.master_nonce,
            encode_header(self.header),
            encode_body(self.body),
        )
    }

    /// The envelope that goes to disk, or why there is none.
    pub open spec fn sealed(self) -> Result<EnvelopeView, VaultError> {
        if self.header.master_salt.len() != SALT_LEN {
            Err(VaultError::InvalidSaltLength)
        } else if self.header.master_nonce.len() != NONCE_LEN {
            Err(VaultError::InvalidNonceLength)
        } else {
            match self.sealed_body() {
                Some(body) => Ok(EnvelopeView { header: Some(self.header), body }),
                None => Err(VaultError::SealError),
            }
        }
    }

    /// The bytes of the vault's file, or why there are none.
    pub open spec fn file(self) -> Result<Seq<u8>, VaultError> {
        match self.sealed() {
            Ok(envelope) => Ok(encode_envelope(envelope)),
            Err(e) => Err(e),
        }
    }

    /// Every length in it can be written as a 64-bit varint.
    pub open spec fn fits(self) -> bool {
        &&& self.header.fits()
        &&& encode_header(self.header).len() <= u64::MAX
        &&& self.body.fits()
    }
}

/// What opening the bytes of a file with a password gives: the vault, or the
/// first thing that stands in the way. A wrong password and a changed file
/// both end in `AuthenticationFailure`.
pub open spec fn opened(file: Seq<u8>, password: Seq<char>) -> Result<VaultView, VaultError> {
    if file.len() == 0 {
        Err(VaultError::EmptyFile)
    } else {
        match parse_envelope(file) {
            None => Err(VaultError::ParseError),
            Some(envelope) => match envelope.header {
                None => Err(VaultError::MissingHeader),
                Some(header) => if !header.valid() {
                    Err(VaultError::ParseError)
                } else if !password_fits(password) {
                    Err(VaultError::KeyDerivationError)
                } else {
                    let hash = master_hash(password, header.argon_salt);
                    match aes256_gcm_open(
                        hkdf_sha256(hash, header.master_salt),
                        header.master_nonce,
                        encode_header(header),
                        envelope.body,
                    ) {
                        None => Err(VaultError::AuthenticationFailure),
                        Some(plain) => match parse_body(plain) {
                            None => Err(VaultError::ParseError),
                            Some(body) => Ok(VaultView { header, body, master_hash: hash }),
                        },
                    }
                },
            },
        }
    }
}

impl VaultView {
    /// The vault with the directory at position `i` replaced.
    pub open spec fn with_directory(self, i: int, directory: DirectoryView) -> VaultView {
        VaultView {
            body: BodyView {
                directories: self.body.directories.update(i, directory),
                ..self.body
            },
            ..self
        }
    }

    /// The vault with other directories.
    pub open spec fn with_directories(self, directories: Seq<DirectoryView>) -> VaultView {
        VaultView { body: BodyView { directories, ..self.body }, ..self }
    }
}

/// The random values of a new vault: the nonce of the body's seal, and the
/// salts for the cipher key, for record nonces and for stretching the password.
#[derive(Debug, Clone, Copy)]
pub struct Salts {
    pub master_nonce: NonceBuffer,
    pub master_salt: SaltBuffer,
    pub body_salt: SaltBuffer,
    pub argon_salt: SaltBuffer,
}

impl Salts {
    /// What four draws from the system's random source come to: the four
    /// values, each the bytes of its draw, or `RandomError` where one of the
    /// draws gave none.
    pub fn from_draws(
        master_salt: Result<SaltBuffer, ring::error::Unspecified>,
        body_salt: Result<SaltBuffer, ring::error::Unspecified>,
        argon_salt: Result<SaltBuffer, ring::error::Unspecified>,
        master_nonce: Result<NonceBuffer, ring::error::Unspecified>,
    ) -> (r: Result<Salts, VaultError>)
        ensures
            match (master_salt, body_salt, argon_salt, master_nonce) {
                (Ok(a), Ok(b), Ok(c), Ok(d)) => r == Ok::<Salts, VaultError>(
                    Salts { master_nonce: d, master_salt: a, body_salt: b, argon_salt: c },
                ),
                _ => r == Err::<Salts, VaultError>(VaultError::RandomError),
            },
    {
        let master_salt = match KeyGen::drawn(master_salt) {
            Ok(bytes) => bytes,
            Err(e) => {
                return Err(e);
            },
        };
        let body_salt = match KeyGen::drawn(body_salt) {
            Ok(bytes) => bytes,
            Err(e) => {
                return Err(e);
            },
        };
        let argon_salt = match KeyGen::drawn(argon_salt) {
            Ok(bytes) => bytes,
            Err(e) => {
                return Err(e);
            },
        };
        let master_nonce = match KeyGen::drawn(master_nonce) {
            Ok(bytes) => bytes,
            Err(e) => {
                return Err(e);
            },
        };
        Ok(Salts { master_nonce, master_salt, body_salt, argon_salt })
    }

    /// Four values from the system's random source: what four draws, three
    /// of 32 bytes and one of 12, come to (see `from_draws`). Which bytes
    /// they are, and whether the system gives any, is the system's.
    pub fn new() -> (r: Result<Salts, VaultError>)
        ensures
            r matches Err(e) ==> e == VaultError::RandomError,
    {
        let master_salt = random_bytes::<32>();
        let body_salt = random_bytes::<32>();
        let argon_salt = random_bytes::<32>();
        let master_nonce = random_bytes::<12>();
        Self::from_draws(master_salt, body_salt, argon_salt, master_nonce)
    }
}

/// The vault that is made from fresh salts, the time and a password: a valid
/// header, no directories, and the password's hash under the new salt.
pub open spec fn fresh_vault(salts: Salts, now: Timestamp, password: Seq<char>) -> VaultView {
    VaultView {
        header: HeaderView {
            signature: SIGNATURE,
            version: VERSION,
            master_salt: salts.master_salt@,
            master_nonce: salts.master_nonce@,
            argon_salt: salts.argon_salt@,
        },
        body: BodyView {
            salt: salts.body_salt@,
            created_at: Some(now),
            last_modified: Some(now),
            directories: Seq::empty(),
        },
        master_hash: master_hash(password, salts.argon_salt@),
    }
}

/// True where the bytes are an envelope with a header that can be loaded and
/// a sealed body too short to hold the cipher's tag: a file cut off behind
/// its header, or within the first 15 bytes of its body.
pub open spec fn cut_short(file: Seq<u8>) -> bool {
    match parse_envelope(file) {
        Some(envelope) => envelope.body.len() < TAG_LEN && match envelope.header {
            Some(header) => header.valid(),
            None => false,
        },
        None => false,
    }
}

/// True where `file` holds `vault` as `save` writes it, and `password` is the
/// password whose hash the vault holds.
pub open spec fn saved_as(vault: VaultView, file: Seq<u8>, password: Seq<char>) -> bool {
    &&& vault.file() == Ok::<Seq<u8>, VaultError>(file)
    &&& vault.header.valid()
    &&& vault.fits()
    &&& password_fits(password)
    &&& vault.master_hash == master_hash(password, vault.header.argon_salt)
}

/// The file of a vault is not empty, and is read as the envelope of the
/// vault's header and sealed body.
proof fn lemma_saved_file_parses(vault: VaultView, file: Seq<u8>)
    requires
        vault.file() == Ok::<Seq<u8>, VaultError>(file),
        vault.fits(),
        file.len() <= u64::MAX,
    ensures
        file.len() > 0,
        vault.sealed_body() is Some,
        parse_envelope(file) == Some(
            EnvelopeView { header: Some(vault.header), body: vault.sealed_body()->0 },
        ),
{
    let envelope = EnvelopeView { header: Some(vault.header), body: vault.sealed_body()->0 };
    assert(encode_envelope(envelope).len() >= envelope.body.len() + 1);
    lemma_envelope_roundtrip(envelope);
}

/// Bytes that are empty, or no envelope, or an envelope without a valid
/// header, are the file of no vault that can be opened.
proof fn lemma_not_saved(file: Seq<u8>, password: Seq<char>)
    requires
        file.len() <= u64::MAX,
        file.len() == 0 || !(parse_envelope(file) matches Some(envelope) && envelope.header matches Some(
            header,
        ) && header.valid()),
    ensures
        forall|vault: VaultView| !#[trigger] saved_as(vault, file, password),
{
    assert forall|vault: VaultView| !#[trigger] saved_as(vault, file, password) by {
        if saved_as(vault, file, password) {
            lemma_saved_file_parses(vault, file);
        }
    }
}

/// The state of one vault in memory.
#[derive(Debug, PartialEq)]
pub struct VaultManager {
    header: Header,
    body: Body,
    master_hash: KeyBuffer,
}

impl View for VaultManager {
    type V = VaultView;

    closed spec fn view(&self) -> VaultView {
        VaultView { header: self.header@, body: self.body@, master_hash: self.master_hash@ }
    }
}

impl Default for VaultManager {
    fn default() -> (vault: VaultManager)
        ensures
            vault@.header == HeaderView::empty(),
            vault@.body == BodyView::empty(),
            vault@.master_hash == Seq::new(32, |i: int| 0u8),
    {
        let mut master_hash: KeyBuffer = [0u8; 32];
        let mut i: usize = 0;
        while i < 32
            invariant
                i <= 32,
                forall|k: int| 0 <= k < i ==> master_hash@[k] == 0u8,
            decreases 32 - i,
        {
            master_hash[i] = 0;
            i += 1;
        }
        proof {
            assert(master_hash@ =~= Seq::new(32, |i: int| 0u8));
        }
        VaultManager { header: Header::default(), body: Body::default(), master_hash }
    }
}

impl VaultManager {
    /// The header.
    pub fn header(&self) -> (header: &Header)
        ensures
            header@ == self@.header,
    {
        &self.header
    }

    /// The body.
    pub fn body(&self) -> (body: &Body)
        ensures
            body@ == self@.body,
    {
        &self.body
    }

    /// Makes this a new vault from the given salts and time and the
    /// password. Fails, and changes nothing, where the password is too long
    /// to be stretched.
    pub fn regenerate_with(&mut self, salts: Salts, now: Timestamp, master_key: String) -> (r:
        Result<(), VaultError>)
        ensures
            match r {
                Ok(_) => password_fits(master_key@) && final(self)@ == fresh_vault(
                    salts,
                    now,
                    master_key@,
                ),
                Err(e) => !password_fits(master_key@) && e == VaultError::KeyDerivationError
                    && *final(self) == *old(self),
            },
    {
        let hash = match KeyGen::encrypt_master(master_key, &salts.argon_salt) {
            Ok(hash) => hash,
            Err(e) => {
                return Err(e);
            },
        };
        self.header = Header {
            signature: SIGNATURE,
            version: VERSION,
            master_salt: vstd::slice::slice_to_vec(salts.master_salt.as_slice()),
            master_nonce: vstd::slice::slice_to_vec(salts.master_nonce.as_slice()),
            argon_salt: vstd::slice::slice_to_vec(salts.argon_salt.as_slice()),
        };
        self.body = Body {
            salt: vstd::slice::slice_to_vec(salts.body_salt.as_slice()),
            created_at: Some(now),
            last_modified: Some(now),
            directories: Vec::new(),
        };
        self.master_hash = hash;
        proof {
            assert(self.body@.directories =~= Seq::<DirectoryView>::empty());
        }
        Ok(())
    }

    /// Makes this a new vault for the password: fresh random salts, the
    /// present time, no directories. Changes nothing where it fails.
    pub fn regenerate(&mut self, master_key: String) -> (r: Result<(), VaultError>)
        ensures
            match r {
                Ok(_) => password_fits(master_key@) && exists|salts: Salts, now: Timestamp|
                    final(self)@ == #[trigger] fresh_vault(salts, now, master_key@),
                Err(e) => *final(self) == *old(self) && (e == VaultError::RandomError || (e
                    == VaultError::KeyDerivationError && !password_fits(master_key@))),
            },
    {
        let salts = match Salts::new() {
            Ok(salts) => salts,
            Err(e) => {
                return Err(e);
            },
        };
        let time = now();
        self.regenerate_with(salts, time, master_key)
    }

    /// Appends an empty directory of that name. Names are not held apart: a
    /// second directory of a name stands behind the first and is not reached
    /// by name.
    pub fn add_directory(&mut self, name: &str)
        ensures
            final(self)@ == old(self)@.with_directories(
                old(self)@.body.directories.push(
                    DirectoryView { name: name@, records: Seq::empty() },
                ),
            ),
    {
        let directory = Directory { name: String::from_str(name), records: Vec::new() };
        proof {
            assert(directory@.records =~= Seq::<RecordView>::empty());
        }
        self.body.directories.push(directory);
        proof {
            assert(self.body@.directories =~= old(self).body@.directories.push(directory@));
        }
    }

    /// The position of the first directory of that name.
    pub fn find_directory(&self, name: &str) -> (r: Option<usize>)
        ensures
            match first_index(directory_names(self@.body.directories), name@) {
                Some(i) => r matches Some(index) && index == i && 0 <= i
                    < self@.body.directories.len(),
                None => r is None,
            },
    {
        let ghost names = directory_names(self@.body.directories);
        let mut i: usize = 0;
        while i < self.body.directories.len()
            invariant
                i <= self.body.directories.len(),
                names == directory_names(self@.body.directories),
                forall|j: int| 0 <= j < i ==> #[trigger] names[j] != name@,
            decreases self.body.directories.len() - i,
        {
            if same_text(self.body.directories[i].name.as_str(), name) {
                proof {
                    lemma_first_index(names, name@, i as int);
                }
                return Some(i);
            }
            i += 1;
        }
        proof {
            lemma_no_first_index(names, name@);
        }
        None
    }

    /// Removes the first directory of that name.
    pub fn remove_directory(&mut self, name: &str) -> (r: Result<(), VaultError>)
        ensures
            match first_index(directory_names(old(self)@.body.directories), name@) {
                Some(i) => r is Ok && final(self)@ == old(self)@.with_directories(
                    old(self)@.body.directories.remove(i),
                ),
                None => r == Err::<(), VaultError>(VaultError::DirectoryNotFound) && *final(self)
                    == *old(self),
            },
    {
        match self.find_directory(name) {
            Some(index) => {
                self.body.directories.remove(index);
                proof {
                    assert(self.body@.directories =~= old(self).body@.directories.remove(
                        index as int,
                    ));
                }
                Ok(())
            },
            None => Err(VaultError::DirectoryNotFound),
        }
    }

    /// The names of the directories, in the order in which they were added.
    pub fn get_directories(&self) -> (names: Vec<&str>)
        ensures
            names@.len() == self@.body.directories.len(),
            forall|i: int|
                0 <= i < names@.len() ==> (#[trigger] names@[i])@ == self@.body.directories[i].name,
    {
        let mut names: Vec<&str> = Vec::new();
        let mut i: usize = 0;
        while i < self.body.directories.len()
            invariant
                i <= self.body.directories.len(),
                names@.len() == i,
                forall|k: int|
                    0 <= k < i ==> (#[trigger] names@[k])@ == self@.body.directories[k].name,
            decreases self.body.directories.len() - i,
        {
            names.push(self.body.directories[i].name.as_str());
            i += 1;
        }
        names
    }

    /// Opens the first directory of that name for work on its records. The
    /// handle borrows the directory and the master hash; the vault is out of
    /// reach until the handle is gone.
    pub fn open_dir<'a>(&'a mut self, dir_name: &str) -> (r: Result<
        DirectoryManager<'a>,
        VaultError,
    >)
        ensures
            match first_index(directory_names(old(self)@.body.directories), dir_name@) {
                Some(i) => if old(self)@.body.salt.len() == SALT_LEN {
                    r matches Ok(manager) && manager.dir@ == old(self)@.body.directories[i]
                        && manager.salt@ == old(self)@.body.salt && manager.master_key@ == old(
                        self,
                    )@.master_hash && final(self)@ == old(self)@.with_directory(
                        i,
                        final(manager.dir)@,
                    )
                } else {
                    r matches Err(e) && e == VaultError::InvalidSaltLength && *final(self) == *old(
                        self,
                    )
                },
                None => r matches Err(e) && e == VaultError::DirectoryNotFound && *final(self)
                    == *old(self),
            },
    {
        let index = match self.find_directory(dir_name) {
            Some(index) => index,
            None => {
                return Err(VaultError::DirectoryNotFound);
            },
        };
        if self.body.salt.len() != SALT_LEN {
            return Err(VaultError::InvalidSaltLength);
        }
        let salt: SaltBuffer = to_array(self.body.salt.as_slice());
        let ghost before = self.body.directories@;
        let dir = &mut self.body.directories[index];
        proof {
            assert(directory_views(before.update(index as int, *final(dir))) =~= directory_views(
                before,
            ).update(index as int, final(dir)@));
        }
        Ok(DirectoryManager { dir, salt, master_key: &self.master_hash })
    }

    /// Seals the body under the key derived from the master hash and puts it
    /// into an envelope beside the header. The sealed body is 16 bytes, the
    /// cipher's tag, longer than the body's encoding.
    pub fn encrypt(&self) -> (r: Result<RPDB, VaultError>)
        ensures
            match r {
                Ok(envelope) => self@.sealed() == Ok::<EnvelopeView, VaultError>(envelope@),
                Err(e) => self@.sealed() == Err::<EnvelopeView, VaultError>(e),
            },
            self@.header.master_salt.len() == SALT_LEN && self@.header.master_nonce.len()
                == NONCE_LEN && encode_body(self@.body).len() <= SEAL_LIMIT
                && encode_header(self@.header).len() <= SEAL_LIMIT ==> r is Ok,
            r is Ok ==> self@.fits(),
            r matches Ok(envelope) ==> envelope@.body.len() == encode_body(self@.body).len()
                + TAG_LEN,
    {
        let key = match KeyGen::derive_key(
            self.master_hash.as_slice(),
            self.header.master_salt.as_slice(),
        ) {
            Ok(key) => key,
            Err(e) => {
                return Err(e);
            },
        };
        if self.header.master_nonce.len() != NONCE_LEN {
            return Err(VaultError::InvalidNonceLength);
        }
        let nonce: NonceBuffer = to_array(self.header.master_nonce.as_slice());
        let aad = self.header.write_to_bytes();
        let plain = self.body.write_to_bytes();
        proof {
            // what stands in memory is no longer than the machine can address
            assert(aad.len() <= usize::MAX && plain.len() <= usize::MAX);
            lemma_body_fits(self@.body);
        }
        match seal(&key, &nonce, aad.as_slice(), plain.as_slice()) {
            Ok(body) => Ok(RPDB { header: Some(self.header.clone()), body }),
            Err(_) => Err(VaultError::SealError),
        }
    }

    /// Opens the vault that the bytes of a file hold, with the password. On
    /// success the vault in memory is the one in the file; on failure it is
    /// what it was. A file that `save` wrote opens, under the password whose
    /// hash the saved vault held, to the vault that was saved. A file whose
    /// sealed body is too short to hold the cipher's tag ends in
    /// `AuthenticationFailure`.
    #[verifier::rlimit(50)]
    pub fn initialize_from_file(&mut self, file: &[u8], master_key: String) -> (r: Result<
        (),
        VaultError,
    >)
        ensures
            match opened(file@, master_key@) {
                Ok(vault) => r is Ok && final(self)@ == vault,
                Err(e) => r == Err::<(), VaultError>(e) && *final(self) == *old(self),
            },
            forall|vault: VaultView| #[trigger]
                saved_as(vault, file@, master_key@) ==> r is Ok && final(self)@ == vault,
            cut_short(file@) && password_fits(master_key@) ==> r == Err::<(), VaultError>(
                VaultError::AuthenticationFailure,
            ),
    {
        let ghost password = master_key@;
        if file.len() == 0 {
            proof {
                lemma_not_saved(file@, password);
            }
            return Err(VaultError::EmptyFile);
        }
        let envelope = match RPDB::parse_from_bytes(file) {
            Some(envelope) => envelope,
            None => {
                proof {
                    lemma_not_saved(file@, password);
                }
                return Err(VaultError::ParseError);
            },
        };
        let sealed = envelope.body;
        let header = match envelope.header {
            Some(header) => header,
            None => {
                proof {
                    lemma_not_saved(file@, password);
                }
                return Err(VaultError::MissingHeader);
            },
        };
        if !header.is_valid() {
            proof {
                lemma_not_saved(file@, password);
            }
            return Err(VaultError::ParseError);
        }
        let argon_salt: SaltBuffer = to_array(header.argon_salt.as_slice());
        let hash = match KeyGen::encrypt_master(master_key, &argon_salt) {
            Ok(hash) => hash,
            Err(e) => {
                return Err(e);
            },
        };
        let key = match KeyGen::derive_key(hash.as_slice(), header.master_salt.as_slice()) {
            Ok(key) => key,
            Err(e) => {
                return Err(e);
            },
        };
        let nonce: NonceBuffer = to_array(header.master_nonce.as_slice());
        let aad = header.write_to_bytes();
        let outcome = open(&key, &nonce, aad.as_slice(), sealed.as_slice());
        proof {
            assert forall|vault: VaultView| #[trigger]
                saved_as(vault, file@, password) implies opened_as(
                outcome,
                encode_body(vault.body),
            ) && parse_body(encode_body(vault.body)) == Some(vault.body) && vault.header
                == header@ && vault.master_hash == hash@ by {
                lemma_saved_file_parses(vault, file@);
                lemma_body_roundtrip(vault.body);
                assert(aes256_gcm_seal(key@, nonce@, aad@, encode_body(vault.body)) == Some(
                    sealed@,
                ));
            }
        }
        let plain = match outcome {
            Ok(plain) => plain,
            Err(_) => {
                return Err(VaultError::AuthenticationFailure);
            },
        };
        let body = match Body::parse_from_bytes(plain.as_slice()) {
            Some(body) => body,
            None => {
                return Err(VaultError::ParseError);
            },
        };
        self.header = header;
        self.body = body;
        self.master_hash = hash;
        Ok(())
    }

    /// The bytes of the vault's file: the envelope of `encrypt`, encoded.
    pub fn save(&self) -> (r: Result<Vec<u8>, VaultError>)
        ensures
            match r {
                Ok(bytes) => self@.file() == Ok::<Seq<u8>, VaultError>(bytes@),
                Err(e) => self@.file() == Err::<Seq<u8>, VaultError>(e),
            },
            self@.header.master_salt.len() == SALT_LEN && self@.header.master_nonce.len()
                == NONCE_LEN && encode_body(self@.body).len() <= SEAL_LIMIT
                && encode_header(self@.header).len() <= SEAL_LIMIT ==> r is Ok,
            r is Ok ==> self@.fits(),
            r is Ok ==> self@.sealed_body()->0.len() == encode_body(self@.body).len() + TAG_LEN,
    {
        match self.encrypt() {
            Ok(envelope) => Ok(envelope.write_to_bytes()),
            Err(e) => Err(e),
        }
    }
}

/// The key under which the records of a vault are sealed: derived from the
/// master hash under the body's salt.
pub open spec fn record_key(master_key: Seq<u8>, salt: Seq<u8>) -> Seq<u8> {
    hkdf_sha256(master_key, salt)
}

/// What sealing `value` as the record `name` at position `index` gives. The
/// name is the associated data: a record does not open under another name.
pub open spec fn sealed_value(
    master_key: Seq<u8>,
    salt: Seq<u8>,
    index: nat,
    name: Seq<char>,
    value: Seq<char>,
) -> Option<Seq<u8>> {
    aes256_gcm_seal(
        record_key(master_key, salt),
        record_nonce(salt, index as u64),
        encode_utf8(name),
        encode_utf8(value),
    )
}

/// What opening one record gives.
pub open spec fn opened_record(record: RecordView, master_key: Seq<u8>, salt: Seq<u8>) -> Result<
    Seq<char>,
    VaultError,
> {
    if record.nonce.len() != NONCE_LEN {
        Err(VaultError::InvalidNonceLength)
    } else {
        match aes256_gcm_open(
            record_key(master_key, salt),
            record.nonce,
            encode_utf8(record.name),
            record.data,
        ) {
            None => Err(VaultError::AuthenticationFailure),
            Some(plain) => if valid_utf8(plain) {
                Ok(decode_utf8(plain))
            } else {
                Err(VaultError::EncodingError)
            },
        }
    }
}

/// What looking up `name` in a directory gives: the value of the first
/// record of that name, or why there is none.
pub open spec fn looked_up(
    directory: DirectoryView,
    master_key: Seq<u8>,
    salt: Seq<u8>,
    name: Seq<char>,
) -> Result<Seq<char>, VaultError> {
    match first_index(record_names(directory.records), name) {
        Some(i) => opened_record(directory.records[i], master_key, salt),
        None => Err(VaultError::KeyNotFound),
    }
}

/// True where `r` is the text `value`.
pub open spec fn is_text(r: Result<String, VaultError>, value: Seq<char>) -> bool {
    r matches Ok(text) && text@ == value
}

/// Work on the records of one directory of a vault, for as long as the
/// borrow of the directory lasts.
#[derive(Debug)]
pub struct DirectoryManager<'a> {
    pub dir: &'a mut Directory,
    pub salt: SaltBuffer,
    pub master_key: &'a KeyBuffer,
}

impl<'a> DirectoryManager<'a> {
    /// Work on `dir` with the vault's salt for records and its master hash.
    pub fn new(dir: &'a mut Directory, salt: &SaltBuffer, key: &'a KeyBuffer) -> (manager: Self)
        ensures
            manager.dir@ == old(dir)@,
            manager.salt == *salt,
            manager.master_key == key,
            *final(dir) == *final(manager.dir),
    {
        Self { dir, salt: *salt, master_key: key }
    }

    /// The position of the first record of that name.
    pub fn find_record(&self, name: &str) -> (r: Option<usize>)
        ensures
            match first_index(record_names(old(self.dir)@.records), name@) {
                Some(i) => r matches Some(index) && index == i && 0 <= i < old(
                    self.dir,
                )@.records.len(),
                None => r is None,
            },
    {
        let ghost names = record_names(self.dir@.records);
        let mut i: usize = 0;
        while i < self.dir.records.len()
            invariant
                i <= self.dir.records.len(),
                names == record_names(self.dir@.records),
                forall|j: int| 0 <= j < i ==> #[trigger] names[j] != name@,
            decreases self.dir.records.len() - i,
        {
            if same_text(self.dir.records[i].name.as_str(), name) {
                proof {
                    lemma_first_index(names, name@, i as int);
                }
                return Some(i);
            }
            i += 1;
        }
        proof {
            lemma_no_first_index(names, name@);
        }
        None
    }

    /// Seals the value under the nonce of the next position and appends it
    /// as a record of that name. Succeeds wherever name and value are each
    /// at most 2^32 - 1 bytes long. The record's data is 16 bytes, the
    /// cipher's tag, longer than the value. The nonce follows the position: after a
    /// removal the next record takes a position that was taken before, and
    /// with it the nonce that was used there. Names are not held apart: a
    /// second record of a name stands behind the first and is not reached
    /// by name.
    pub fn add_record(&mut self, name: &str, key_val: &str) -> (r: Result<(), VaultError>)
        ensures
            match sealed_value(
                old(self).master_key@,
                old(self).salt@,
                old(self).dir@.records.len(),
                name@,
                key_val@,
            ) {
                Some(data) => r is Ok && final(self).dir@ == (DirectoryView {
                    name: old(self).dir@.name,
                    records: old(self).dir@.records.push(
                        RecordView {
                            name: name@,
                            nonce: record_nonce(
                                old(self).salt@,
                                old(self).dir@.records.len() as u64,
                            ),
                            data,
                        },
                    ),
                }),
                None => r == Err::<(), VaultError>(VaultError::SealError) && *final(self).dir
                    == *old(self).dir,
            },
            encode_utf8(name@).len() <= SEAL_LIMIT && encode_utf8(key_val@).len() <= SEAL_LIMIT
                ==> r is Ok,
            r is Ok ==> final(self).dir@.records.last().data.len() == encode_utf8(key_val@).len()
                + TAG_LEN,
            record_nonce(old(self).salt@, old(self).dir@.records.len() as u64).len() == NONCE_LEN,
            final(self).salt == old(self).salt,
            final(self).master_key == old(self).master_key,
            *final(final(self).dir) == *final(old(self).dir),
    {
        let nonce = match generate_nonce_buf(
            &self.salt,
            self.dir.name.as_str(),
            self.dir.records.len(),
        ) {
            Ok(nonce) => nonce,
            Err(e) => {
                return Err(e);
            },
        };
        let key = match KeyGen::derive_key(self.master_key.as_slice(), self.salt.as_slice()) {
            Ok(key) => key,
            Err(e) => {
                return Err(e);
            },
        };
        let data = match seal(&key, &nonce, name.as_bytes(), key_val.as_bytes()) {
            Ok(data) => data,
            Err(_) => {
                return Err(VaultError::SealError);
            },
        };
        let record = Record {
            name: String::from_str(name),
            nonce: vstd::slice::slice_to_vec(nonce.as_slice()),
            data,
        };
        self.dir.records.push(record);
        proof {
            assert(self.dir@.records =~= old(self).dir@.records.push(record@));
        }
        Ok(())
    }

    /// Opens the first record of that name. A record that was sealed as that
    /// name's value under this vault's key and its own nonce gives the value
    /// back; one whose data is too short to hold the cipher's tag ends in
    /// `AuthenticationFailure`.
    pub fn get_record(&mut self, name: &str) -> (r: Result<String, VaultError>)
        ensures
            match looked_up(old(self).dir@, old(self).master_key@, old(self).salt@, name@) {
                Ok(value) => r matches Ok(text) && text@ == value,
                Err(e) => r matches Err(x) && x == e,
            },
            forall|value: Seq<char>, i: int|
                first_index(record_names(old(self).dir@.records), name@) == Some(i) && old(
                    self,
                ).dir@.records[i].nonce.len() == NONCE_LEN && #[trigger] aes256_gcm_seal(
                    record_key(old(self).master_key@, old(self).salt@),
                    old(self).dir@.records[i].nonce,
                    encode_utf8(name@),
                    encode_utf8(value),
                ) == Some(old(self).dir@.records[i].data) ==> is_text(r, value),
            first_index(record_names(old(self).dir@.records), name@) matches Some(i) ==> (old(
                self,
            ).dir@.records[i].nonce.len() == NONCE_LEN && old(self).dir@.records[i].data.len()
                < TAG_LEN ==> r == Err::<String, VaultError>(VaultError::AuthenticationFailure)),
            *final(self).dir == *old(self).dir,
            final(self).salt == old(self).salt,
            final(self).master_key == old(self).master_key,
            *final(final(self).dir) == *final(old(self).dir),
    {
        broadcast use {encode_utf8_decode_utf8, vstd::utf8::encode_utf8_valid_utf8};

        let index = match self.find_record(name) {
            Some(index) => index,
            None => {
                return Err(VaultError::KeyNotFound);
            },
        };
        let record = &self.dir.records[index];
        if record.nonce.len() != NONCE_LEN {
            return Err(VaultError::InvalidNonceLength);
        }
        let nonce: NonceBuffer = to_array(record.nonce.as_slice());
        let key = match KeyGen::derive_key(self.master_key.as_slice(), self.salt.as_slice()) {
            Ok(key) => key,
            Err(e) => {
                return Err(e);
            },
        };
        let plain = match open(&key, &nonce, name.as_bytes(), record.data.as_slice()) {
            Ok(plain) => plain,
            Err(_) => {
                return Err(VaultError::AuthenticationFailure);
            },
        };
        match string_from_utf8(plain) {
            Some(text) => Ok(text),
            None => Err(VaultError::EncodingError),
        }
    }

    /// Removes the first record of that name.
    pub fn remove_record(&mut self, name: &str) -> (r: Result<(), VaultError>)
        ensures
            match first_index(record_names(old(self).dir@.records), name@) {
                Some(i) => r is Ok && final(self).dir@ == (DirectoryView {
                    name: old(self).dir@.name,
                    records: old(self).dir@.records.remove(i),
                }),
                None => r == Err::<(), VaultError>(VaultError::KeyNotFound) && *final(self).dir
                    == *old(self).dir,
            },
            final(self).salt == old(self).salt,
            final(self).master_key == old(self).master_key,
            *final(final(self).dir) == *final(old(self).dir),
    {
        match self.find_record(name) {
            Some(index) => {
                self.dir.records.remove(index);
                proof {
                    assert(self.dir@.records =~= old(self).dir@.records.remove(index as int));
                }
                Ok(())
            },
            None => Err(VaultError::KeyNotFound),
        }
    }

    /// Gives the directory another name. The records stay as they are: none
    /// of them is bound to the directory's name.
    pub fn rename(&mut self, new_name: &str)
        ensures
            final(self).dir@ == (DirectoryView { name: new_name@, records: old(self).dir@.records }),
            final(self).salt == old(self).salt,
            final(self).master_key == old(self).master_key,
            *final(final(self).dir) == *final(old(self).dir),
    {
        self.dir.name = String::from_str(new_name);
    }

    /// The names of the records, in the order in which they were added.
    pub fn get_record_names(&self) -> (names: Vec<&str>)
        ensures
            names@.len() == old(self.dir)@.records.len(),
            forall|i: int|
                0 <= i < names@.len() ==> (#[trigger] names@[i])@ == old(
                    self.dir,
                )@.records[i].name,
    {
        let mut names: Vec<&str> = Vec::new();
        let mut i: usize = 0;
        while i < self.dir.records.len()
            invariant
                i <= self.dir.records.len(),
                names@.len() == i,
                forall|k: int| 0 <= k < i ==> (#[trigger] names@[k])@ == self.dir@.records[k].name,
            decreases self.dir.records.len() - i,
        {
            names.push(self.dir.records[i].name.as_str());
            i += 1;
        }
        names
    }
}

/// A saved vault, opened with any password that is short enough to be
/// stretched, opens or ends at the cipher: it fails with
/// `AuthenticationFailure` exactly where the cipher turns the sealed body
/// down under the key that the password gives, and with no error that comes
/// before the cipher.
pub proof fn law_wrong_password(vault: VaultView, file: Seq<u8>, password: Seq<char>)
    requires
        vault.file() == Ok::<Seq<u8>, VaultError>(file),
        vault.header.valid(),
        vault.fits(),
        file.len() <= u64::MAX,
        password_fits(password),
    ensures
        opened(file, password) == Err::<VaultView, VaultError>(VaultError::AuthenticationFailure)
            <==> aes256_gcm_open(
            hkdf_sha256(
                master_hash(password, vault.header.argon_salt),
                vault.header.master_salt,
            ),
            vault.header.master_nonce,
            encode_header(vault.header),
            vault.sealed_body()->0,
        ) is None,
        opened(file, password) matches Err(e) ==> e == VaultError::AuthenticationFailure || e
            == VaultError::ParseError,
        opened(file, password) matches Ok(other) ==> other.header == vault.header
            && other.master_hash == master_hash(password, vault.header.argon_salt),
{
    lemma_saved_file_parses(vault, file);
}

/// Two files that differ and are both read as envelopes hold different
/// envelopes: whatever is changed in a file either makes it no envelope or
/// changes the header or the sealed body that reach the cipher.
pub proof fn law_changed_file(file: Seq<u8>, changed: Seq<u8>)
    requires
        file != changed,
        parse_envelope(file) is Some,
        parse_envelope(changed) is Some,
    ensures
        parse_envelope(file) != parse_envelope(changed),
{
    lemma_envelope_canonical(file);
    lemma_envelope_canonical(changed);
}

/// A record's data under another record's name is opened under that other
/// name: looking the name up ends in `AuthenticationFailure` exactly where
/// the cipher turns the data down under the name and the nonce of the place
/// in which it now stands.
pub proof fn law_relabelled_record(
    directory: DirectoryView,
    master_key: Seq<u8>,
    salt: Seq<u8>,
    from: int,
    to: int,
)
    requires
        0 <= from < directory.records.len(),
        is_first(record_names(directory.records), directory.records[to].name, to),
        directory.records[to].nonce.len() == NONCE_LEN,
    ensures
        ({
            let moved = RecordView { data: directory.records[from].data, ..directory.records[to] };
            let changed = DirectoryView {
                records: directory.records.update(to, moved),
                ..directory
            };
            looked_up(changed, master_key, salt, moved.name) == Err::<Seq<char>, VaultError>(
                VaultError::AuthenticationFailure,
            ) <==> aes256_gcm_open(
                record_key(master_key, salt),
                directory.records[to].nonce,
                encode_utf8(directory.records[to].name),
                directory.records[from].data,
            ) is None
        }),
{
    let moved = RecordView { data: directory.records[from].data, ..directory.records[to] };
    let records = directory.records.update(to, moved);
    assert(record_names(records) =~= record_names(directory.records));
    lemma_first_index(record_names(records), moved.name, to);
}

/// Renaming a directory changes the value of none of its records.
pub proof fn law_rename_keeps_values(
    directory: DirectoryView,
    new_name: Seq<char>,
    master_key: Seq<u8>,
    salt: Seq<u8>,
    name: Seq<char>,
)
    ensures
        looked_up(
            DirectoryView { name: new_name, records: directory.records },
            master_key,
            salt,
            name,
        ) == looked_up(directory, master_key, salt, name),
{
}

/// True where every record has the nonce of its position.
pub open spec fn nonces_follow_positions(records: Seq<RecordView>, salt: Seq<u8>) -> bool {
    forall|k: int| 0 <= k < records.len() ==> (#[trigger] records[k]).nonce == record_nonce(
        salt,
        k as u64,
    )
}

/// A record that is added has the nonce of its position, so adding keeps
/// every record at the nonce of its position.
pub proof fn law_added_record_follows(records: Seq<RecordView>, salt: Seq<u8>, added: RecordView)
    requires
        nonces_follow_positions(records, salt),
        added.nonce == record_nonce(salt, records.len() as u64),
    ensures
        nonces_follow_positions(records.push(added), salt),
{
    assert forall|k: int| 0 <= k < records.push(added).len() implies (#[trigger] records.push(
        added,
    )[k]).nonce == record_nonce(salt, k as u64) by {
        if k < records.len() {
            assert(records.push(added)[k] == records[k]);
        }
    }
}

/// The nonces of records that were added one after another are Argon2id
/// hashes of different inputs: two of them are the same only where Argon2id
/// gives the same twelve bytes for the bytes of two different positions.
pub proof fn law_nonces_of_positions(records: Seq<RecordView>, salt: Seq<u8>, i: int, j: int)
    requires
        nonces_follow_positions(records, salt),
        0 <= i < j < records.len() <= u64::MAX,
    ensures
        spec_u64_to_le_bytes(i as u64) != spec_u64_to_le_bytes(j as u64),
        records[i].nonce == argon2id(spec_u64_to_le_bytes(i as u64), salt, 12),
        records[j].nonce == argon2id(spec_u64_to_le_bytes(j as u64), salt, 12),
{
    lemma_auto_spec_u64_to_from_le_bytes();
}

} // verus!

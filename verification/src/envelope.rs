//! The messages that make up a vault file, and their one encoding.
//!
//! On disk a vault is an envelope of two fields: the header in the clear, and
//! the body as sealed bytes. The body, once opened, holds the directories and
//! their records. Each message is written as its fields in ascending order,
//! in the wire encoding of `crate::wire`.
use crate::wire::{
    bytes_field, lemma_bytes_field_canonical, lemma_bytes_field_roundtrip,
    lemma_bytes_field_starts, lemma_concat_assoc, lemma_concat_empty,
    lemma_message_field_canonical, lemma_message_field_roundtrip, lemma_message_field_starts,
    lemma_repeated_field_canonical, lemma_repeated_field_holds, lemma_repeated_field_push,
    lemma_repeated_field_roundtrip, lemma_repeated_field_starts, lemma_uint_field_canonical,
    lemma_uint_field_roundtrip, lemma_uint_field_starts, lemma_varint_short, message_field,
    parse_bytes_field, parse_message_field, parse_repeated_field, parse_uint_field, payloads,
    read_bytes_field, read_message_field, read_repeated_field, read_uint_field, repeated_field,
    uint_field, write_bytes_field, write_delimited, write_uint_field,
};
use vstd::prelude::*;
use vstd::utf8::{
    decode_utf8, decode_utf8_encode_utf8, encode_utf8, encode_utf8_decode_utf8,
    encode_utf8_valid_utf8, valid_utf8,
};

verus! {

/// Field 1 as a varint.
pub const FIELD_1_VARINT: u8 = 0x08;

/// Field 2 as a varint.
pub const FIELD_2_VARINT: u8 = 0x10;

/// Field 3 as a varint.
pub const FIELD_3_VARINT: u8 = 0x18;

/// Field 4 as a varint.
pub const FIELD_4_VARINT: u8 = 0x20;

/// Field 1 as length-delimited bytes.
pub const FIELD_1_BYTES: u8 = 0x0A;

/// Field 2 as length-delimited bytes.
pub const FIELD_2_BYTES: u8 = 0x12;

/// Field 3 as length-delimited bytes.
pub const FIELD_3_BYTES: u8 = 0x1A;

/// Field 4 as length-delimited bytes.
pub const FIELD_4_BYTES: u8 = 0x22;

/// Field 5 as length-delimited bytes.
pub const FIELD_5_BYTES: u8 = 0x2A;

/// The signature that every vault header carries.
pub const SIGNATURE: u32 = 0x3af9c42;

/// The one version of the format.
pub const VERSION: u32 = 0x0001;

/// Length of a salt and of a key, in bytes.
pub const SALT_LEN: usize = 32;

/// Length of a cipher nonce, in bytes.
pub const NONCE_LEN: usize = 12;

/// A signed 64-bit number as the unsigned number with the same bits.
pub open spec fn int64_bits(x: i64) -> u64 {
    if x >= 0 {
        x as u64
    } else {
        (x + 0x1_0000_0000_0000_0000) as u64
    }
}

/// The signed number with the bits of `u`.
pub open spec fn bits_int64(u: u64) -> i64 {
    if u < 0x8000_0000_0000_0000 {
        u as i64
    } else {
        (u - 0x1_0000_0000_0000_0000) as i64
    }
}

/// The unsigned number with the bits of `x`.
pub fn int64_to_bits(x: i64) -> (u: u64)
    ensures
        u == int64_bits(x),
{
    if x >= 0 {
        x as u64
    } else {
        ((x + i64::MAX) + 1) as u64 + 0x8000_0000_0000_0000
    }
}

/// The signed number with the bits of `u`.
pub fn bits_to_int64(u: u64) -> (x: i64)
    ensures
        x == bits_int64(u),
{
    if u < 0x8000_0000_0000_0000 {
        u as i64
    } else {
        (u - 0x8000_0000_0000_0000) as i64 + i64::MIN
    }
}

/// A point in time: seconds since the Unix epoch and nanoseconds within the
/// second.
#[derive(Debug, Clone, Copy, PartialEq, Eq)]
pub struct Timestamp {
    pub seconds: i64,
    pub nanos: i32,
}

/// The bytes of a timestamp: the seconds and the nanoseconds, each as the
/// varint of its 64 bits.
pub open spec fn encode_timestamp(t: Timestamp) -> Seq<u8> {
    uint_field(FIELD_1_VARINT, int64_bits(t.seconds)) + uint_field(
        FIELD_2_VARINT,
        int64_bits(t.nanos as i64),
    )
}

/// The timestamp that the bytes hold, if they are the encoding of one.
pub open spec fn parse_timestamp(b: Seq<u8>) -> Option<Timestamp> {
    match parse_uint_field(FIELD_1_VARINT, b) {
        Some((seconds, b1)) => match parse_uint_field(FIELD_2_VARINT, b1) {
            Some((nanos, b2)) => if b2.len() == 0 && i32::MIN <= bits_int64(nanos) <= i32::MAX {
                Some(Timestamp { seconds: bits_int64(seconds), nanos: bits_int64(nanos) as i32 })
            } else {
                None
            },
            None => None,
        },
        None => None,
    }
}

impl Timestamp {
    /// The bytes of this timestamp.
    pub fn write_to_bytes(&self) -> (out: Vec<u8>)
        ensures
            out@ == encode_timestamp(*self),
    {
        let mut out: Vec<u8> = Vec::new();
        write_uint_field(&mut out, FIELD_1_VARINT, int64_to_bits(self.seconds));
        write_uint_field(&mut out, FIELD_2_VARINT, int64_to_bits(self.nanos as i64));
        proof {
            assert(out@ =~= encode_timestamp(*self));
        }
        out
    }

    /// The timestamp that the bytes hold, if they are the encoding of one.
    pub fn parse_from_bytes(b: &[u8]) -> (r: Option<Timestamp>)
        ensures
            r == parse_timestamp(b@),
    {
        proof {
            assert(b@.skip(0) =~= b@);
        }
        let (seconds, at1) = match read_uint_field(b, 0, FIELD_1_VARINT) {
            Some(x) => x,
            None => {
                return None;
            },
        };
        let (nanos, at2) = match read_uint_field(b, at1, FIELD_2_VARINT) {
            Some(x) => x,
            None => {
                return None;
            },
        };
        let n: i64 = bits_to_int64(nanos);
        if at2 != b.len() || n < -0x8000_0000 || n > 0x7fff_ffff {
            return None;
        }
        Some(Timestamp { seconds: bits_to_int64(seconds), nanos: n as i32 })
    }
}

/// The header as plain values.
pub struct HeaderView {
    pub signature: u32,
    pub version: u32,
    pub master_salt: Seq<u8>,
    pub master_nonce: Seq<u8>,
    pub argon_salt: Seq<u8>,
}

/// The part of a vault file that is stored in the clear.
#[derive(Debug, PartialEq, Eq)]
pub struct Header {
    pub signature: u32,
    pub version: u32,
    pub master_salt: Vec<u8>,
    pub master_nonce: Vec<u8>,
    pub argon_salt: Vec<u8>,
}

impl View for Header {
    type V = HeaderView;

    open spec fn view(&self) -> HeaderView {
        HeaderView {
            signature: self.signature,
            version: self.version,
            master_salt: self.master_salt@,
            master_nonce: self.master_nonce@,
            argon_salt: self.argon_salt@,
        }
    }
}

impl HeaderView {
    /// The header of a vault that was never set up: all zero, all empty.
    pub open spec fn empty() -> HeaderView {
        HeaderView {
            signature: 0,
            version: 0,
            master_salt: Seq::empty(),
            master_nonce: Seq::empty(),
            argon_salt: Seq::empty(),
        }
    }

    /// What a header must satisfy to be loaded: the known signature and
    /// version, and salts and nonce of their fixed lengths.
    pub open spec fn valid(self) -> bool {
        &&& self.signature == SIGNATURE
        &&& self.version == VERSION
        &&& self.master_salt.len() == SALT_LEN
        &&& self.master_nonce.len() == NONCE_LEN
        &&& self.argon_salt.len() == SALT_LEN
    }

    /// Every length in it can be written as a 64-bit varint.
    pub open spec fn fits(self) -> bool {
        &&& self.master_salt.len() <= u64::MAX
        &&& self.master_nonce.len() <= u64::MAX
        &&& self.argon_salt.len() <= u64::MAX
    }
}

/// The bytes of a header: signature, version, master salt, master nonce and
/// Argon2 salt, as fields 1 to 5.
pub open spec fn encode_header(h: HeaderView) -> Seq<u8> {
    uint_field(FIELD_1_VARINT, h.signature as u64) + uint_field(FIELD_2_VARINT, h.version as u64)
        + bytes_field(FIELD_3_BYTES, h.master_salt) + bytes_field(FIELD_4_BYTES, h.master_nonce)
        + bytes_field(FIELD_5_BYTES, h.argon_salt)
}

/// The header that the bytes hold, if they are the encoding of one. Whether
/// the header can be loaded is another question: see `HeaderView::valid`.
pub open spec fn parse_header(b: Seq<u8>) -> Option<HeaderView> {
    match parse_uint_field(FIELD_1_VARINT, b) {
        Some((signature, b1)) => match parse_uint_field(FIELD_2_VARINT, b1) {
            Some((version, b2)) => match parse_bytes_field(FIELD_3_BYTES, b2) {
                Some((master_salt, b3)) => match parse_bytes_field(FIELD_4_BYTES, b3) {
                    Some((master_nonce, b4)) => match parse_bytes_field(FIELD_5_BYTES, b4) {
                        Some((argon_salt, b5)) => if b5.len() == 0 && signature <= u32::MAX
                            && version <= u32::MAX {
                            Some(
                                HeaderView {
                                    signature: signature as u32,
                                    version: version as u32,
                                    master_salt,
                                    master_nonce,
                                    argon_salt,
                                },
                            )
                        } else {
                            None
                        },
                        None => None,
                    },
                    None => None,
                },
                None => None,
            },
            None => None,
        },
        None => None,
    }
}

impl Clone for Header {
    fn clone(&self) -> (copy: Header)
        ensures
            copy@ == self@,
    {
        Header {
            signature: self.signature,
            version: self.version,
            master_salt: vstd::slice::slice_to_vec(self.master_salt.as_slice()),
            master_nonce: vstd::slice::slice_to_vec(self.master_nonce.as_slice()),
            argon_salt: vstd::slice::slice_to_vec(self.argon_salt.as_slice()),
        }
    }
}

impl Default for Header {
    fn default() -> (h: Header)
        ensures
            h@ == HeaderView::empty(),
    {
        Header {
            signature: 0,
            version: 0,
            master_salt: Vec::new(),
            master_nonce: Vec::new(),
            argon_salt: Vec::new(),
        }
    }
}

impl Header {
    /// Whether the header has the known signature and version and salts of
    /// the fixed lengths.
    pub fn is_valid(&self) -> (ok: bool)
        ensures
            ok == self@.valid(),
    {
        self.signature == SIGNATURE && self.version == VERSION && self.master_salt.len()
            == SALT_LEN && self.master_nonce.len() == NONCE_LEN && self.argon_salt.len()
            == SALT_LEN
    }

    /// The bytes of this header. They are what is written to the file, and they
    /// are the associated data under which the body is sealed.
    pub fn write_to_bytes(&self) -> (out: Vec<u8>)
        ensures
            out@ == encode_header(self@),
    {
        let mut out: Vec<u8> = Vec::new();
        write_uint_field(&mut out, FIELD_1_VARINT, self.signature as u64);
        write_uint_field(&mut out, FIELD_2_VARINT, self.version as u64);
        write_bytes_field(&mut out, FIELD_3_BYTES, self.master_salt.as_slice());
        write_bytes_field(&mut out, FIELD_4_BYTES, self.master_nonce.as_slice());
        write_bytes_field(&mut out, FIELD_5_BYTES, self.argon_salt.as_slice());
        proof {
            assert(out@ =~= encode_header(self@));
        }
        out
    }

    /// The header that the bytes hold, if they are the encoding of one.
    pub fn parse_from_bytes(b: &[u8]) -> (r: Option<Header>)
        ensures
            match parse_header(b@) {
                Some(h) => r matches Some(x) && x@ == h,
                None => r is None,
            },
    {
        proof {
            assert(b@.skip(0) =~= b@);
        }
        let (signature, at1) = match read_uint_field(b, 0, FIELD_1_VARINT) {
            Some(x) => x,
            None => {
                return None;
            },
        };
        let (version, at2) = match read_uint_field(b, at1, FIELD_2_VARINT) {
            Some(x) => x,
            None => {
                return None;
            },
        };
        let (master_salt, at3) = match read_bytes_field(b, at2, FIELD_3_BYTES) {
            Some(x) => x,
            None => {
                return None;
            },
        };
        let (master_nonce, at4) = match read_bytes_field(b, at3, FIELD_4_BYTES) {
            Some(x) => x,
            None => {
                return None;
            },
        };
        let (argon_salt, at5) = match read_bytes_field(b, at4, FIELD_5_BYTES) {
            Some(x) => x,
            None => {
                return None;
            },
        };
        if at5 != b.len() || signature > 0xffff_ffff || version > 0xffff_ffff {
            return None;
        }
        Some(
            Header {
                signature: signature as u32,
                version: version as u32,
                master_salt,
                master_nonce,
                argon_salt,
            },
        )
    }
}

/// `String::from_utf8` of std: the text that the bytes spell, where they are
/// UTF-8, and nothing where they are not.
#[verifier::external_body]
pub(crate) fn string_from_utf8(bytes: Vec<u8>) -> (r: Option<String>)
    ensures
        match r {
            Some(s) => valid_utf8(bytes@) && s@ == decode_utf8(bytes@),
            None => !valid_utf8(bytes@),
        },
{
    String::from_utf8(bytes).ok()
}

/// A record as plain values.
pub struct RecordView {
    pub name: Seq<char>,
    pub nonce: Seq<u8>,
    pub data: Seq<u8>,
}

/// One sealed secret: its name, the nonce it was sealed under, and the
/// ciphertext with the authentication tag behind it.
#[derive(Debug, Clone, PartialEq, Eq)]
pub struct Record {
    pub name: String,
    pub nonce: Vec<u8>,
    pub data: Vec<u8>,
}

impl View for Record {
    type V = RecordView;

    open spec fn view(&self) -> RecordView {
        RecordView { name: self.name@, nonce: self.nonce@, data: self.data@ }
    }
}

impl RecordView {
    /// Every length in it can be written as a 64-bit varint.
    pub open spec fn fits(self) -> bool {
        &&& encode_utf8(self.name).len() <= u64::MAX
        &&& self.nonce.len() <= u64::MAX
        &&& self.data.len() <= u64::MAX
    }
}

/// The bytes of a record: name, nonce and data, as fields 1 to 3.
pub open spec fn encode_record(r: RecordView) -> Seq<u8> {
    bytes_field(FIELD_1_BYTES, encode_utf8(r.name)) + bytes_field(FIELD_2_BYTES, r.nonce)
        + bytes_field(FIELD_3_BYTES, r.data)
}

/// The record that the bytes hold, if they are the encoding of one.
pub open spec fn parse_record(b: Seq<u8>) -> Option<RecordView> {
    match parse_bytes_field(FIELD_1_BYTES, b) {
        Some((name, b1)) => match parse_bytes_field(FIELD_2_BYTES, b1) {
            Some((nonce, b2)) => match parse_bytes_field(FIELD_3_BYTES, b2) {
                Some((data, b3)) => if b3.len() == 0 && valid_utf8(name) {
                    Some(RecordView { name: decode_utf8(name), nonce, data })
                } else {
                    None
                },
                None => None,
            },
            None => None,
        },
        None => None,
    }
}

impl Record {
    /// The bytes of this record.
    pub fn write_to_bytes(&self) -> (out: Vec<u8>)
        ensures
            out@ == encode_record(self@),
    {
        let mut out: Vec<u8> = Vec::new();
        write_bytes_field(&mut out, FIELD_1_BYTES, self.name.as_str().as_bytes());
        write_bytes_field(&mut out, FIELD_2_BYTES, self.nonce.as_slice());
        write_bytes_field(&mut out, FIELD_3_BYTES, self.data.as_slice());
        proof {
            assert(out@ =~= encode_record(self@));
        }
        out
    }

    /// The record that the bytes hold, if they are the encoding of one.
    pub fn parse_from_bytes(b: &[u8]) -> (r: Option<Record>)
        ensures
            match parse_record(b@) {
                Some(v) => r matches Some(x) && x@ == v,
                None => r is None,
            },
    {
        proof {
            assert(b@.skip(0) =~= b@);
        }
        let (name_bytes, at1) = match read_bytes_field(b, 0, FIELD_1_BYTES) {
            Some(x) => x,
            None => {
                return None;
            },
        };
        let (nonce, at2) = match read_bytes_field(b, at1, FIELD_2_BYTES) {
            Some(x) => x,
            None => {
                return None;
            },
        };
        let (data, at3) = match read_bytes_field(b, at2, FIELD_3_BYTES) {
            Some(x) => x,
            None => {
                return None;
            },
        };
        if at3 != b.len() {
            return None;
        }
        match string_from_utf8(name_bytes) {
            Some(name) => Some(Record { name, nonce, data }),
            None => None,
        }
    }
}

/// The records that a vector holds, as plain values.
pub open spec fn record_views(records: Seq<Record>) -> Seq<RecordView> {
    Seq::new(records.len(), |i: int| records[i]@)
}

/// The encoding of each record, in order.
pub open spec fn encode_records(records: Seq<RecordView>) -> Seq<Seq<u8>> {
    Seq::new(records.len(), |i: int| encode_record(records[i]))
}

/// The records that the byte strings hold, if every one of them is a record.
pub open spec fn parse_records(items: Seq<Seq<u8>>) -> Option<Seq<RecordView>> {
    if forall|i: int| 0 <= i < items.len() ==> parse_record(#[trigger] items[i]) is Some {
        Some(Seq::new(items.len(), |i: int| parse_record(items[i])->0))
    } else {
        None
    }
}

/// A directory as plain values.
pub struct DirectoryView {
    pub name: Seq<char>,
    pub records: Seq<RecordView>,
}

/// A named list of records, in the order in which they were added.
#[derive(Debug, Clone, PartialEq, Eq)]
pub struct Directory {
    pub name: String,
    pub records: Vec<Record>,
}

impl View for Directory {
    type V = DirectoryView;

    open spec fn view(&self) -> DirectoryView {
        DirectoryView { name: self.name@, records: record_views(self.records@) }
    }
}

impl DirectoryView {
    /// Every length in it can be written as a 64-bit varint.
    pub open spec fn fits(self) -> bool {
        &&& encode_utf8(self.name).len() <= u64::MAX
        &&& forall|i: int|
            0 <= i < self.records.len() ==> (#[trigger] self.records[i]).fits() && encode_record(
                self.records[i],
            ).len() <= u64::MAX
    }
}

/// The bytes of a directory: the name as field 1, each record as field 2.
pub open spec fn encode_directory(d: DirectoryView) -> Seq<u8> {
    bytes_field(FIELD_1_BYTES, encode_utf8(d.name)) + repeated_field(
        FIELD_2_BYTES,
        encode_records(d.records),
    )
}

/// The directory that the bytes hold, if they are the encoding of one.
pub open spec fn parse_directory(b: Seq<u8>) -> Option<DirectoryView> {
    match parse_bytes_field(FIELD_1_BYTES, b) {
        Some((name, b1)) => match parse_repeated_field(FIELD_2_BYTES, b1) {
            Some((items, b2)) => if b2.len() == 0 && valid_utf8(name) {
                match parse_records(items) {
                    Some(records) => Some(DirectoryView { name: decode_utf8(name), records }),
                    None => None,
                }
            } else {
                None
            },
            None => None,
        },
        None => None,
    }
}

impl Directory {
    /// The bytes of this directory.
    pub fn write_to_bytes(&self) -> (out: Vec<u8>)
        ensures
            out@ == encode_directory(self@),
    {
        let mut out: Vec<u8> = Vec::new();
        write_bytes_field(&mut out, FIELD_1_BYTES, self.name.as_str().as_bytes());
        let ghost head = out@;
        let ghost all = encode_records(self@.records);
        let mut i: usize = 0;
        proof {
            assert(all.take(0) =~= Seq::<Seq<u8>>::empty());
            assert(out@ =~= head + repeated_field(FIELD_2_BYTES, all.take(0)));
        }
        while i < self.records.len()
            invariant
                i <= self.records.len(),
                all == encode_records(self@.records),
                out@ == head + repeated_field(FIELD_2_BYTES, all.take(i as int)),
            decreases self.records.len() - i,
        {
            let item = self.records[i].write_to_bytes();
            write_delimited(&mut out, FIELD_2_BYTES, item.as_slice());
            proof {
                lemma_repeated_field_push(FIELD_2_BYTES, all.take(i as int), item@);
                assert(all.take(i + 1) =~= all.take(i as int).push(item@));
                assert(out@ =~= head + repeated_field(FIELD_2_BYTES, all.take(i + 1)));
            }
            i += 1;
        }
        proof {
            assert(all.take(i as int) =~= all);
        }
        out
    }

    /// The directory that the bytes hold, if they are the encoding of one.
    pub fn parse_from_bytes(b: &[u8]) -> (r: Option<Directory>)
        ensures
            match parse_directory(b@) {
                Some(v) => r matches Some(x) && x@ == v,
                None => r is None,
            },
    {
        proof {
            assert(b@.skip(0) =~= b@);
        }
        let (name_bytes, at1) = match read_bytes_field(b, 0, FIELD_1_BYTES) {
            Some(x) => x,
            None => {
                return None;
            },
        };
        let (items, at2) = match read_repeated_field(b, at1, FIELD_2_BYTES) {
            Some(x) => x,
            None => {
                return None;
            },
        };
        if at2 != b.len() {
            return None;
        }
        let name = match string_from_utf8(name_bytes) {
            Some(name) => name,
            None => {
                return None;
            },
        };
        let ghost raw = payloads(items@);
        let mut records: Vec<Record> = Vec::new();
        let mut i: usize = 0;
        while i < items.len()
            invariant
                i <= items.len(),
                raw == payloads(items@),
                records.len() == i,
                forall|j: int| 0 <= j < i ==> parse_record(#[trigger] raw[j]) == Some(records@[j]@),
                parse_directory(b@) == match parse_records(raw) {
                    Some(records) => Some(DirectoryView { name: name@, records }),
                    None => None,
                },
            decreases items.len() - i,
        {
            match Record::parse_from_bytes(items[i].as_slice()) {
                Some(record) => {
                    records.push(record);
                },
                None => {
                    proof {
                        assert(raw[i as int] == items@[i as int]@);
                        assert(parse_record(raw[i as int]) is None);
                    }
                    return None;
                },
            }
            i += 1;
        }
        proof {
            assert(parse_records(raw)->0 =~= record_views(records@));
        }
        Some(Directory { name, records })
    }
}

/// The directories that a vector holds, as plain values.
pub open spec fn directory_views(directories: Seq<Directory>) -> Seq<DirectoryView> {
    Seq::new(directories.len(), |i: int| directories[i]@)
}

/// The encoding of each directory, in order.
pub open spec fn encode_directories(directories: Seq<DirectoryView>) -> Seq<Seq<u8>> {
    Seq::new(directories.len(), |i: int| encode_directory(directories[i]))
}

/// The directories that the byte strings hold, if every one of them is a
/// directory.
pub open spec fn parse_directories(items: Seq<Seq<u8>>) -> Option<Seq<DirectoryView>> {
    if forall|i: int| 0 <= i < items.len() ==> parse_directory(#[trigger] items[i]) is Some {
        Some(Seq::new(items.len(), |i: int| parse_directory(items[i])->0))
    } else {
        None
    }
}

/// The encoding of a timestamp that may be absent.
pub open spec fn encode_optional_timestamp(t: Option<Timestamp>) -> Option<Seq<u8>> {
    match t {
        Some(t) => Some(encode_timestamp(t)),
        None => None,
    }
}

/// The timestamp in a field that may be absent; `None` where the field is
/// there and holds no timestamp.
pub open spec fn parse_optional_timestamp(p: Option<Seq<u8>>) -> Option<Option<Timestamp>> {
    match p {
        Some(bytes) => match parse_timestamp(bytes) {
            Some(t) => Some(Some(t)),
            None => None,
        },
        None => Some(None),
    }
}

/// The body as plain values.
pub struct BodyView {
    pub salt: Seq<u8>,
    pub created_at: Option<Timestamp>,
    pub last_modified: Option<Timestamp>,
    pub directories: Seq<DirectoryView>,
}

/// What a vault file holds under seal: the salt for record nonces, two
/// timestamps, and the directories in the order in which they were added.
#[derive(Debug, Clone, PartialEq, Eq)]
pub struct Body {
    pub salt: Vec<u8>,
    pub created_at: Option<Timestamp>,
    pub last_modified: Option<Timestamp>,
    pub directories: Vec<Directory>,
}

impl View for Body {
    type V = BodyView;

    open spec fn view(&self) -> BodyView {
        BodyView {
            salt: self.salt@,
            created_at: self.created_at,
            last_modified: self.last_modified,
            directories: directory_views(self.directories@),
        }
    }
}

impl BodyView {
    /// The body of a vault that was never set up.
    pub open spec fn empty() -> BodyView {
        BodyView {
            salt: Seq::empty(),
            created_at: None,
            last_modified: None,
            directories: Seq::empty(),
        }
    }

    /// Every length in it can be written as a 64-bit varint.
    pub open spec fn fits(self) -> bool {
        &&& self.salt.len() <= u64::MAX
        &&& forall|i: int|
            0 <= i < self.directories.len() ==> (#[trigger] self.directories[i]).fits()
                && encode_directory(self.directories[i]).len() <= u64::MAX
    }
}

/// The bytes of a body: salt, the two timestamps, and each directory, as
/// fields 1 to 4.
pub open spec fn encode_body(b: BodyView) -> Seq<u8> {
    bytes_field(FIELD_1_BYTES, b.salt) + message_field(
        FIELD_2_BYTES,
        encode_optional_timestamp(b.created_at),
    ) + message_field(FIELD_3_BYTES, encode_optional_timestamp(b.last_modified)) + repeated_field(
        FIELD_4_BYTES,
        encode_directories(b.directories),
    )
}

/// The body that the bytes hold, if they are the encoding of one.
pub open spec fn parse_body(b: Seq<u8>) -> Option<BodyView> {
    match parse_bytes_field(FIELD_1_BYTES, b) {
        Some((salt, b1)) => match parse_message_field(FIELD_2_BYTES, b1) {
            Some((created, b2)) => match parse_message_field(FIELD_3_BYTES, b2) {
                Some((modified, b3)) => match parse_repeated_field(FIELD_4_BYTES, b3) {
                    Some((items, b4)) => match (
                        parse_optional_timestamp(created),
                        parse_optional_timestamp(modified),
                        parse_directories(items),
                    ) {
                        (Some(created_at), Some(last_modified), Some(directories)) => if b4.len()
                            == 0 {
                            Some(BodyView { salt, created_at, last_modified, directories })
                        } else {
                            None
                        },
                        _ => None,
                    },
                    None => None,
                },
                None => None,
            },
            None => None,
        },
        None => None,
    }
}

impl Default for Body {
    fn default() -> (b: Body)
        ensures
            b@ == BodyView::empty(),
    {
        let b = Body {
            salt: Vec::new(),
            created_at: None,
            last_modified: None,
            directories: Vec::new(),
        };
        proof {
            assert(b@.directories =~= Seq::<DirectoryView>::empty());
        }
        b
    }
}

/// Appends the nested timestamp `tag`, if there is one.
fn write_optional_timestamp(out: &mut Vec<u8>, tag: u8, t: &Option<Timestamp>)
    ensures
        final(out)@ == old(out)@ + message_field(tag, encode_optional_timestamp(*t)),
{
    let ghost start = out@;
    match t {
        Some(t) => {
            let bytes = t.write_to_bytes();
            write_delimited(out, tag, bytes.as_slice());
        },
        None => {
            proof {
                assert(out@ =~= start + message_field(tag, encode_optional_timestamp(*t)));
            }
        },
    }
}

/// Reads the timestamp out of a field that was read already.
fn read_optional_timestamp(p: &Option<Vec<u8>>) -> (r: Option<Option<Timestamp>>)
    ensures
        r == parse_optional_timestamp(
            match *p {
                Some(bytes) => Some(bytes@),
                None => None,
            },
        ),
{
    match p {
        Some(bytes) => match Timestamp::parse_from_bytes(bytes.as_slice()) {
            Some(t) => Some(Some(t)),
            None => None,
        },
        None => Some(None),
    }
}

impl Body {
    /// The bytes of this body, as they are sealed.
    pub fn write_to_bytes(&self) -> (out: Vec<u8>)
        ensures
            out@ == encode_body(self@),
    {
        let mut out: Vec<u8> = Vec::new();
        write_bytes_field(&mut out, FIELD_1_BYTES, self.salt.as_slice());
        write_optional_timestamp(&mut out, FIELD_2_BYTES, &self.created_at);
        write_optional_timestamp(&mut out, FIELD_3_BYTES, &self.last_modified);
        let ghost head = out@;
        let ghost all = encode_directories(self@.directories);
        let mut i: usize = 0;
        proof {
            assert(all.take(0) =~= Seq::<Seq<u8>>::empty());
            assert(out@ =~= head + repeated_field(FIELD_4_BYTES, all.take(0)));
        }
        while i < self.directories.len()
            invariant
                i <= self.directories.len(),
                all == encode_directories(self@.directories),
                out@ == head + repeated_field(FIELD_4_BYTES, all.take(i as int)),
            decreases self.directories.len() - i,
        {
            let item = self.directories[i].write_to_bytes();
            write_delimited(&mut out, FIELD_4_BYTES, item.as_slice());
            proof {
                lemma_repeated_field_push(FIELD_4_BYTES, all.take(i as int), item@);
                assert(all.take(i + 1) =~= all.take(i as int).push(item@));
                assert(out@ =~= head + repeated_field(FIELD_4_BYTES, all.take(i + 1)));
            }
            i += 1;
        }
        proof {
            assert(all.take(i as int) =~= all);
            assert(out@ =~= encode_body(self@));
        }
        out
    }

    /// The body that the bytes hold, if they are the encoding of one.
    pub fn parse_from_bytes(b: &[u8]) -> (r: Option<Body>)
        ensures
            match parse_body(b@) {
                Some(v) => r matches Some(x) && x@ == v,
                None => r is None,
            },
    {
        proof {
            assert(b@.skip(0) =~= b@);
        }
        let (salt, at1) = match read_bytes_field(b, 0, FIELD_1_BYTES) {
            Some(x) => x,
            None => {
                return None;
            },
        };
        let (created, at2) = match read_message_field(b, at1, FIELD_2_BYTES) {
            Some(x) => x,
            None => {
                return None;
            },
        };
        let (modified, at3) = match read_message_field(b, at2, FIELD_3_BYTES) {
            Some(x) => x,
            None => {
                return None;
            },
        };
        let (items, at4) = match read_repeated_field(b, at3, FIELD_4_BYTES) {
            Some(x) => x,
            None => {
                return None;
            },
        };
        let created_at = match read_optional_timestamp(&created) {
            Some(x) => x,
            None => {
                return None;
            },
        };
        let last_modified = match read_optional_timestamp(&modified) {
            Some(x) => x,
            None => {
                return None;
            },
        };
        if at4 != b.len() {
            return None;
        }
        let ghost raw = payloads(items@);
        let mut directories: Vec<Directory> = Vec::new();
        let mut i: usize = 0;
        while i < items.len()
            invariant
                i <= items.len(),
                raw == payloads(items@),
                directories.len() == i,
                forall|j: int|
                    0 <= j < i ==> parse_directory(#[trigger] raw[j]) == Some(directories@[j]@),
                parse_body(b@) == match parse_directories(raw) {
                    Some(directories) => Some(
                        BodyView { salt: salt@, created_at, last_modified, directories },
                    ),
                    None => None,
                },
            decreases items.len() - i,
        {
            match Directory::parse_from_bytes(items[i].as_slice()) {
                Some(directory) => {
                    directories.push(directory);
                },
                None => {
                    proof {
                        assert(raw[i as int] == items@[i as int]@);
                        assert(parse_directory(raw[i as int]) is None);
                    }
                    return None;
                },
            }
            i += 1;
        }
        proof {
            assert(parse_directories(raw)->0 =~= directory_views(directories@));
        }
        Some(Body { salt, created_at, last_modified, directories })
    }
}

/// The envelope as plain values.
pub struct EnvelopeView {
    pub header: Option<HeaderView>,
    pub body: Seq<u8>,
}

/// A vault file: the header in the clear and the sealed body.
#[derive(Debug, Clone, PartialEq, Eq)]
pub struct RPDB {
    pub header: Option<Header>,
    pub body: Vec<u8>,
}

impl View for RPDB {
    type V = EnvelopeView;

    open spec fn view(&self) -> EnvelopeView {
        EnvelopeView {
            header: match self.header {
                Some(h) => Some(h@),
                None => None,
            },
            body: self.body@,
        }
    }
}

impl EnvelopeView {
    /// Every length in it can be written as a 64-bit varint.
    pub open spec fn fits(self) -> bool {
        &&& self.body.len() <= u64::MAX
        &&& self.header matches Some(h) ==> h.fits() && encode_header(h).len() <= u64::MAX
    }
}

/// The encoding of a header that may be absent.
pub open spec fn encode_optional_header(h: Option<HeaderView>) -> Option<Seq<u8>> {
    match h {
        Some(h) => Some(encode_header(h)),
        None => None,
    }
}

/// The bytes of an envelope: the header as field 1, the sealed body as field 2.
pub open spec fn encode_envelope(e: EnvelopeView) -> Seq<u8> {
    message_field(FIELD_1_BYTES, encode_optional_header(e.header)) + bytes_field(
        FIELD_2_BYTES,
        e.body,
    )
}

/// The envelope that the bytes hold, if they are the encoding of one.
pub open spec fn parse_envelope(b: Seq<u8>) -> Option<EnvelopeView> {
    match parse_message_field(FIELD_1_BYTES, b) {
        Some((header, b1)) => match parse_bytes_field(FIELD_2_BYTES, b1) {
            Some((body, b2)) => if b2.len() == 0 {
                match header {
                    Some(bytes) => match parse_header(bytes) {
                        Some(h) => Some(EnvelopeView { header: Some(h), body }),
                        None => None,
                    },
                    None => Some(EnvelopeView { header: None, body }),
                }
            } else {
                None
            },
            None => None,
        },
        None => None,
    }
}

impl RPDB {
    /// The bytes of this envelope: the vault's file.
    pub fn write_to_bytes(&self) -> (out: Vec<u8>)
        ensures
            out@ == encode_envelope(self@),
    {
        let mut out: Vec<u8> = Vec::new();
        match &self.header {
            Some(h) => {
                let bytes = h.write_to_bytes();
                write_delimited(&mut out, FIELD_1_BYTES, bytes.as_slice());
            },
            None => {},
        }
        write_bytes_field(&mut out, FIELD_2_BYTES, self.body.as_slice());
        proof {
            assert(out@ =~= encode_envelope(self@));
        }
        out
    }

    /// The envelope that the bytes hold, if they are the encoding of one.
    pub fn parse_from_bytes(b: &[u8]) -> (r: Option<RPDB>)
        ensures
            match parse_envelope(b@) {
                Some(v) => r matches Some(x) && x@ == v,
                None => r is None,
            },
    {
        proof {
            assert(b@.skip(0) =~= b@);
        }
        let (header_bytes, at1) = match read_message_field(b, 0, FIELD_1_BYTES) {
            Some(x) => x,
            None => {
                return None;
            },
        };
        let (body, at2) = match read_bytes_field(b, at1, FIELD_2_BYTES) {
            Some(x) => x,
            None => {
                return None;
            },
        };
        if at2 != b.len() {
            return None;
        }
        match header_bytes {
            Some(bytes) => match Header::parse_from_bytes(bytes.as_slice()) {
                Some(h) => Some(RPDB { header: Some(h), body }),
                None => None,
            },
            None => Some(RPDB { header: None, body }),
        }
    }
}

/// A timestamp that was written is read back unchanged.
pub proof fn lemma_timestamp_roundtrip(t: Timestamp)
    ensures
        parse_timestamp(encode_timestamp(t)) == Some(t),
{
    let f2 = uint_field(FIELD_2_VARINT, int64_bits(t.nanos as i64));
    let empty = Seq::<u8>::empty();
    assert(f2 + empty =~= f2);
    lemma_uint_field_roundtrip(FIELD_2_VARINT, int64_bits(t.nanos as i64), empty);
    lemma_uint_field_starts(FIELD_2_VARINT, int64_bits(t.nanos as i64), empty, FIELD_1_VARINT);
    lemma_uint_field_roundtrip(FIELD_1_VARINT, int64_bits(t.seconds), f2);
}

/// The bytes that are read as a timestamp are the encoding of that timestamp.
pub proof fn lemma_timestamp_canonical(b: Seq<u8>)
    ensures
        parse_timestamp(b) matches Some(t) ==> encode_timestamp(t) == b,
{
    if let Some(t) = parse_timestamp(b) {
        lemma_uint_field_canonical(FIELD_1_VARINT, b);
        let (seconds, b1) = parse_uint_field(FIELD_1_VARINT, b)->0;
        lemma_uint_field_canonical(FIELD_2_VARINT, b1);
        let (nanos, b2) = parse_uint_field(FIELD_2_VARINT, b1)->0;
        assert(b2 =~= Seq::<u8>::empty());
        assert(b =~= encode_timestamp(t));
    }
}

/// The encoding of a timestamp is short.
pub proof fn lemma_timestamp_short(t: Timestamp)
    ensures
        encode_timestamp(t).len() <= 22,
{
    lemma_varint_short(int64_bits(t.seconds) as nat);
    lemma_varint_short(int64_bits(t.nanos as i64) as nat);
}

/// A header that was written is read back unchanged.
#[verifier::rlimit(50)]
pub proof fn lemma_header_roundtrip(h: HeaderView)
    requires
        h.fits(),
    ensures
        parse_header(encode_header(h)) == Some(h),
{
    let empty = Seq::<u8>::empty();
    let f1 = uint_field(FIELD_1_VARINT, h.signature as u64);
    let f2 = uint_field(FIELD_2_VARINT, h.version as u64);
    let f3 = bytes_field(FIELD_3_BYTES, h.master_salt);
    let f4 = bytes_field(FIELD_4_BYTES, h.master_nonce);
    let f5 = bytes_field(FIELD_5_BYTES, h.argon_salt);
    let r4 = f5 + empty;
    let r3 = f4 + r4;
    let r2 = f3 + r3;
    let r1 = f2 + r2;
    assert(encode_header(h) =~= f1 + r1);
    lemma_bytes_field_starts(FIELD_5_BYTES, h.argon_salt, empty, FIELD_4_BYTES);
    lemma_bytes_field_starts(FIELD_4_BYTES, h.master_nonce, r4, FIELD_3_BYTES);
    lemma_bytes_field_starts(FIELD_3_BYTES, h.master_salt, r3, FIELD_2_VARINT);
    lemma_uint_field_starts(FIELD_2_VARINT, h.version as u64, r2, FIELD_1_VARINT);
    lemma_uint_field_roundtrip(FIELD_1_VARINT, h.signature as u64, r1);
    lemma_uint_field_roundtrip(FIELD_2_VARINT, h.version as u64, r2);
    lemma_bytes_field_roundtrip(FIELD_3_BYTES, h.master_salt, r3);
    lemma_bytes_field_roundtrip(FIELD_4_BYTES, h.master_nonce, r4);
    lemma_bytes_field_roundtrip(FIELD_5_BYTES, h.argon_salt, empty);
}

/// The bytes that are read as a header are the encoding of that header.
#[verifier::rlimit(50)]
pub proof fn lemma_header_canonical(b: Seq<u8>)
    ensures
        parse_header(b) matches Some(h) ==> encode_header(h) == b,
{
    if let Some(h) = parse_header(b) {
        lemma_uint_field_canonical(FIELD_1_VARINT, b);
        let (signature, b1) = parse_uint_field(FIELD_1_VARINT, b)->0;
        lemma_uint_field_canonical(FIELD_2_VARINT, b1);
        let (version, b2) = parse_uint_field(FIELD_2_VARINT, b1)->0;
        lemma_bytes_field_canonical(FIELD_3_BYTES, b2);
        let (master_salt, b3) = parse_bytes_field(FIELD_3_BYTES, b2)->0;
        lemma_bytes_field_canonical(FIELD_4_BYTES, b3);
        let (master_nonce, b4) = parse_bytes_field(FIELD_4_BYTES, b3)->0;
        lemma_bytes_field_canonical(FIELD_5_BYTES, b4);
        let (argon_salt, b5) = parse_bytes_field(FIELD_5_BYTES, b4)->0;
        let f1 = uint_field(FIELD_1_VARINT, signature);
        let f2 = uint_field(FIELD_2_VARINT, version);
        let f3 = bytes_field(FIELD_3_BYTES, master_salt);
        let f4 = bytes_field(FIELD_4_BYTES, master_nonce);
        let f5 = bytes_field(FIELD_5_BYTES, argon_salt);
        lemma_concat_empty(f5, b5);
        lemma_concat_assoc(f1, f2, f3 + (f4 + f5));
        lemma_concat_assoc(f1 + f2, f3, f4 + f5);
        lemma_concat_assoc(f1 + f2 + f3, f4, f5);
    }
}

/// A record that was written is read back unchanged.
pub proof fn lemma_record_roundtrip(r: RecordView)
    requires
        r.fits(),
    ensures
        parse_record(encode_record(r)) == Some(r),
{
    broadcast use {encode_utf8_valid_utf8, encode_utf8_decode_utf8};

    let empty = Seq::<u8>::empty();
    let name = encode_utf8(r.name);
    let f1 = bytes_field(FIELD_1_BYTES, name);
    let f2 = bytes_field(FIELD_2_BYTES, r.nonce);
    let f3 = bytes_field(FIELD_3_BYTES, r.data);
    let r2 = f3 + empty;
    let r1 = f2 + r2;
    assert(encode_record(r) =~= f1 + r1);
    lemma_bytes_field_starts(FIELD_3_BYTES, r.data, empty, FIELD_2_BYTES);
    lemma_bytes_field_starts(FIELD_2_BYTES, r.nonce, r2, FIELD_1_BYTES);
    lemma_bytes_field_roundtrip(FIELD_1_BYTES, name, r1);
    lemma_bytes_field_roundtrip(FIELD_2_BYTES, r.nonce, r2);
    lemma_bytes_field_roundtrip(FIELD_3_BYTES, r.data, empty);
}

/// The bytes that are read as a record are the encoding of that record.
pub proof fn lemma_record_canonical(b: Seq<u8>)
    ensures
        parse_record(b) matches Some(r) ==> encode_record(r) == b && r.fits(),
{
    broadcast use decode_utf8_encode_utf8;

    if let Some(r) = parse_record(b) {
        lemma_bytes_field_canonical(FIELD_1_BYTES, b);
        let (name, b1) = parse_bytes_field(FIELD_1_BYTES, b)->0;
        lemma_bytes_field_canonical(FIELD_2_BYTES, b1);
        let (nonce, b2) = parse_bytes_field(FIELD_2_BYTES, b1)->0;
        lemma_bytes_field_canonical(FIELD_3_BYTES, b2);
        let (data, b3) = parse_bytes_field(FIELD_3_BYTES, b2)->0;
        let f1 = bytes_field(FIELD_1_BYTES, name);
        let f2 = bytes_field(FIELD_2_BYTES, nonce);
        let f3 = bytes_field(FIELD_3_BYTES, data);
        lemma_concat_empty(f3, b3);
        lemma_concat_assoc(f1, f2, f3);
        lemma_field_inside(FIELD_3_BYTES, data, b2);
        lemma_field_inside(FIELD_2_BYTES, nonce, b1);
        lemma_field_inside(FIELD_1_BYTES, name, b);
    }
}

/// A bytes field is at least as long as its payload, so a payload read from
/// a byte string is no longer than that string.
proof fn lemma_field_inside(tag: u8, p: Seq<u8>, b: Seq<u8>)
    requires
        parse_bytes_field(tag, b) matches Some((q, rest)) && q == p,
    ensures
        p.len() <= b.len(),
{
}

/// Records that were written one by one are read back unchanged.
pub proof fn lemma_records_roundtrip(records: Seq<RecordView>)
    requires
        forall|i: int| 0 <= i < records.len() ==> (#[trigger] records[i]).fits(),
    ensures
        parse_records(encode_records(records)) == Some(records),
{
    let items = encode_records(records);
    assert forall|i: int| 0 <= i < items.len() implies parse_record(#[trigger] items[i]) == Some(
        records[i],
    ) by {
        lemma_record_roundtrip(records[i]);
    }
    assert(parse_records(items)->0 =~= records);
}

/// Byte strings that are read as records are the encodings of those records.
pub proof fn lemma_records_canonical(items: Seq<Seq<u8>>)
    ensures
        parse_records(items) matches Some(records) ==> encode_records(records) == items,
{
    if let Some(records) = parse_records(items) {
        assert forall|i: int| 0 <= i < items.len() implies encode_record(records[i])
            == #[trigger] items[i] by {
            lemma_record_canonical(items[i]);
        }
        assert(encode_records(records) =~= items);
    }
}

/// A directory that was written is read back unchanged.
pub proof fn lemma_directory_roundtrip(d: DirectoryView)
    requires
        d.fits(),
    ensures
        parse_directory(encode_directory(d)) == Some(d),
{
    broadcast use {encode_utf8_valid_utf8, encode_utf8_decode_utf8};

    let empty = Seq::<u8>::empty();
    let name = encode_utf8(d.name);
    let items = encode_records(d.records);
    let f1 = bytes_field(FIELD_1_BYTES, name);
    let r1 = repeated_field(FIELD_2_BYTES, items) + empty;
    assert(encode_directory(d) =~= f1 + r1);
    lemma_repeated_field_starts(FIELD_2_BYTES, items, empty, FIELD_1_BYTES);
    lemma_bytes_field_roundtrip(FIELD_1_BYTES, name, r1);
    lemma_repeated_field_roundtrip(FIELD_2_BYTES, items, empty);
    lemma_records_roundtrip(d.records);
}

/// The bytes that are read as a directory are the encoding of that directory.
pub proof fn lemma_directory_canonical(b: Seq<u8>)
    ensures
        parse_directory(b) matches Some(d) ==> encode_directory(d) == b,
{
    broadcast use decode_utf8_encode_utf8;

    if let Some(d) = parse_directory(b) {
        lemma_bytes_field_canonical(FIELD_1_BYTES, b);
        let (name, b1) = parse_bytes_field(FIELD_1_BYTES, b)->0;
        lemma_repeated_field_canonical(FIELD_2_BYTES, b1);
        let (items, b2) = parse_repeated_field(FIELD_2_BYTES, b1)->0;
        lemma_records_canonical(items);
        assert(b1 =~= repeated_field(FIELD_2_BYTES, items));
        assert(b =~= encode_directory(d));
    }
}

/// Directories that were written one by one are read back unchanged.
pub proof fn lemma_directories_roundtrip(directories: Seq<DirectoryView>)
    requires
        forall|i: int| 0 <= i < directories.len() ==> (#[trigger] directories[i]).fits(),
    ensures
        parse_directories(encode_directories(directories)) == Some(directories),
{
    let items = encode_directories(directories);
    assert forall|i: int| 0 <= i < items.len() implies parse_directory(#[trigger] items[i])
        == Some(directories[i]) by {
        lemma_directory_roundtrip(directories[i]);
    }
    assert(parse_directories(items)->0 =~= directories);
}

/// Byte strings that are read as directories are the encodings of those
/// directories.
pub proof fn lemma_directories_canonical(items: Seq<Seq<u8>>)
    ensures
        parse_directories(items) matches Some(directories) ==> encode_directories(directories)
            == items,
{
    if let Some(directories) = parse_directories(items) {
        assert forall|i: int| 0 <= i < items.len() implies encode_directory(directories[i])
            == #[trigger] items[i] by {
            lemma_directory_canonical(items[i]);
        }
        assert(encode_directories(directories) =~= items);
    }
}

/// A body that was written is read back unchanged.
#[verifier::rlimit(50)]
pub proof fn lemma_body_roundtrip(body: BodyView)
    requires
        body.fits(),
    ensures
        parse_body(encode_body(body)) == Some(body),
{
    let empty = Seq::<u8>::empty();
    let created = encode_optional_timestamp(body.created_at);
    let modified = encode_optional_timestamp(body.last_modified);
    let items = encode_directories(body.directories);
    let f1 = bytes_field(FIELD_1_BYTES, body.salt);
    let f2 = message_field(FIELD_2_BYTES, created);
    let f3 = message_field(FIELD_3_BYTES, modified);
    let r3 = repeated_field(FIELD_4_BYTES, items) + empty;
    let r2 = f3 + r3;
    let r1 = f2 + r2;
    assert(encode_body(body) =~= f1 + r1);
    lemma_repeated_field_starts(FIELD_4_BYTES, items, empty, FIELD_3_BYTES);
    lemma_message_field_starts(FIELD_3_BYTES, modified, r3, FIELD_2_BYTES);
    lemma_message_field_starts(FIELD_2_BYTES, created, r2, FIELD_1_BYTES);
    if let Some(t) = body.created_at {
        lemma_timestamp_roundtrip(t);
        lemma_timestamp_short(t);
    }
    if let Some(t) = body.last_modified {
        lemma_timestamp_roundtrip(t);
        lemma_timestamp_short(t);
    }
    lemma_bytes_field_roundtrip(FIELD_1_BYTES, body.salt, r1);
    lemma_message_field_roundtrip(FIELD_2_BYTES, created, r2);
    lemma_message_field_roundtrip(FIELD_3_BYTES, modified, r3);
    lemma_repeated_field_roundtrip(FIELD_4_BYTES, items, empty);
    lemma_directories_roundtrip(body.directories);
}

/// The bytes that are read as a body are the encoding of that body.
#[verifier::rlimit(50)]
pub proof fn lemma_body_canonical(b: Seq<u8>)
    ensures
        parse_body(b) matches Some(body) ==> encode_body(body) == b,
{
    if let Some(body) = parse_body(b) {
        let (salt, b1) = parse_bytes_field(FIELD_1_BYTES, b)->0;
        let (created, b2) = parse_message_field(FIELD_2_BYTES, b1)->0;
        let (modified, b3) = parse_message_field(FIELD_3_BYTES, b2)->0;
        let (items, b4) = parse_repeated_field(FIELD_4_BYTES, b3)->0;
        let f1 = bytes_field(FIELD_1_BYTES, salt);
        let f2 = message_field(FIELD_2_BYTES, created);
        let f3 = message_field(FIELD_3_BYTES, modified);
        let f4 = repeated_field(FIELD_4_BYTES, items);
        assert(b == f1 + b1) by {
            lemma_bytes_field_canonical(FIELD_1_BYTES, b);
        }
        assert(b1 == f2 + b2) by {
            lemma_message_field_canonical(FIELD_2_BYTES, b1);
        }
        assert(b2 == f3 + b3) by {
            lemma_message_field_canonical(FIELD_3_BYTES, b2);
        }
        assert(b3 == f4 + b4) by {
            lemma_repeated_field_canonical(FIELD_4_BYTES, b3);
        }
        assert(b4 =~= Seq::<u8>::empty());
        assert(encode_optional_timestamp(body.created_at) == created) by {
            if let Some(bytes) = created {
                lemma_timestamp_canonical(bytes);
            }
        }
        assert(encode_optional_timestamp(body.last_modified) == modified) by {
            if let Some(bytes) = modified {
                lemma_timestamp_canonical(bytes);
            }
        }
        assert(encode_directories(body.directories) == items) by {
            lemma_directories_canonical(items);
        }
        lemma_concat_empty(f4, b4);
        lemma_concat_assoc(f1, f2, f3 + f4);
        lemma_concat_assoc(f1 + f2, f3, f4);
    }
}

/// What can be written fits: where the encoding of a directory is of a length
/// that 64 bits hold, so is every length inside the directory.
pub proof fn lemma_directory_fits(d: DirectoryView)
    requires
        encode_directory(d).len() <= u64::MAX,
    ensures
        d.fits(),
{
    let items = encode_records(d.records);
    assert forall|i: int| 0 <= i < d.records.len() implies (#[trigger] d.records[i]).fits()
        && encode_record(d.records[i]).len() <= u64::MAX by {
        lemma_repeated_field_holds(FIELD_2_BYTES, items, i);
        assert(items[i] == encode_record(d.records[i]));
    }
}

/// What can be written fits: where the encoding of a body is of a length
/// that 64 bits hold, so is every length inside the body.
pub proof fn lemma_body_fits(b: BodyView)
    requires
        encode_body(b).len() <= u64::MAX,
    ensures
        b.fits(),
{
    let items = encode_directories(b.directories);
    assert forall|i: int| 0 <= i < b.directories.len() implies (#[trigger] b.directories[i]).fits()
        && encode_directory(b.directories[i]).len() <= u64::MAX by {
        lemma_repeated_field_holds(FIELD_4_BYTES, items, i);
        assert(items[i] == encode_directory(b.directories[i]));
        lemma_directory_fits(b.directories[i]);
    }
}

/// An envelope that was written is read back unchanged.
pub proof fn lemma_envelope_roundtrip(e: EnvelopeView)
    requires
        e.fits(),
    ensures
        parse_envelope(encode_envelope(e)) == Some(e),
{
    let empty = Seq::<u8>::empty();
    let header = encode_optional_header(e.header);
    let f1 = message_field(FIELD_1_BYTES, header);
    let r1 = bytes_field(FIELD_2_BYTES, e.body) + empty;
    assert(encode_envelope(e) =~= f1 + r1);
    lemma_bytes_field_starts(FIELD_2_BYTES, e.body, empty, FIELD_1_BYTES);
    if let Some(h) = e.header {
        lemma_header_roundtrip(h);
    }
    lemma_message_field_roundtrip(FIELD_1_BYTES, header, r1);
    lemma_bytes_field_roundtrip(FIELD_2_BYTES, e.body, empty);
}

/// The bytes that are read as an envelope are the encoding of that envelope.
pub proof fn lemma_envelope_canonical(b: Seq<u8>)
    ensures
        parse_envelope(b) matches Some(e) ==> encode_envelope(e) == b,
{
    if let Some(e) = parse_envelope(b) {
        lemma_message_field_canonical(FIELD_1_BYTES, b);
        let (header, b1) = parse_message_field(FIELD_1_BYTES, b)->0;
        lemma_bytes_field_canonical(FIELD_2_BYTES, b1);
        let (body, b2) = parse_bytes_field(FIELD_2_BYTES, b1)->0;
        if let Some(bytes) = header {
            lemma_header_canonical(bytes);
        }
        assert(b1 =~= bytes_field(FIELD_2_BYTES, body));
        assert(b =~= encode_envelope(e));
    }
}

} // verus!

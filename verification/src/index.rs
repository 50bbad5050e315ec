//! The on-disk layout of the cache index: a fixed 16-byte header followed by
//! a packed array of fixed 41-byte records, each holding a 20-byte content
//! hash and its bookkeeping fields. Decoding stops cleanly once fewer bytes
//! than one full record remain; there is no stored record count, no
//! separator and no checksum.

use vstd::prelude::*;
use vstd::string::{StrSliceExecFns, StringExecFns};

use crate::error::{MzError, MzResult};
use crate::reader::{
    read_u16_be, read_u32_be, read_u64_be, read_u8, spec_u16_be, spec_u32_be, spec_u64_be,
};

verus! {

/// Bytes of one encoded header.
pub const HEADER_SIZE: usize = 16;

/// Bytes of one encoded record: 20 hash bytes packed back-to-back with its
/// integer fields, no alignment gaps.
pub const RECORD_SIZE: usize = 41;

/// Bytes of one content hash.
pub const HASH_SIZE: usize = 20;

/// Characters of the hexadecimal text form of a hash: two per byte.
pub const HASH_HEX_LEN: usize = 40;

/// The index file header: format version, last write time as a POSIX
/// timestamp (UTC), a dirty flag, and the kilobytes written since the last
/// rebuild. All four fields are 32-bit unsigned, stored in the declared
/// on-disk byte order.
#[derive(Debug, Clone, Copy, PartialEq, Eq, Structural)]
pub struct Header {
    pub version: u32,
    pub last_modification: u32,
    pub is_dirty: u32,
    pub kb_written: u32,
}

/// The header encoded at offset `pos` of `s`.
pub open spec fn spec_header(s: Seq<u8>, pos: int) -> Header
    recommends
        0 <= pos,
        pos + HEADER_SIZE <= s.len(),
{
    Header {
        version: spec_u32_be(s, pos),
        last_modification: spec_u32_be(s, pos + 4),
        is_dirty: spec_u32_be(s, pos + 8),
        kb_written: spec_u32_be(s, pos + 12),
    }
}

/// Decodes one header at offset `pos`, consuming exactly `HEADER_SIZE`
/// bytes. Returns `None`, reading nothing, when fewer bytes remain.
pub fn read_header(b: &[u8], pos: usize) -> (r: Option<Header>)
    ensures
        pos + HEADER_SIZE <= b@.len() ==> r == Some(spec_header(b@, pos as int)),
        pos + HEADER_SIZE > b@.len() ==> r is None,
{
    if b.len() < HEADER_SIZE || pos > b.len() - HEADER_SIZE {
        return None;
    }
    Some(
        Header {
            version: read_u32_be(b, pos),
            last_modification: read_u32_be(b, pos + 4),
            is_dirty: read_u32_be(b, pos + 8),
            kb_written: read_u32_be(b, pos + 12),
        },
    )
}

/// A 20-byte content hash: the key that joins an index record to the entry
/// file named by the hash's hexadecimal form. Equality is byte-wise.
#[derive(Debug, Clone, Copy)]
pub struct Hash(pub [u8; HASH_SIZE]);

impl View for Hash {
    type V = Seq<u8>;

    open spec fn view(&self) -> Seq<u8> {
        self.0@
    }
}

impl PartialEq for Hash {
    fn eq(&self, other: &Hash) -> (r: bool) {
        let mut i: usize = 0;
        while i < HASH_SIZE
            invariant
                i <= HASH_SIZE,
                forall|j: int| 0 <= j < i ==> self.0@[j] == other.0@[j],
            decreases HASH_SIZE - i,
        {
            if self.0[i] != other.0[i] {
                return false;
            }
            i += 1;
        }
        proof {
            assert(self@ =~= other@);
        }
        true
    }
}

impl Eq for Hash {

}

impl vstd::std_specs::cmp::PartialEqSpecImpl for Hash {
    open spec fn obeys_eq_spec() -> bool {
        true
    }

    open spec fn eq_spec(&self, other: &Hash) -> bool {
        self@ == other@
    }
}

/// The value of one hexadecimal digit character; uppercase and lowercase
/// digits both count, anything else has none.
pub open spec fn spec_hex_val(c: char) -> Option<u8> {
    let v = c as u32;
    if '0' as u32 <= v && v <= '9' as u32 {
        Some((v - '0' as u32) as u8)
    } else if 'A' as u32 <= v && v <= 'F' as u32 {
        Some((v - 'A' as u32 + 10) as u8)
    } else if 'a' as u32 <= v && v <= 'f' as u32 {
        Some((v - 'a' as u32 + 10) as u8)
    } else {
        None
    }
}

/// The canonical (uppercase) hexadecimal digit character of a value below 16.
pub open spec fn spec_hex_digit(n: u8) -> char
    recommends
        n < 16,
{
    if n == 0 {
        '0'
    } else if n == 1 {
        '1'
    } else if n == 2 {
        '2'
    } else if n == 3 {
        '3'
    } else if n == 4 {
        '4'
    } else if n == 5 {
        '5'
    } else if n == 6 {
        '6'
    } else if n == 7 {
        '7'
    } else if n == 8 {
        '8'
    } else if n == 9 {
        '9'
    } else if n == 10 {
        'A'
    } else if n == 11 {
        'B'
    } else if n == 12 {
        'C'
    } else if n == 13 {
        'D'
    } else if n == 14 {
        'E'
    } else {
        'F'
    }
}

/// The canonical hexadecimal text of a byte sequence: two digits per byte,
/// most significant nibble first, uppercase.
pub open spec fn spec_to_hex(b: Seq<u8>) -> Seq<char> {
    Seq::new(
        b.len() * 2,
        |i: int|
            if i % 2 == 0 {
                spec_hex_digit(b[i / 2] / 16)
            } else {
                spec_hex_digit(b[i / 2] % 16)
            },
    )
}

/// The hash bytes encoded by a 40-character hexadecimal text, or none when
/// the length is not exactly 40 or some character is not a hex digit.
pub open spec fn spec_from_hex(s: Seq<char>) -> Option<Seq<u8>> {
    if s.len() == HASH_HEX_LEN && (forall|i: int| 0 <= i < s.len() ==> spec_hex_val(s[i]) is Some) {
        Some(
            Seq::new(
                HASH_SIZE as nat,
                |i: int|
                    (spec_hex_val(s[2 * i]).unwrap() * 16 + spec_hex_val(
                        s[2 * i + 1],
                    ).unwrap()) as u8,
            ),
        )
    } else {
        None
    }
}

/// The numeric value of one hexadecimal digit character, uppercase or
/// lowercase; `None` for any other character.
pub fn hex_char_to_number(c: char) -> (r: Option<u8>)
    ensures
        r == spec_hex_val(c),
        r matches Some(v) ==> v < 16,
{
    let v = c as u32;
    if '0' as u32 <= v && v <= '9' as u32 {
        Some((v - '0' as u32) as u8)
    } else if 'A' as u32 <= v && v <= 'F' as u32 {
        Some((v - 'A' as u32 + 10) as u8)
    } else if 'a' as u32 <= v && v <= 'f' as u32 {
        Some((v - 'a' as u32 + 10) as u8)
    } else {
        None
    }
}

/// The canonical digit character of a value below 16, as a one-character
/// text slice.
fn hex_digit_str(n: u8) -> (r: &'static str)
    requires
        n < 16,
    ensures
        r@.len() == 1,
        r@[0] == spec_hex_digit(n),
{
    proof {
        reveal_strlit("0");
        reveal_strlit("1");
        reveal_strlit("2");
        reveal_strlit("3");
        reveal_strlit("4");
        reveal_strlit("5");
        reveal_strlit("6");
        reveal_strlit("7");
        reveal_strlit("8");
        reveal_strlit("9");
        reveal_strlit("A");
        reveal_strlit("B");
        reveal_strlit("C");
        reveal_strlit("D");
        reveal_strlit("E");
        reveal_strlit("F");
    }
    if n == 0 {
        "0"
    } else if n == 1 {
        "1"
    } else if n == 2 {
        "2"
    } else if n == 3 {
        "3"
    } else if n == 4 {
        "4"
    } else if n == 5 {
        "5"
    } else if n == 6 {
        "6"
    } else if n == 7 {
        "7"
    } else if n == 8 {
        "8"
    } else if n == 9 {
        "9"
    } else if n == 10 {
        "A"
    } else if n == 11 {
        "B"
    } else if n == 12 {
        "C"
    } else if n == 13 {
        "D"
    } else if n == 14 {
        "E"
    } else {
        "F"
    }
}

impl Hash {
    /// Wraps 20 raw hash bytes.
    pub fn from_bytes(b: [u8; HASH_SIZE]) -> (r: Hash)
        ensures
            r@ == b@,
    {
        Hash(b)
    }

    /// The raw hash bytes.
    pub fn bytes(&self) -> (r: &[u8; HASH_SIZE])
        ensures
            r@ == self@,
    {
        &self.0
    }

    /// Decodes a 40-character hexadecimal text (uppercase or lowercase) into
    /// a hash; fails on any other length and on any non-hex character.
    pub fn from_hex(s: &str) -> (r: Option<Hash>)
        ensures
            r matches Some(h) ==> spec_from_hex(s@) == Some(h@),
            r is None ==> spec_from_hex(s@) is None,
    {
        let n = s.unicode_len();
        if n != HASH_HEX_LEN {
            return None;
        }
        let mut buf: [u8; HASH_SIZE] = [0u8; HASH_SIZE];
        let mut i: usize = 0;
        while i < HASH_SIZE
            invariant
                i <= HASH_SIZE,
                s@.len() == HASH_HEX_LEN,
                forall|j: int| 0 <= j < 2 * i ==> spec_hex_val(s@[j]) is Some,
                forall|j: int|
                    0 <= j < i ==> buf@[j] == (spec_hex_val(s@[2 * j]).unwrap() * 16 + spec_hex_val(
                        s@[2 * j + 1],
                    ).unwrap()) as u8,
            decreases HASH_SIZE - i,
        {
            let hi = match hex_char_to_number(s.get_char(2 * i)) {
                Some(v) => v,
                None => {
                    return None;
                },
            };
            let lo = match hex_char_to_number(s.get_char(2 * i + 1)) {
                Some(v) => v,
                None => {
                    return None;
                },
            };
            buf[i] = hi * 16 + lo;
            i += 1;
        }
        proof {
            assert(spec_from_hex(s@) matches Some(b) && b =~= buf@);
        }
        Some(Hash(buf))
    }

    /// Decodes the hash stored at offset `pos`: the 20 bytes are taken as
    /// they lie, since a hash carries no byte order.
    pub fn read_at(b: &[u8], pos: usize) -> (r: Hash)
        requires
            pos + HASH_SIZE <= b@.len(),
        ensures
            r@ == b@.subrange(pos as int, pos + HASH_SIZE),
    {
        proof {
            broadcast use vstd::slice::axiom_spec_len;

            assert(vstd::slice::spec_slice_len(b) == b@.len());
        }
        let mut buf: [u8; HASH_SIZE] = [0u8; HASH_SIZE];
        let mut j: usize = 0;
        while j < HASH_SIZE
            invariant
                j <= HASH_SIZE,
                pos + HASH_SIZE <= b@.len(),
                b@.len() <= usize::MAX,
                forall|k: int| 0 <= k < j ==> buf@[k] == b@[pos + k],
            decreases HASH_SIZE - j,
        {
            buf[j] = b[pos + j];
            j += 1;
        }
        proof {
            assert(buf@ =~= b@.subrange(pos as int, pos + HASH_SIZE));
        }
        Hash(buf)
    }

    /// Encodes the hash as its canonical 40-character uppercase hexadecimal
    /// text.
    pub fn to_hex(&self) -> (r: String)
        ensures
            r@ == spec_to_hex(self@),
            r@.len() == HASH_HEX_LEN,
    {
        let mut s = String::new();
        let mut i: usize = 0;
        while i < HASH_SIZE
            invariant
                i <= HASH_SIZE,
                s@.len() == 2 * i,
                forall|j: int| 0 <= j < 2 * i ==> s@[j] == spec_to_hex(self@)[j],
            decreases HASH_SIZE - i,
        {
            let byte = self.0[i];
            s.append(hex_digit_str(byte / 16));
            s.append(hex_digit_str(byte % 16));
            i += 1;
        }
        proof {
            assert(s@ =~= spec_to_hex(self@));
        }
        s
    }
}

/// One canonical digit character decodes back to its value.
proof fn lemma_hex_digit_roundtrip(n: u8)
    requires
        n < 16,
    ensures
        spec_hex_val(spec_hex_digit(n)) == Some(n),
{
}

/// Whether `c` is a canonical hexadecimal digit character: a decimal digit
/// or an uppercase letter `A` through `F`.
pub open spec fn is_canonical_hex_digit(c: char) -> bool {
    ('0' as u32 <= c as u32 && c as u32 <= '9' as u32) || ('A' as u32 <= c as u32 && c as u32
        <= 'F' as u32)
}

/// A canonical digit character is re-encoded from its value unchanged.
proof fn lemma_hex_val_roundtrip(c: char)
    requires
        is_canonical_hex_digit(c),
    ensures
        spec_hex_val(c) is Some,
        spec_hex_digit(spec_hex_val(c).unwrap()) == c,
{
}

/// Law: decoding the canonical hexadecimal text of any 20-byte sequence
/// gives back exactly those bytes.
pub proof fn lemma_from_hex_to_hex(b: Seq<u8>)
    requires
        b.len() == HASH_SIZE,
    ensures
        spec_from_hex(spec_to_hex(b)) == Some(b),
{
    let s = spec_to_hex(b);
    assert forall|i: int| 0 <= i < s.len() implies spec_hex_val(s[i]) is Some by {
        if i % 2 == 0 {
            lemma_hex_digit_roundtrip(b[i / 2] / 16);
        } else {
            lemma_hex_digit_roundtrip(b[i / 2] % 16);
        }
    }
    let d = spec_from_hex(s).unwrap();
    assert forall|i: int| 0 <= i < HASH_SIZE implies d[i] == b[i] by {
        lemma_hex_digit_roundtrip(b[i] / 16);
        lemma_hex_digit_roundtrip(b[i] % 16);
        assert(s[2 * i] == spec_hex_digit(b[i] / 16));
        assert(s[2 * i + 1] == spec_hex_digit(b[i] % 16));
        assert((b[i] / 16) * 16 + b[i] % 16 == b[i]);
    }
    assert(d =~= b);
}

/// Law: encoding the bytes decoded from any canonical (uppercase)
/// 40-character hexadecimal text gives back exactly that text.
pub proof fn lemma_to_hex_from_hex(s: Seq<char>)
    requires
        s.len() == HASH_HEX_LEN,
        forall|i: int| 0 <= i < s.len() ==> is_canonical_hex_digit(s[i]),
    ensures
        spec_from_hex(s) is Some,
        spec_to_hex(spec_from_hex(s).unwrap()) == s,
{
    assert forall|i: int| 0 <= i < s.len() implies spec_hex_val(s[i]) is Some by {
        lemma_hex_val_roundtrip(s[i]);
    }
    let b = spec_from_hex(s).unwrap();
    let t = spec_to_hex(b);
    assert forall|i: int| 0 <= i < t.len() implies t[i] == s[i] by {
        let hi = spec_hex_val(s[2 * (i / 2)]).unwrap();
        let lo = spec_hex_val(s[2 * (i / 2) + 1]).unwrap();
        lemma_hex_val_roundtrip(s[2 * (i / 2)]);
        lemma_hex_val_roundtrip(s[2 * (i / 2) + 1]);
        assert(hi < 16 && lo < 16);
        assert(b[i / 2] == (hi * 16 + lo) as u8);
        assert((hi * 16 + lo) / 16 == hi);
        assert((hi * 16 + lo) % 16 == lo);
    }
    assert(t =~= s);
}

/// One index record: the content hash of an entry and the bookkeeping the
/// cache keeps about it. `flags` is a bitfield: bit 31 initialized, bit 30
/// anonymous, bit 29 removed, bit 28 dirty, bit 27 fresh, bit 26 pinned,
/// bit 25 has cached alternate data, bit 24 reserved, bits 23..0 the file
/// size in kilobytes.
#[derive(Debug, Clone, Copy)]
pub struct Record {
    pub hash: Hash,
    pub frecency: u32,
    pub origin_attr_hash: u64,
    pub on_start_time: u16,
    pub on_stop_time: u16,
    pub content_type: u8,
    pub flags: u32,
}

/// Whether `r` is exactly the record encoded at offset `pos` of `s`: the 20
/// hash bytes raw, then frecency, origin attribute hash, the two time
/// offsets, the content type byte and the flags word, packed back-to-back in
/// the declared byte order.
pub open spec fn record_matches(r: Record, s: Seq<u8>, pos: int) -> bool
    recommends
        0 <= pos,
        pos + RECORD_SIZE <= s.len(),
{
    &&& r.hash@ == s.subrange(pos, pos + HASH_SIZE)
    &&& r.frecency == spec_u32_be(s, pos + 20)
    &&& r.origin_attr_hash == spec_u64_be(s, pos + 24)
    &&& r.on_start_time == spec_u16_be(s, pos + 32)
    &&& r.on_stop_time == spec_u16_be(s, pos + 34)
    &&& r.content_type == s[pos + 36]
    &&& r.flags == spec_u32_be(s, pos + 37)
}

/// Whether bit `bit` (bit 31 most significant) of a flags word is set.
pub open spec fn spec_flag_bit(flags: u32, bit: u32) -> bool
    recommends
        bit < 32,
{
    (flags >> bit) & 1 == 1
}

/// The file size in kilobytes recorded in the low 24 bits of a flags word.
pub open spec fn spec_file_size_kb(flags: u32) -> u32 {
    flags & 0x00FF_FFFF
}

impl Record {
    /// Decodes the record stored at offset `pos`, consuming exactly
    /// `RECORD_SIZE` bytes.
    pub fn read_at(b: &[u8], pos: usize) -> (r: Record)
        requires
            pos + RECORD_SIZE <= b@.len(),
        ensures
            record_matches(r, b@, pos as int),
    {
        proof {
            broadcast use vstd::slice::axiom_spec_len;

            assert(vstd::slice::spec_slice_len(b) == b@.len());
        }
        Record {
            hash: Hash::read_at(b, pos),
            frecency: read_u32_be(b, pos + 20),
            origin_attr_hash: read_u64_be(b, pos + 24),
            on_start_time: read_u16_be(b, pos + 32),
            on_stop_time: read_u16_be(b, pos + 34),
            content_type: read_u8(b, pos + 36),
            flags: read_u32_be(b, pos + 37),
        }
    }

    /// Decodes one record at offset `pos`. Returns `None`, reading nothing,
    /// when fewer than `RECORD_SIZE` bytes remain: the record array's end is
    /// found by this short read, not by a stored count.
    pub fn read(b: &[u8], pos: usize) -> (r: Option<Record>)
        ensures
            pos + RECORD_SIZE <= b@.len() ==> (r matches Some(rec) && record_matches(
                rec,
                b@,
                pos as int,
            )),
            pos + RECORD_SIZE > b@.len() ==> r is None,
    {
        if b.len() < RECORD_SIZE || pos > b.len() - RECORD_SIZE {
            return None;
        }
        Some(Record::read_at(b, pos))
    }

    /// A record is internally consistent when its start offset does not
    /// exceed its stop offset. Decoding does not enforce this: it is a
    /// diagnostic property.
    pub open spec fn spec_well_formed(&self) -> bool {
        self.on_start_time <= self.on_stop_time
    }

    /// Checks `spec_well_formed` on this record.
    pub fn well_formed(&self) -> (r: bool)
        ensures
            r == self.spec_well_formed(),
    {
        self.on_start_time <= self.on_stop_time
    }

    /// Whether the record was fully initialized (flags bit 31).
    pub fn initialized(&self) -> (r: bool)
        ensures
            r == spec_flag_bit(self.flags, 31),
    {
        (self.flags >> 31u32) & 1 == 1
    }

    /// Whether the entry was stored for an anonymous load (flags bit 30).
    pub fn anonymous(&self) -> (r: bool)
        ensures
            r == spec_flag_bit(self.flags, 30),
    {
        (self.flags >> 30u32) & 1 == 1
    }

    /// Whether the entry was removed (flags bit 29).
    pub fn removed(&self) -> (r: bool)
        ensures
            r == spec_flag_bit(self.flags, 29),
    {
        (self.flags >> 29u32) & 1 == 1
    }

    /// Whether the record has unwritten changes (flags bit 28).
    pub fn dirty(&self) -> (r: bool)
        ensures
            r == spec_flag_bit(self.flags, 28),
    {
        (self.flags >> 28u32) & 1 == 1
    }

    /// Whether the entry is fresh (flags bit 27).
    pub fn fresh(&self) -> (r: bool)
        ensures
            r == spec_flag_bit(self.flags, 27),
    {
        (self.flags >> 27u32) & 1 == 1
    }

    /// Whether the entry is pinned (flags bit 26).
    pub fn pinned(&self) -> (r: bool)
        ensures
            r == spec_flag_bit(self.flags, 26),
    {
        (self.flags >> 26u32) & 1 == 1
    }

    /// Whether the entry has cached alternate data (flags bit 25).
    pub fn has_alt_data(&self) -> (r: bool)
        ensures
            r == spec_flag_bit(self.flags, 25),
    {
        (self.flags >> 25u32) & 1 == 1
    }

    /// The file size in kilobytes from the low 24 bits of the flags word.
    pub fn file_size_kb(&self) -> (r: u32)
        ensures
            r == spec_file_size_kb(self.flags),
            r < 0x0100_0000,
    {
        proof {
            let f = self.flags;
            assert(f & 0x00FF_FFFF < 0x0100_0000) by (bit_vector);
        }
        self.flags & 0x00FF_FFFF
    }
}

/// The decoded index: one header and the records in on-disk order. No sort
/// by hash or frecency is implied, and records are never validated or
/// mutated after the parse.
#[derive(Debug)]
pub struct IndexFile {
    pub header: Header,
    pub records: Vec<Record>,
}

impl IndexFile {
    /// Checks that every record is internally consistent
    /// (`Record::spec_well_formed`): a diagnostic over a decoded index, not
    /// a decode-time invariant.
    pub fn records_well_formed(&self) -> (r: bool)
        ensures
            r == (forall|i: int|
                0 <= i < self.records@.len() ==> self.records@[i].spec_well_formed()),
    {
        let mut i: usize = 0;
        while i < self.records.len()
            invariant
                i <= self.records@.len(),
                forall|j: int| 0 <= j < i ==> self.records@[j].spec_well_formed(),
            decreases self.records@.len() - i,
        {
            if !self.records[i].well_formed() {
                return false;
            }
            i += 1;
        }
        true
    }
}

/// Decodes an index buffer: one header, then records until fewer bytes than
/// one full record remain; a short tail is ignored, not an error. Fails with
/// `MissingHeader` when the buffer holds less than a full header, and never
/// fails otherwise.
pub fn read_index_file(b: &[u8]) -> (r: MzResult<IndexFile>)
    ensures
        b@.len() < HEADER_SIZE ==> r == Err::<IndexFile, MzError>(MzError::MissingHeader),
        b@.len() >= HEADER_SIZE ==> (r matches Ok(f) && {
            &&& f.header == spec_header(b@, 0)
            &&& HEADER_SIZE + RECORD_SIZE * f.records@.len() <= b@.len()
            &&& b@.len() < HEADER_SIZE + RECORD_SIZE * (f.records@.len() + 1)
            &&& f.records@.len() == (b@.len() - HEADER_SIZE) / (RECORD_SIZE as int)
            &&& forall|i: int|
                0 <= i < f.records@.len() ==> record_matches(
                    f.records@[i],
                    b@,
                    HEADER_SIZE + RECORD_SIZE * i,
                )
        }),
{
    let header = match read_header(b, 0) {
        Some(h) => h,
        None => {
            return Err(MzError::MissingHeader);
        },
    };
    let mut records: Vec<Record> = Vec::new();
    let mut pos: usize = HEADER_SIZE;
    while b.len() - pos >= RECORD_SIZE
        invariant
            HEADER_SIZE <= pos <= b@.len(),
            pos == HEADER_SIZE + RECORD_SIZE * records@.len(),
            forall|i: int|
                0 <= i < records@.len() ==> record_matches(
                    records@[i],
                    b@,
                    HEADER_SIZE + RECORD_SIZE * i,
                ),
        decreases b@.len() - pos,
    {
        let rec = Record::read_at(b, pos);
        records.push(rec);
        pos += RECORD_SIZE;
    }
    proof {
        lemma_record_count(records@.len() as int, b@.len() as int);
    }
    Ok(IndexFile { header, records })
}

/// Law: a buffer of one header, `n` whole records and a tail shorter than
/// one record decodes to exactly `n` records; `read_index_file`'s bounds pin
/// that count to the whole records that fit after the header.
pub proof fn lemma_record_count(n: int, len: int)
    requires
        0 <= n,
        HEADER_SIZE + RECORD_SIZE * n <= len < HEADER_SIZE + RECORD_SIZE * (n + 1),
    ensures
        n == (len - HEADER_SIZE) / (RECORD_SIZE as int),
{
    let rest = len - HEADER_SIZE;
    let q = rest / (RECORD_SIZE as int);
    vstd::arithmetic::div_mod::lemma_fundamental_div_mod(rest, RECORD_SIZE as int);
    vstd::arithmetic::div_mod::lemma_mod_bound(rest, RECORD_SIZE as int);
    assert(RECORD_SIZE * n <= RECORD_SIZE * q + rest % (RECORD_SIZE as int));
    assert(RECORD_SIZE * q + rest % (RECORD_SIZE as int) < RECORD_SIZE * (n + 1));
}

} // verus!

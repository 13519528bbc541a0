//! The layout of the file behind a persistent buffer: a header of fixed size,
//! followed by one frame after the other, each of them a length and an entry.

use crate::bytes;
use crate::bytes::{copy_range, decode_le, encode_le, sum_bytes};
use crate::error::{BufferError, BufferResult};
use vstd::prelude::*;
use vstd::string::*;

verus! {

/// How many bytes the header takes up.
pub const HEADER_SIZE: usize = 64;

/// The version of the layout.
pub const VERSION: u32 = 1;

/// The bytes that every file starts with: `ELASTICQ`.
pub open spec fn magic() -> Seq<u8> {
    seq![69, 76, 65, 83, 84, 73, 67, 81]
}

/// The two halves of a number, added up.
pub open spec fn halves(n: u64) -> nat {
    (n % 0x1_0000_0000 + n / 0x1_0000_0000) as nat
}

/// The header of a file.
#[derive(Clone, Copy, Debug)]
pub struct FileHeader {
    /// The bytes that tell such a file from others.
    pub magic: [u8; 8],
    /// The version of the layout.
    pub version: u32,
    /// The read position.
    pub head: u64,
    /// The write position.
    pub tail: u64,
    /// The number of items.
    pub item_count: u64,
    /// The sum of all other fields.
    pub checksum: u32,
}

impl FileHeader {
    /// The sum of all fields but the checksum.
    pub open spec fn sum(self) -> nat {
        (bytes::byte_sum(self.magic@) + self.version + halves(self.head) + halves(self.tail)
            + halves(self.item_count)) as nat % 0x1_0000_0000
    }

    /// The fields one after the other.
    pub open spec fn encoded(self) -> Seq<u8> {
        self.magic@ + bytes::le_bytes(self.version as nat, 4) + bytes::le_bytes(
            self.head as nat,
            8,
        ) + bytes::le_bytes(self.tail as nat, 8) + bytes::le_bytes(self.item_count as nat, 8)
            + bytes::le_bytes(self.checksum as nat, 4)
    }

    /// The header of an empty file, without its checksum.
    pub fn new() -> (r: Self)
        ensures
            r.magic@ == magic(),
            r.version == VERSION,
            r.head == 0,
            r.tail == 0,
            r.item_count == 0,
            r.checksum == 0,
    {
        FileHeader {
            magic: [69, 76, 65, 83, 84, 73, 67, 81],
            version: VERSION,
            head: 0,
            tail: 0,
            item_count: 0,
            checksum: 0,
        }
    }

    /// The sum of all fields but the checksum, going around at the largest
    /// `u32`.
    pub fn calculate_checksum(&self) -> (r: u32)
        ensures
            r == self.sum(),
    {
        let ghost magic_sum = bytes::byte_sum(self.magic@);
        let ghost part = (magic_sum + self.version) as nat;
        let of_magic: u32 = sum_bytes(0, self.magic.as_slice());
        let of_version: u32 = of_magic.wrapping_add(self.version);
        proof {
            lemma_sum_of_remainder(magic_sum, self.version as nat);
        }
        let of_head: u32 = add_halves(of_version, self.head);
        proof {
            lemma_sum_of_remainder(part, halves(self.head));
        }
        let of_tail: u32 = add_halves(of_head, self.tail);
        proof {
            lemma_sum_of_remainder(part + halves(self.head), halves(self.tail));
            lemma_sum_of_remainder(
                part + halves(self.head) + halves(self.tail),
                halves(self.item_count),
            );
        }
        add_halves(of_tail, self.item_count)
    }

    /// The same header with the right checksum.
    pub fn with_checksum(self) -> (r: Self)
        ensures
            r == (FileHeader { checksum: r.checksum, ..self }),
            r.checksum == self.sum(),
    {
        let checksum: u32 = self.calculate_checksum();
        FileHeader { checksum, ..self }
    }

    /// Whether the checksum is right.
    pub fn verify_checksum(&self) -> (r: bool)
        ensures
            r == (self.checksum == self.sum()),
    {
        self.checksum == self.calculate_checksum()
    }

    /// Whether the file is such a file at all.
    pub fn verify_magic(&self) -> (r: bool)
        ensures
            r == (self.magic@ == magic()),
    {
        let expected: [u8; 8] = [69, 76, 65, 83, 84, 73, 67, 81];
        let mut i: usize = 0;
        while i < 8
            invariant
                i <= 8,
                expected@ == magic(),
                forall|j: int| 0 <= j < i ==> self.magic@[j] == expected@[j],
            decreases 8 - i,
        {
            if self.magic[i] != expected[i] {
                proof {
                    assert(self.magic@[i as int] != magic()[i as int]);
                }
                return false;
            }
            i = i + 1;
        }
        proof {
            assert(self.magic@ =~= magic());
        }
        true
    }
}

/// Of a remainder and of the number itself the sum has the same remainder.
proof fn lemma_sum_of_remainder(a: nat, b: nat)
    ensures
        (a % 0x1_0000_0000 + b) % 0x1_0000_0000 == (a + b) % 0x1_0000_0000,
{
}

/// Adds the two halves of a number to a sum.
fn add_halves(sum: u32, n: u64) -> (r: u32)
    ensures
        r == (sum + halves(n)) % 0x1_0000_0000,
{
    sum.wrapping_add((n % 0x1_0000_0000) as u32).wrapping_add((n / 0x1_0000_0000) as u32)
}

/// The bytes of a header. `bincode::serialize` writes the fields in their order,
/// integers as they are, the lowest byte first, and an array of bytes without a
/// length; into memory it does not fail.
#[verifier::external_body]
fn serialize_header(header: &FileHeader) -> (r: Vec<u8>)
    ensures
        r@ == header.encoded(),
{
    let h = header;
    bincode::serialize(&(h.magic, h.version, h.head, h.tail, h.item_count, h.checksum)).unwrap()
}

/// The header that some bytes start with. `bincode::deserialize` reads the
/// fields in their order, integers as they are, the lowest byte first, and an
/// array of bytes without a length; it fails if and only if there are fewer
/// bytes than that, and ignores those behind.
#[verifier::external_body]
fn deserialize_header(bytes: &[u8]) -> (r: Option<FileHeader>)
    ensures
        r is Some <==> bytes@.len() >= 40,
        r matches Some(h) ==> {
            &&& h.magic@ == bytes@.take(8)
            &&& h.version == bytes::le_value(bytes@.subrange(8, 12))
            &&& h.head == bytes::le_value(bytes@.subrange(12, 20))
            &&& h.tail == bytes::le_value(bytes@.subrange(20, 28))
            &&& h.item_count == bytes::le_value(bytes@.subrange(28, 36))
            &&& h.checksum == bytes::le_value(bytes@.subrange(36, 40))
        },
{
    let fields: Option<([u8; 8], u32, u64, u64, u64, u32)> = bincode::deserialize(bytes).ok();
    fields.map(
        |f| FileHeader {
            magic: f.0,
            version: f.1,
            head: f.2,
            tail: f.3,
            item_count: f.4,
            checksum: f.5,
        },
    )
}

/// The sum that the header of an empty file has.
pub open spec fn initial_sum() -> nat {
    ((bytes::byte_sum(magic()) + VERSION) as nat) % 0x1_0000_0000
}

/// A file without entries.
pub open spec fn initial_image() -> Seq<u8> {
    magic() + bytes::le_bytes(VERSION as nat, 4) + bytes::le_bytes(0, 8) + bytes::le_bytes(0, 8)
        + bytes::le_bytes(0, 8) + bytes::le_bytes(initial_sum(), 4) + Seq::new(24, |i: int| 0u8)
}

/// The sum that the header in the first bytes of a file should have.
pub open spec fn header_sum(file: Seq<u8>) -> nat {
    (bytes::byte_sum(file.take(8)) + bytes::le_value(file.subrange(8, 12)) + halves(
        bytes::le_value(file.subrange(12, 20)) as u64,
    ) + halves(bytes::le_value(file.subrange(20, 28)) as u64) + halves(
        bytes::le_value(file.subrange(28, 36)) as u64,
    )) % 0x1_0000_0000
}

/// Why a file cannot be read, if it cannot.
pub open spec fn header_defect(file: Seq<u8>) -> Option<Seq<char>> {
    if file.len() < HEADER_SIZE {
        Some("File too small for header"@)
    } else if file.take(8) != magic() {
        Some("Invalid file magic"@)
    } else if bytes::le_value(file.subrange(36, 40)) != header_sum(file) {
        Some("Header checksum mismatch"@)
    } else {
        None
    }
}

/// The sum of the sequence number and the payload of an entry.
pub open spec fn entry_sum(sequence: u64, payload: Seq<u8>) -> nat {
    (halves(sequence) + bytes::byte_sum(payload)) % 0x1_0000_0000
}

/// The bytes of an entry: its sequence number, its payload and its checksum.
pub open spec fn entry_bytes(sequence: u64, payload: Seq<u8>, checksum: u32) -> Seq<u8> {
    bytes::le_bytes(sequence as nat, 8) + payload + bytes::le_bytes(checksum as nat, 4)
}

/// An entry behind its length, of which four bytes are kept.
pub open spec fn framed(entry: Seq<u8>) -> Seq<u8> {
    bytes::le_bytes(entry.len(), 4) + entry
}

/// The entries in the bytes behind a header, up to the first that has no length
/// or is not there in full.
pub open spec fn frames(log: Seq<u8>) -> Seq<Seq<u8>>
    decreases log.len(),
{
    let len = bytes::le_value(log.take(4));
    if log.len() < 4 || len == 0 || 4 + len > log.len() {
        Seq::empty()
    } else {
        seq![log.subrange(4, 4 + len as int)] + frames(log.skip(4 + len as int))
    }
}

/// The bytes of an entry from its payload on.
pub open spec fn payload_on(entry: Seq<u8>) -> Seq<u8> {
    if entry.len() >= 8 {
        entry.skip(8)
    } else {
        Seq::empty()
    }
}

/// An entry of the log.
pub struct LogEntry<T> {
    /// The number of the entry.
    pub sequence: u64,
    /// The item.
    pub data: T,
    /// The sum of the number and the bytes of the item.
    pub checksum: u32,
}

/// The entry in some bytes, given what its payload was read as and how many
/// bytes of it that took.
pub open spec fn entry_of<T>(entry: Seq<u8>, read: Option<(T, usize)>) -> Option<LogEntry<T>> {
    match read {
        Some((data, used)) => if 12 + used <= entry.len() {
            Some(
                LogEntry {
                    sequence: bytes::le_value(entry.take(8)) as u64,
                    data,
                    checksum: bytes::le_value(entry.subrange(8 + used, 12 + used)) as u32,
                },
            )
        } else {
            None
        },
        None => None,
    }
}

/// The entries up to the first that cannot be read.
pub open spec fn readable<T>(entries: Seq<Seq<u8>>, read: Seq<Option<(T, usize)>>) -> Seq<
    LogEntry<T>,
>
    decreases entries.len(),
{
    if entries.len() == 0 || read.len() == 0 {
        Seq::empty()
    } else {
        match entry_of(entries[0], read[0]) {
            Some(e) => seq![e] + readable(entries.skip(1), read.skip(1)),
            None => Seq::empty(),
        }
    }
}

impl<T> LogEntry<T> {
    /// An entry with its checksum, given the bytes of its item.
    pub fn new(sequence: u64, data: T, payload: &[u8]) -> (r: Self)
        ensures
            r.sequence == sequence,
            r.data == data,
            r.checksum == entry_sum(sequence, payload@),
    {
        let checksum: u32 = sum_bytes(add_halves(0, sequence), payload);
        LogEntry { sequence, data, checksum }
    }

    /// The frame of the entry, given the bytes of its item.
    pub fn to_frame(&self, payload: &[u8]) -> (r: Vec<u8>)
        ensures
            r@ == framed(entry_bytes(self.sequence, payload@, self.checksum)),
    {
        let mut entry: Vec<u8> = encode_le(self.sequence, 8);
        let mut data: Vec<u8> = copy_range(payload, 0, payload.len());
        let mut checksum: Vec<u8> = encode_le(self.checksum as u64, 4);
        entry.append(&mut data);
        entry.append(&mut checksum);
        let mut frame: Vec<u8> = encode_le(entry.len() as u64, 4);
        frame.append(&mut entry);
        proof {
            assert(payload@.subrange(0, payload@.len() as int) =~= payload@);
        }
        frame
    }

    /// The entry in some bytes, given what its payload was read as and how many
    /// bytes of it that took.
    pub fn from_bytes(entry: &[u8], read: Option<(T, usize)>) -> (r: Option<Self>)
        ensures
            r == entry_of(entry@, read),
    {
        match read {
            Some((data, used)) => {
                if entry.len() < 12 || used > entry.len() - 12 {
                    return None;
                }
                proof {
                    bytes::lemma_le_limits();
                    bytes::lemma_le_value_bound(entry@.subrange(8 + used, 12 + used));
                    assert(entry@.subrange(0, 8) =~= entry@.take(8));
                }
                let sequence: u64 = decode_le(entry, 0, 8);
                let checksum: u32 = decode_le(entry, 8 + used, 4) as u32;
                Some(LogEntry { sequence, data, checksum })
            },
            None => None,
        }
    }
}

/// The bytes of an entry from its payload on, for the item to be read from.
pub fn payload_of(entry: &Vec<u8>) -> (r: &[u8])
    ensures
        r@ == payload_on(entry@),
{
    let entry: &[u8] = entry.as_slice();
    if entry.len() >= 8 {
        proof {
            assert(entry@.subrange(8, entry@.len() as int) =~= entry@.skip(8));
        }
        vstd::slice::slice_subrange(entry, 8, entry.len())
    } else {
        proof {
            assert(entry@.subrange(0, 0) =~= Seq::<u8>::empty());
        }
        vstd::slice::slice_subrange(entry, 0, 0)
    }
}

/// A file without entries.
pub fn new_image() -> (r: Vec<u8>)
    ensures
        r@ == initial_image(),
{
    let header = FileHeader::new().with_checksum();
    let mut image: Vec<u8> = serialize_header(&header);
    proof {
        bytes::lemma_le_bytes_len(VERSION as nat, 4);
        bytes::lemma_le_bytes_len(0, 8);
        bytes::lemma_le_bytes_len(initial_sum(), 4);
        assert(image@.len() == 40);
    }
    let ghost written = image@;
    while image.len() < HEADER_SIZE
        invariant
            written.len() == 40,
            40 <= image@.len() <= HEADER_SIZE,
            image@ =~= written + Seq::new((image@.len() - 40) as nat, |i: int| 0u8),
        decreases HEADER_SIZE - image@.len(),
    {
        image.push(0);
    }
    image
}

/// Checks the header of a file.
pub fn check_header(file: &[u8]) -> (r: BufferResult<()>)
    ensures
        r is Ok <==> header_defect(file@) is None,
        r matches Err(e) ==> (e matches BufferError::Other(s) && header_defect(file@) == Some(s@)),
{
    if file.len() < HEADER_SIZE {
        return Err(BufferError::Other("File too small for header".to_owned()));
    }
    let header: FileHeader = deserialize_header(file).unwrap();
    if !header.verify_magic() {
        return Err(BufferError::Other("Invalid file magic".to_owned()));
    }
    if !header.verify_checksum() {
        return Err(BufferError::Other("Header checksum mismatch".to_owned()));
    }
    Ok(())
}

/// The entries in a file, up to the first that has no length or is not there in
/// full.
pub fn read_entries(file: &[u8]) -> (r: BufferResult<Vec<Vec<u8>>>)
    ensures
        r is Ok <==> header_defect(file@) is None,
        r matches Ok(entries) ==> {
            &&& entries@.len() == frames(file@.skip(HEADER_SIZE as int)).len()
            &&& forall|i: int|
                0 <= i < entries@.len() ==> (#[trigger] entries@[i])@ == frames(
                    file@.skip(HEADER_SIZE as int),
                )[i]
        },
        r matches Err(e) ==> (e matches BufferError::Other(s) && header_defect(file@) == Some(s@)),
{
    match check_header(file) {
        Err(e) => {
            return Err(e);
        },
        Ok(()) => {},
    }
    let ghost all = frames(file@.skip(HEADER_SIZE as int));
    let mut entries: Vec<Vec<u8>> = Vec::new();
    let mut offset: usize = HEADER_SIZE;
    let len: usize = file.len();
    while len - offset >= 4
        invariant
            header_defect(file@) is None,
            HEADER_SIZE <= offset <= len == file@.len(),
            all == frames(file@.skip(HEADER_SIZE as int)),
            all.len() == entries@.len() + frames(file@.skip(offset as int)).len(),
            forall|i: int|
                0 <= i < entries@.len() ==> (#[trigger] entries@[i])@ == all[i],
            all.skip(entries@.len() as int) =~= frames(file@.skip(offset as int)),
        decreases len - offset,
    {
        let ghost rest = file@.skip(offset as int);
        proof {
            assert(rest.take(4) =~= file@.subrange(offset as int, offset + 4));
        }
        let entry_len: u64 = decode_le(file, offset, 4);
        if entry_len == 0 || entry_len > (len - offset - 4) as u64 {
            return Ok(entries);
        }
        let end: usize = offset + 4 + entry_len as usize;
        let entry: Vec<u8> = copy_range(file, offset + 4, end);
        proof {
            assert(entry@ =~= rest.subrange(4, 4 + entry_len as int));
            assert(rest.skip(4 + entry_len as int) =~= file@.skip(end as int));
            let more = frames(file@.skip(end as int));
            assert(frames(rest) == seq![entry@] + more);
            assert(all.skip(entries@.len() as int)[0] == entry@);
            assert(all.skip((entries@.len() + 1) as int) =~= all.skip(entries@.len() as int).skip(1));
            assert((seq![entry@] + more).skip(1) =~= more);
        }
        entries.push(entry);
        offset = end;
    }
    Ok(entries)
}

} // verus!

//! The simple filesystem view: the superblock's geometry arithmetic, the
//! 64-byte index entries, the decoder that reads a file entry out of its
//! on-disk words, and file lookup and reading over the block device.
//!
//! Each index entry occupies 64 bytes; a file entry carries its type tag
//! 0x12, a timestamp, the file's block range, its byte length, and a
//! zero-padded 30-byte name.

use vstd::prelude::*;

use crate::ide::{IDEImpl, IDE};
use crate::pci::spec_byte_shift;

verus! {

/// Bytes per index entry.
pub const ENTRY_BYTES: u64 = 64;

/// Type tag of a live file entry.
pub const FILE_ENTRY_TAG: u8 = 0x12;

/// Errors the filesystem reports instead of failing fatally.
#[derive(Debug)]
pub enum SfsError {
    NameTooLong,
    FileNotFound,
    CorruptEntry,
}

// ------------------------------------------------------------------
// Superblock.
// ------------------------------------------------------------------

/// The superblock: filesystem geometry and areas in use.
pub struct SuperBlock {
    pub timestamp: u64,
    pub data_area_size: u64,
    pub index_area_size: u64,
    pub magicnum_and_sfs_version: u32,
    pub total_blocks: u64,
    pub reserved_block: u32,
    pub block_size: u8,
    pub checksum: u8,
}

/// Two to the power `n`.
pub open spec fn pow2(n: nat) -> int
    decreases n,
{
    if n == 0 {
        1
    } else {
        2 * pow2((n - 1) as nat)
    }
}

/// Geometry bounds under which the superblock arithmetic stays in range.
pub open spec fn sb_wf(sb: SuperBlock) -> bool {
    &&& sb.block_size <= 24
    &&& sb.total_blocks * pow2((sb.block_size + 7) as nat) <= u32::MAX
    &&& sb.index_area_size <= sb.total_blocks * pow2((sb.block_size + 7) as nat)
    &&& sb.index_area_size % ENTRY_BYTES == 0
    &&& (sb.total_blocks * pow2((sb.block_size + 7) as nat)) % (ENTRY_BYTES as int) == 0
}

impl SuperBlock {
    /// Bytes per block: two to the stored exponent plus seven.
    pub fn block_size_bytes(&self) -> (r: u64)
        requires
            self.block_size <= 24,
        ensures
            r == pow2((self.block_size + 7) as nat),
            128 <= r <= 0x80000000,
    {
        let mut r: u64 = 128;
        let mut k: u8 = 0;
        proof {
            assert(pow2(7nat) == 128) by {
                reveal_with_fuel(pow2, 8);
            }
        }
        while k < self.block_size
            invariant
                k <= self.block_size <= 24,
                r == pow2((k + 7) as nat),
                r <= 0x80000000,
            decreases self.block_size - k,
        {
            proof {
                lemma_pow2_bounds((k + 8) as nat);
            }
            r = r * 2;
            k = k + 1;
        }
        proof {
            lemma_pow2_pos(7nat);
            lemma_pow2_mono(7nat, (self.block_size + 7) as nat);
            lemma_pow2_mono((self.block_size + 7) as nat, 31nat);
            lemma_pow2_bounds(31nat);
        }
        r
    }

    /// Total bytes of the medium.
    pub fn get_media_size(&self) -> (r: u64)
        requires
            sb_wf(*self),
        ensures
            r == self.total_blocks * pow2((self.block_size + 7) as nat),
    {
        proof {
            lemma_pow2_pos((self.block_size + 7) as nat);
            vstd::arithmetic::mul::lemma_mul_nonnegative(
                self.total_blocks as int,
                pow2((self.block_size + 7) as nat),
            );
        }
        self.total_blocks * self.block_size_bytes()
    }

    /// First byte of the data area: past the reserved blocks.
    pub fn data_start_location(&self) -> (r: u64)
        requires
            self.block_size <= 24,
            self.reserved_block * pow2((self.block_size + 7) as nat) <= u64::MAX,
        ensures
            r == self.reserved_block * pow2((self.block_size + 7) as nat),
    {
        self.reserved_block as u64 * self.block_size_bytes()
    }

    /// First byte of the index area: it grows down from the end of the
    /// medium.
    pub fn index_start_location(&self) -> (r: u64)
        requires
            sb_wf(*self),
        ensures
            r == self.total_blocks * pow2((self.block_size + 7) as nat) - self.index_area_size,
    {
        self.get_media_size() - self.index_area_size
    }

    /// Grows the data area and stamps the change.
    pub fn increment_data_area_size(&mut self, inc: u64, timestamp: u64)
        requires
            old(self).data_area_size + inc <= u64::MAX,
        ensures
            *final(self) == (SuperBlock {
                data_area_size: (old(self).data_area_size + inc) as u64,
                timestamp: timestamp,
                ..*old(self)
            }),
    {
        self.data_area_size = self.data_area_size + inc;
        self.timestamp = timestamp;
    }

    /// Grows the index area and stamps the change.
    pub fn increment_index_area_size(&mut self, inc: u64, timestamp: u64)
        requires
            old(self).index_area_size + inc <= u64::MAX,
        ensures
            *final(self) == (SuperBlock {
                index_area_size: (old(self).index_area_size + inc) as u64,
                timestamp: timestamp,
                ..*old(self)
            }),
    {
        self.index_area_size = self.index_area_size + inc;
        self.timestamp = timestamp;
    }
}

proof fn lemma_pow2_pos(n: nat)
    ensures
        pow2(n) >= 1,
    decreases n,
{
    if n > 0 {
        lemma_pow2_pos((n - 1) as nat);
    }
}

proof fn lemma_pow2_mono(a: nat, b: nat)
    requires
        a <= b,
    ensures
        pow2(a) <= pow2(b),
    decreases b - a,
{
    if a < b {
        lemma_pow2_mono(a, (b - 1) as nat);
        lemma_pow2_pos((b - 1) as nat);
    }
}

#[verifier::rlimit(100)]
#[verifier::spinoff_prover]
proof fn lemma_pow2_bounds(n: nat)
    requires
        n <= 31,
    ensures
        1 <= pow2(n) <= 0x80000000,
{
    lemma_pow2_pos(n);
    lemma_pow2_mono(n, 31nat);
    assert(pow2(31nat) == 0x80000000) by {
        reveal_with_fuel(pow2, 32);
    }
}

// ------------------------------------------------------------------
// Index entries.
// ------------------------------------------------------------------

/// The marker that separates live entries from free index space.
pub struct StartingMarkerEntry {
    pub entry_type: u8,
    pub unused_reserved: Vec<u8>,
}

impl StartingMarkerEntry {
    pub fn new() -> (r: StartingMarkerEntry)
        ensures
            r.entry_type == 0x02,
            r.unused_reserved@.len() == 63,
    {
        StartingMarkerEntry { entry_type: 0x02, unused_reserved: crate::zeroed_bytes(63) }
    }
}

/// An index slot holding nothing.
pub struct UnusedEntry {
    pub entry_type: u8,
    pub unused_reserved: Vec<u8>,
}

impl UnusedEntry {
    pub fn new() -> (r: UnusedEntry)
        ensures
            r.entry_type == 0x10,
            r.unused_reserved@.len() == 63,
    {
        UnusedEntry { entry_type: 0x10, unused_reserved: crate::zeroed_bytes(63) }
    }
}

/// A directory.
pub struct DirectoryEntry {
    pub entry_type: u8,
    pub continuations: u8,
    pub timestamp: u64,
    pub directory_name: Vec<u8>,
}

impl DirectoryEntry {
    pub fn new(directory_name: Vec<u8>, continuations: u8, timestamp: u64) -> (r: DirectoryEntry)
        requires
            directory_name@.len() == 54,
        ensures
            r.entry_type == 0x11,
            r.continuations == continuations,
            r.timestamp == timestamp,
            r.directory_name == directory_name,
    {
        DirectoryEntry { entry_type: 0x11, continuations, timestamp, directory_name }
    }
}

/// A live file: its block range, byte length, and zero-padded name.
pub struct FileEntry {
    pub entry_type: u8,
    pub continuations: u8,
    pub timestamp: u64,
    pub starting_block: u64,
    pub ending_block: u64,
    pub length: u64,
    pub filename: Vec<u8>,
}

impl FileEntry {
    pub fn new(
        filename: Vec<u8>,
        starting_block: u64,
        ending_block: u64,
        length: u64,
        continuations: u8,
        timestamp: u64,
    ) -> (r: FileEntry)
        requires
            filename@.len() == 30,
        ensures
            r.entry_type == FILE_ENTRY_TAG,
            r.continuations == continuations,
            r.timestamp == timestamp,
            r.starting_block == starting_block,
            r.ending_block == ending_block,
            r.length == length,
            r.filename == filename,
    {
        FileEntry {
            entry_type: FILE_ENTRY_TAG,
            continuations,
            timestamp,
            starting_block,
            ending_block,
            length,
            filename,
        }
    }
}

/// A range of blocks that must not be used.
pub struct UnusableEntry {
    pub entry_type: u8,
    pub unused_reserved: Vec<u8>,
    pub starting_block: u64,
    pub ending_block: u64,
    pub unused_reserved2: Vec<u8>,
}

impl UnusableEntry {
    pub fn new(starting_block: u64, ending_block: u64) -> (r: UnusableEntry)
        ensures
            r.entry_type == 0x18,
            r.starting_block == starting_block,
            r.ending_block == ending_block,
            r.unused_reserved@.len() == 9,
            r.unused_reserved2@.len() == 38,
    {
        UnusableEntry {
            entry_type: 0x18,
            unused_reserved: crate::zeroed_bytes(9),
            starting_block,
            ending_block,
            unused_reserved2: crate::zeroed_bytes(38),
        }
    }
}

/// A deleted directory.
pub struct DeletedDirectoryEntry {
    pub entry_type: u8,
    pub continuations: u8,
    pub timestamp: u64,
    pub directory_name: Vec<u8>,
}

impl DeletedDirectoryEntry {
    pub fn new(directory_name: Vec<u8>, continuations: u8, timestamp: u64) -> (r:
        DeletedDirectoryEntry)
        requires
            directory_name@.len() == 54,
        ensures
            r.entry_type == 0x19,
            r.continuations == continuations,
            r.timestamp == timestamp,
            r.directory_name == directory_name,
    {
        DeletedDirectoryEntry { entry_type: 0x19, continuations, timestamp, directory_name }
    }
}

/// A deleted file whose blocks may be reclaimed.
pub struct DeletedFileEntry {
    pub entry_type: u8,
    pub continuations: u8,
    pub timestamp: u64,
    pub starting_block: u64,
    pub ending_block: u64,
    pub length: u64,
    pub filename: Vec<u8>,
}

impl DeletedFileEntry {
    pub fn new(
        filename: Vec<u8>,
        starting_block: u64,
        ending_block: u64,
        length: u64,
        continuations: u8,
        timestamp: u64,
    ) -> (r: DeletedFileEntry)
        requires
            filename@.len() == 30,
        ensures
            r.entry_type == 0x1A,
            r.continuations == continuations,
            r.timestamp == timestamp,
            r.starting_block == starting_block,
            r.ending_block == ending_block,
            r.length == length,
            r.filename == filename,
    {
        DeletedFileEntry {
            entry_type: 0x1A,
            continuations,
            timestamp,
            starting_block,
            ending_block,
            length,
            filename,
        }
    }
}

/// Name overflow from the preceding entry.
pub struct ContinuationEntry {
    pub entry_name: Vec<u8>,
}

impl ContinuationEntry {
    pub fn new(entry_name: Vec<u8>) -> (r: ContinuationEntry)
        requires
            entry_name@.len() == 64,
        ensures
            r.entry_name == entry_name,
    {
        ContinuationEntry { entry_name }
    }
}

// ------------------------------------------------------------------
// Decoding a file entry out of its on-disk words.
// ------------------------------------------------------------------

/// Byte `b` of a 16-word entry image.
pub open spec fn word_byte(ws: Seq<u32>, b: int) -> int {
    ws[b / 4] as int / spec_byte_shift(b % 4) % 256
}

/// The 64-bit little-endian field starting at byte `b0`.
pub open spec fn u64_at(ws: Seq<u32>, b0: int) -> int {
    word_byte(ws, b0) + word_byte(ws, b0 + 1) * 0x100 + word_byte(ws, b0 + 2) * 0x10000
        + word_byte(ws, b0 + 3) * 0x1000000 + word_byte(ws, b0 + 4) * 0x100000000 + word_byte(
        ws,
        b0 + 5,
    ) * 0x10000000000 + word_byte(ws, b0 + 6) * 0x1000000000000 + word_byte(ws, b0 + 7)
        * 0x100000000000000
}

/// Byte `b` of the entry image, executable.
fn word_byte_at(ws: &Vec<u32>, b: usize) -> (r: u8)
    requires
        ws@.len() == 16,
        b < 64,
    ensures
        r == word_byte(ws@, b as int),
{
    let dword = ws[b / 4];
    let k = b % 4;
    let shift: u32 = if k == 0 {
        1
    } else if k == 1 {
        0x100
    } else if k == 2 {
        0x10000
    } else {
        0x1000000
    };
    (dword / shift % 256) as u8
}

/// The 64-bit field starting at byte `b0`, executable.
fn u64_field_at(ws: &Vec<u32>, b0: usize) -> (r: u64)
    requires
        ws@.len() == 16,
        b0 + 8 <= 64,
    ensures
        r == u64_at(ws@, b0 as int),
{
    word_byte_at(ws, b0) as u64 + word_byte_at(ws, b0 + 1) as u64 * 0x100 + word_byte_at(
        ws,
        b0 + 2,
    ) as u64 * 0x10000 + word_byte_at(ws, b0 + 3) as u64 * 0x1000000 + word_byte_at(ws, b0 + 4)
        as u64 * 0x100000000 + word_byte_at(ws, b0 + 5) as u64 * 0x10000000000 + word_byte_at(
        ws,
        b0 + 6,
    ) as u64 * 0x1000000000000 + word_byte_at(ws, b0 + 7) as u64 * 0x100000000000000
}

/// Decodes the 64-byte entry image into a file entry: the transmute the
/// kernel performs, made explicit byte by byte.
pub fn file_entry_from_words(ws: &Vec<u32>) -> (r: FileEntry)
    requires
        ws@.len() == 16,
    ensures
        r.entry_type == word_byte(ws@, 0),
        r.continuations == word_byte(ws@, 1),
        r.timestamp == u64_at(ws@, 2),
        r.starting_block == u64_at(ws@, 10),
        r.ending_block == u64_at(ws@, 18),
        r.length == u64_at(ws@, 26),
        r.filename@.len() == 30,
        forall|j: int| 0 <= j < 30 ==> #[trigger] r.filename@[j] == word_byte(ws@, 34 + j),
{
    let mut filename: Vec<u8> = Vec::new();
    let mut j: usize = 0;
    while j < 30
        invariant
            ws@.len() == 16,
            j <= 30,
            filename@.len() == j,
            forall|k: int| 0 <= k < j ==> #[trigger] filename@[k] == word_byte(ws@, 34 + k),
        decreases 30 - j,
    {
        filename.push(word_byte_at(ws, 34 + j));
        j = j + 1;
    }
    FileEntry {
        entry_type: word_byte_at(ws, 0),
        continuations: word_byte_at(ws, 1),
        timestamp: u64_field_at(ws, 2),
        starting_block: u64_field_at(ws, 10),
        ending_block: u64_field_at(ws, 18),
        length: u64_field_at(ws, 26),
        filename,
    }
}

/// 256 to the power of a byte index inside a 64-bit field.
pub open spec fn spec_pow256(k: int) -> int {
    if k == 0 {
        1
    } else if k == 1 {
        0x100
    } else if k == 2 {
        0x10000
    } else if k == 3 {
        0x1000000
    } else if k == 4 {
        0x100000000
    } else if k == 5 {
        0x10000000000
    } else if k == 6 {
        0x1000000000000
    } else {
        0x100000000000000
    }
}

/// Byte `k` of a 64-bit field, little endian.
pub open spec fn u64_byte(x: u64, k: int) -> int {
    x as int / spec_pow256(k) % 256
}

/// Byte `b` of a file entry's 64-byte on-disk image.
pub open spec fn spec_entry_byte(e: FileEntry, b: int) -> int {
    if b == 0 {
        e.entry_type as int
    } else if b == 1 {
        e.continuations as int
    } else if b < 10 {
        u64_byte(e.timestamp, b - 2)
    } else if b < 18 {
        u64_byte(e.starting_block, b - 10)
    } else if b < 26 {
        u64_byte(e.ending_block, b - 18)
    } else if b < 34 {
        u64_byte(e.length, b - 26)
    } else {
        e.filename@[b - 34] as int
    }
}

/// Byte `k` of a 64-bit field, executable.
fn u64_byte_at(x: u64, k: usize) -> (r: u8)
    requires
        k < 8,
    ensures
        r == u64_byte(x, k as int),
{
    let shift: u64 = if k == 0 {
        1
    } else if k == 1 {
        0x100
    } else if k == 2 {
        0x10000
    } else if k == 3 {
        0x1000000
    } else if k == 4 {
        0x100000000
    } else if k == 5 {
        0x10000000000
    } else if k == 6 {
        0x1000000000000
    } else {
        0x100000000000000
    };
    (x / shift % 256) as u8
}

/// Byte `b` of a file entry's image, executable.
fn entry_byte_at(e: &FileEntry, b: usize) -> (r: u8)
    requires
        e.filename@.len() == 30,
        b < 64,
    ensures
        r == spec_entry_byte(*e, b as int),
{
    if b == 0 {
        e.entry_type
    } else if b == 1 {
        e.continuations
    } else if b < 10 {
        u64_byte_at(e.timestamp, b - 2)
    } else if b < 18 {
        u64_byte_at(e.starting_block, b - 10)
    } else if b < 26 {
        u64_byte_at(e.ending_block, b - 18)
    } else if b < 34 {
        u64_byte_at(e.length, b - 26)
    } else {
        e.filename[b - 34]
    }
}

/// Extracting the bytes of a word assembled from four bytes gives those
/// bytes back.
proof fn lemma_word_bytes(word: u32, b0: u32, b1: u32, b2: u32, b3: u32)
    requires
        b0 < 0x100,
        b1 < 0x100,
        b2 < 0x100,
        b3 < 0x100,
        word == b0 + b1 * 0x100 + b2 * 0x10000 + b3 * 0x1000000,
    ensures
        word as int / spec_byte_shift(0) % 256 == b0,
        word as int / spec_byte_shift(1) % 256 == b1,
        word as int / spec_byte_shift(2) % 256 == b2,
        word as int / spec_byte_shift(3) % 256 == b3,
{
    let wi = word as int;
    assert(wi / 0x100 == b1 + b2 * 0x100 + b3 * 0x10000) by (nonlinear_arith)
        requires
            wi == b0 + b1 * 0x100 + b2 * 0x10000 + b3 * 0x1000000,
            0 <= b0 < 0x100,
    {}
    assert(wi / 0x10000 == b2 + b3 * 0x100) by (nonlinear_arith)
        requires
            wi == b0 + b1 * 0x100 + b2 * 0x10000 + b3 * 0x1000000,
            0 <= b0 < 0x100,
            0 <= b1 < 0x100,
    {}
    assert(wi / 0x1000000 == b3) by (nonlinear_arith)
        requires
            wi == b0 + b1 * 0x100 + b2 * 0x10000 + b3 * 0x1000000,
            0 <= b0 < 0x100,
            0 <= b1 < 0x100,
            0 <= b2 < 0x100,
    {}
}

/// Encodes a file entry into its 16-word on-disk image: the inverse of the
/// decoder, byte by byte.
#[verifier::rlimit(100)]
#[verifier::spinoff_prover]
pub fn file_entry_to_words(e: &FileEntry) -> (r: Vec<u32>)
    requires
        e.filename@.len() == 30,
    ensures
        r@.len() == 16,
        forall|b: int| 0 <= b < 64 ==> #[trigger] word_byte(r@, b) == spec_entry_byte(*e, b),
{
    let mut words: Vec<u32> = Vec::new();
    let mut w: usize = 0;
    while w < 16
        invariant
            e.filename@.len() == 30,
            w <= 16,
            words@.len() == w,
            forall|b: int|
                0 <= b < 4 * w ==> #[trigger] word_byte(words@, b) == spec_entry_byte(*e, b),
        decreases 16 - w,
    {
        let ghost prev = words@;
        let b0 = entry_byte_at(e, 4 * w) as u32;
        let b1 = entry_byte_at(e, 4 * w + 1) as u32;
        let b2 = entry_byte_at(e, 4 * w + 2) as u32;
        let b3 = entry_byte_at(e, 4 * w + 3) as u32;
        let word = b0 + b1 * 0x100 + b2 * 0x10000 + b3 * 0x1000000;
        words.push(word);
        proof {
            lemma_word_bytes(word, b0, b1, b2, b3);
            assert forall|b: int|
                0 <= b < 4 * (w + 1) implies #[trigger] word_byte(words@, b) == spec_entry_byte(
                *e,
                b,
            ) by {
                if b < 4 * w {
                    assert(words@[b / 4] == prev[b / 4]);
                    assert(word_byte(prev, b) == spec_entry_byte(*e, b));
                } else {
                    assert(words@[b / 4] == word);
                    assert(b % 4 == b - 4 * w);
                    assert(word_byte(words@, b) == word as int / spec_byte_shift(b % 4) % 256);
                }
            }
        }
        w = w + 1;
    }
    words
}

/// Reassembling the eight little-endian bytes of a 64-bit field gives the
/// field back.
proof fn lemma_u64_recompose(x: u64)
    ensures
        u64_byte(x, 0) + u64_byte(x, 1) * 0x100 + u64_byte(x, 2) * 0x10000 + u64_byte(x, 3)
            * 0x1000000 + u64_byte(x, 4) * 0x100000000 + u64_byte(x, 5) * 0x10000000000 + u64_byte(
            x,
            6,
        ) * 0x1000000000000 + u64_byte(x, 7) * 0x100000000000000 == x,
{
    let xi = x as int;
    vstd::arithmetic::div_mod::lemma_div_denominator(xi, 0x100, 0x100);
    vstd::arithmetic::div_mod::lemma_div_denominator(xi, 0x10000, 0x100);
    vstd::arithmetic::div_mod::lemma_div_denominator(xi, 0x1000000, 0x100);
    vstd::arithmetic::div_mod::lemma_div_denominator(xi, 0x100000000, 0x100);
    vstd::arithmetic::div_mod::lemma_div_denominator(xi, 0x10000000000, 0x100);
    vstd::arithmetic::div_mod::lemma_div_denominator(xi, 0x1000000000000, 0x100);
    vstd::arithmetic::div_mod::lemma_fundamental_div_mod(xi, 0x100);
    vstd::arithmetic::div_mod::lemma_fundamental_div_mod(xi / 0x100, 0x100);
    vstd::arithmetic::div_mod::lemma_fundamental_div_mod(xi / 0x10000, 0x100);
    vstd::arithmetic::div_mod::lemma_fundamental_div_mod(xi / 0x1000000, 0x100);
    vstd::arithmetic::div_mod::lemma_fundamental_div_mod(xi / 0x100000000, 0x100);
    vstd::arithmetic::div_mod::lemma_fundamental_div_mod(xi / 0x10000000000, 0x100);
    vstd::arithmetic::div_mod::lemma_fundamental_div_mod(xi / 0x1000000000000, 0x100);
    assert(xi / 0x100000000000000 % 256 == xi / 0x100000000000000) by {
        assert(xi / 0x100000000000000 < 256);
    }
}

/// Decoding an encoded file entry gives the entry back: the on-disk image
/// round-trips.
pub proof fn lemma_entry_round_trip(e: FileEntry, ws: Seq<u32>)
    requires
        e.filename@.len() == 30,
        ws.len() == 16,
        forall|b: int| 0 <= b < 64 ==> #[trigger] word_byte(ws, b) == spec_entry_byte(e, b),
    ensures
        word_byte(ws, 0) == e.entry_type,
        word_byte(ws, 1) == e.continuations,
        u64_at(ws, 2) == e.timestamp,
        u64_at(ws, 10) == e.starting_block,
        u64_at(ws, 18) == e.ending_block,
        u64_at(ws, 26) == e.length,
        forall|j: int| 0 <= j < 30 ==> #[trigger] word_byte(ws, 34 + j) == e.filename@[j],
{
    lemma_u64_recompose(e.timestamp);
    lemma_u64_recompose(e.starting_block);
    lemma_u64_recompose(e.ending_block);
    lemma_u64_recompose(e.length);
}

/// A stored 30-byte name holds `name`: equal on `name`'s bytes and
/// zero-padded after them.
pub open spec fn name_matches(stored: Seq<u8>, name: Seq<u8>) -> bool {
    &&& stored.len() == 30
    &&& name.len() <= 30
    &&& forall|j: int| 0 <= j < name.len() ==> stored[j] == name[j]
    &&& forall|j: int| name.len() <= j < 30 ==> stored[j] == 0u8
}

/// Compares a stored name against a sought name with its zero padding.
fn compare_name(stored: &Vec<u8>, name: &Vec<u8>) -> (r: bool)
    requires
        stored@.len() == 30,
        name@.len() <= 30,
    ensures
        r == name_matches(stored@, name@),
{
    let mut j: usize = 0;
    while j < name.len()
        invariant
            stored@.len() == 30,
            name@.len() <= 30,
            j <= name@.len(),
            forall|k: int| 0 <= k < j ==> stored@[k] == name@[k],
        decreases name@.len() - j,
    {
        if stored[j] != name[j] {
            return false;
        }
        j = j + 1;
    }
    while j < 30
        invariant
            stored@.len() == 30,
            name@.len() <= j <= 30,
            forall|k: int| 0 <= k < name@.len() ==> stored@[k] == name@[k],
            forall|k: int| name@.len() <= k < j ==> stored@[k] == 0u8,
        decreases 30 - j,
    {
        if stored[j] != 0 {
            return false;
        }
        j = j + 1;
    }
    true
}

// ------------------------------------------------------------------
// The filesystem over a drive.
// ------------------------------------------------------------------

/// The filesystem: a drive and its superblock.
pub struct SFS {
    pub ide: IDEImpl,
    pub super_block: SuperBlock,
}

/// The 16-word image of the index slot at byte offset `off` on the disk.
pub open spec fn slot_words(disk: Seq<u32>, off: int) -> Seq<u32> {
    disk.subrange(off / 4, off / 4 + 16)
}

/// The slot at `off` holds a file entry named `name`.
pub open spec fn slot_is_file(disk: Seq<u32>, off: int, name: Seq<u8>) -> bool {
    &&& word_byte(slot_words(disk, off), 0) == FILE_ENTRY_TAG
    &&& name_matches(Seq::new(30, |j: int| word_byte(slot_words(disk, off), 34 + j) as u8), name)
}

/// Total bytes of the medium the superblock describes.
pub open spec fn sfs_media(sb: SuperBlock) -> int {
    sb.total_blocks * pow2((sb.block_size + 7) as nat)
}

/// First byte of the index area.
pub open spec fn sfs_index_start(sb: SuperBlock) -> int {
    sfs_media(sb) - sb.index_area_size
}

/// The first index slot at or after `off` that holds a file entry named
/// `name`, scanning 64 bytes at a time up to `media`; `None` when no slot
/// in `[off, media)` does.
pub open spec fn find_slot(disk: Seq<u32>, off: int, media: int, name: Seq<u8>) -> Option<int>
    decreases media - off,
{
    if off + 64 > media {
        None
    } else if slot_is_file(disk, off, name) {
        Some(off)
    } else {
        find_slot(disk, off + 64, media, name)
    }
}

/// The geometry bounds a file entry must pass before its blocks can be
/// read: a well-ordered block range, products and sums within the 32-bit
/// transfer interface, the whole span inside the medium, and the stored
/// byte length within the span.
pub open spec fn entry_geometry_ok(sb: SuperBlock, disk: Seq<u32>, off: int) -> bool {
    let ws = slot_words(disk, off);
    let bsb = pow2((sb.block_size + 7) as nat);
    let first = u64_at(ws, 10);
    let last = u64_at(ws, 18);
    let stored_len = u64_at(ws, 26);
    let data_start = sb.reserved_block * bsb;
    let span = (last - first) * bsb;
    &&& first <= last
    &&& first <= 0xFFFFFFFF
    &&& last <= 0xFFFFFFFF
    &&& data_start <= 0xFFFFFFFF
    &&& last - first <= 0x1000000
    &&& first * bsb <= 0xFFFFFFFF - data_start
    &&& span <= 0xFFFFFFFF - (data_start + first * bsb)
    &&& data_start + first * bsb + span <= sfs_media(sb)
    &&& stored_len <= span
}

impl SFS {
    /// A filesystem over a drive whose superblock has been read.
    pub fn new(ide: IDEImpl, super_block: SuperBlock) -> (r: SFS)
        ensures
            r.ide == ide,
            r.super_block == super_block,
    {
        SFS { ide, super_block }
    }

    /// Total bytes of the medium.
    pub fn get_media_size(&self) -> (r: u64)
        requires
            sb_wf(self.super_block),
        ensures
            r == self.super_block.total_blocks * pow2((self.super_block.block_size + 7) as nat),
    {
        self.super_block.get_media_size()
    }

    /// Scans the index area for a file entry named `filename`: the decoded
    /// entry and its byte position if one exists, and an error saying why
    /// otherwise: a name over 30 bytes is unsupported, and a clean scan
    /// means no slot holds such an entry.
    pub fn get_file_entry(&self, filename: &Vec<u8>) -> (r: Result<(FileEntry, u64), SfsError>)
        requires
            sb_wf(self.super_block),
            self.ide.disk().len() * 4 == self.super_block.total_blocks * pow2(
                (self.super_block.block_size + 7) as nat,
            ),
        ensures
            r is Ok <==> (filename@.len() <= 30 && find_slot(
                self.ide.disk(),
                sfs_index_start(self.super_block),
                sfs_media(self.super_block),
                filename@,
            ) is Some),
            (match r {
                Ok((entry, pos)) => {
                    &&& filename@.len() <= 30
                    &&& find_slot(
                        self.ide.disk(),
                        sfs_index_start(self.super_block),
                        sfs_media(self.super_block),
                        filename@,
                    ) == Some(pos as int)
                    &&& sfs_index_start(self.super_block) <= pos
                    &&& pos + ENTRY_BYTES <= self.ide.disk().len() * 4
                    &&& pos % 4 == 0
                    &&& slot_is_file(self.ide.disk(), pos as int, filename@)
                    &&& entry.entry_type == FILE_ENTRY_TAG
                    &&& entry.continuations == word_byte(slot_words(self.ide.disk(), pos as int), 1)
                    &&& entry.timestamp == u64_at(slot_words(self.ide.disk(), pos as int), 2)
                    &&& entry.starting_block == u64_at(slot_words(self.ide.disk(), pos as int), 10)
                    &&& entry.ending_block == u64_at(slot_words(self.ide.disk(), pos as int), 18)
                    &&& entry.length == u64_at(slot_words(self.ide.disk(), pos as int), 26)
                    &&& entry.filename@.len() == 30
                    &&& forall|j: int|
                        0 <= j < 30 ==> #[trigger] entry.filename@[j] == word_byte(
                            slot_words(self.ide.disk(), pos as int),
                            34 + j,
                        )
                },
                Err(e) => {
                    &&& (match e {
                        SfsError::NameTooLong => filename@.len() > 30,
                        SfsError::FileNotFound => filename@.len() <= 30 && find_slot(
                            self.ide.disk(),
                            sfs_index_start(self.super_block),
                            sfs_media(self.super_block),
                            filename@,
                        ) is None,
                        SfsError::CorruptEntry => false,
                    })
                },
            }),
    {
        if filename.len() > 30 {
            return Err(SfsError::NameTooLong);
        }
        let media = self.get_media_size();
        let index_start = self.super_block.index_start_location();
        let mut pos: u64 = index_start;
        let mut buf: Vec<u32> = crate::zeroed_words_u32(16);
        while pos + ENTRY_BYTES <= media
            invariant
                sb_wf(self.super_block),
                pos <= media,
                self.ide.disk().len() * 4 == media,
                media == sfs_media(self.super_block),
                index_start == sfs_index_start(self.super_block),
                index_start <= pos,
                pos % 4 == 0,
                buf@.len() == 16,
                filename@.len() <= 30,
                find_slot(self.ide.disk(), index_start as int, media as int, filename@)
                    == find_slot(self.ide.disk(), pos as int, media as int, filename@),
            decreases media - pos,
        {
            let _count = self.ide.read_all(pos as u32, &mut buf, 64);
            proof {
                assert(buf@ =~= slot_words(self.ide.disk(), pos as int));
            }
            if word_byte_at(&buf, 0) == FILE_ENTRY_TAG {
                let entry = file_entry_from_words(&buf);
                if compare_name(&entry.filename, filename) {
                    proof {
                        assert(entry.filename@ =~= Seq::new(
                            30,
                            |j: int| word_byte(slot_words(self.ide.disk(), pos as int), 34 + j)
                                as u8,
                        ));
                        assert(slot_is_file(self.ide.disk(), pos as int, filename@));
                        assert(find_slot(self.ide.disk(), pos as int, media as int, filename@)
                            == Some(pos as int));
                    }
                    return Ok((entry, pos));
                }
                proof {
                    assert(entry.filename@ =~= Seq::new(
                        30,
                        |j: int| word_byte(slot_words(self.ide.disk(), pos as int), 34 + j) as u8,
                    ));
                    assert(!slot_is_file(self.ide.disk(), pos as int, filename@));
                }
            } else {
                proof {
                    assert(!slot_is_file(self.ide.disk(), pos as int, filename@));
                }
            }
            proof {
                assert(find_slot(self.ide.disk(), pos as int, media as int, filename@)
                    == find_slot(self.ide.disk(), pos as int + 64, media as int, filename@));
            }
            pos = pos + ENTRY_BYTES;
        }
        proof {
            assert(find_slot(self.ide.disk(), pos as int, media as int, filename@) is None);
        }
        Err(SfsError::FileNotFound)
    }

    /// Creates a file spanning `blocks` blocks at the end of the data
    /// area, stamped with `timestamp`: its entry is written over the
    /// current starting marker, a fresh marker is written in the slot
    /// below, and the superblock's two areas grow. A file that already
    /// exists under this name leaves everything untouched. Afterwards a
    /// scan of the grown index area finds the new entry.
    #[verifier::rlimit(100)]
    #[verifier::spinoff_prover]
    pub fn create_file(&mut self, filename: &Vec<u8>, blocks: u64, timestamp: u64)
        requires
            sb_wf(old(self).super_block),
            old(self).ide.disk().len() * 4 == sfs_media(old(self).super_block),
            filename@.len() <= 30,
            ENTRY_BYTES <= old(self).super_block.index_area_size,
            old(self).super_block.index_area_size + ENTRY_BYTES <= sfs_media(
                old(self).super_block,
            ),
            old(self).super_block.data_area_size + blocks <= u64::MAX,
        ensures
            sb_wf(final(self).super_block),
            final(self).ide.disk().len() == old(self).ide.disk().len(),
            find_slot(
                old(self).ide.disk(),
                sfs_index_start(old(self).super_block),
                sfs_media(old(self).super_block),
                filename@,
            ) is Some ==> *final(self) == *old(self),
            find_slot(
                old(self).ide.disk(),
                sfs_index_start(old(self).super_block),
                sfs_media(old(self).super_block),
                filename@,
            ) is None ==> ({
                let is = sfs_index_start(old(self).super_block);
                let disk = final(self).ide.disk();
                let ws = slot_words(disk, is);
                &&& final(self).super_block == (SuperBlock {
                    data_area_size: (old(self).super_block.data_area_size + blocks) as u64,
                    index_area_size: (old(self).super_block.index_area_size + ENTRY_BYTES) as u64,
                    timestamp: timestamp,
                    ..old(self).super_block
                })
                &&& slot_is_file(disk, is, filename@)
                &&& u64_at(ws, 2) == timestamp
                &&& u64_at(ws, 10) == old(self).super_block.data_area_size
                &&& u64_at(ws, 18) == old(self).super_block.data_area_size + blocks
                &&& u64_at(ws, 26) == 0
                &&& word_byte(slot_words(disk, is - 64), 0) == 0x02
                &&& forall|j: int|
                    0 <= j < disk.len() && !(is / 4 - 16 <= j < is / 4 + 16)
                        ==> #[trigger] disk[j] == old(self).ide.disk()[j]
                &&& find_slot(disk, sfs_index_start(final(self).super_block), sfs_media(
                    final(self).super_block,
                ), filename@) == Some(is)
            }),
    {
        match self.get_file_entry(filename) {
            Ok(_) => {
                // the file already exists: leave everything as it is
                return ;
            },
            Err(SfsError::FileNotFound) => {},
            Err(_) => {
                proof {
                    assert(false);
                }
                vstd::pervasive::unreached()
            },
        }
        // the entry: the next blocks of the data area, zero bytes long
        let mut padded = crate::zeroed_bytes(30);
        let mut i: usize = 0;
        while i < filename.len()
            invariant
                filename@.len() <= 30,
                i <= filename@.len(),
                padded@.len() == 30,
                forall|k: int| 0 <= k < i ==> padded@[k] == filename@[k],
                forall|k: int| i <= k < 30 ==> padded@[k] == 0u8,
            decreases filename@.len() - i,
        {
            padded[i] = filename[i];
            i = i + 1;
        }
        let starting = self.super_block.data_area_size;
        let entry = FileEntry::new(padded, starting, starting + blocks, 0, 0, timestamp);
        let words = file_entry_to_words(&entry);
        let ghost entry_g = entry;
        let media = self.get_media_size();
        let index_start = self.super_block.index_start_location();
        proof {
            lemma_mul_mod4(index_start as int / 64, 64);
            vstd::arithmetic::div_mod::lemma_fundamental_div_mod(index_start as int, 64);
            assert(index_start % 64 == 0) by (nonlinear_arith)
                requires
                    index_start == sfs_media(self.super_block)
                        - self.super_block.index_area_size,
                    sfs_media(self.super_block) % 64 == 0,
                    self.super_block.index_area_size % 64 == 0,
                    0 <= self.super_block.index_area_size <= sfs_media(self.super_block),
            {}
            assert(index_start % 4 == 0);
        }
        let _ = self.ide.write_all(index_start as u32, &words, 64);
        let ghost disk1 = self.ide.disk();
        proof {
            assert(slot_words(disk1, index_start as int) =~= words@);
        }
        // the fresh starting marker in the slot below
        let mut marker = crate::zeroed_words_u32(16);
        marker[0] = 0x02;
        let _ = self.ide.write_all((index_start - ENTRY_BYTES) as u32, &marker, 64);
        self.super_block.increment_index_area_size(ENTRY_BYTES, timestamp);
        self.super_block.increment_data_area_size(blocks, timestamp);
        proof {
            let is = index_start as int;
            let disk = self.ide.disk();
            assert(slot_words(disk, is) =~= words@);
            assert(slot_words(disk, is - 64) =~= marker@);
            lemma_entry_round_trip(entry_g, slot_words(disk, is));
            assert(name_matches(
                Seq::new(30, |j: int| word_byte(slot_words(disk, is), 34 + j) as u8),
                filename@,
            )) by {
                assert(Seq::new(30, |j: int| word_byte(slot_words(disk, is), 34 + j) as u8)
                    =~= entry_g.filename@);
            }
            assert(slot_is_file(disk, is, filename@));
            assert(word_byte(slot_words(disk, is - 64), 0) == 0x02);
            assert(!slot_is_file(disk, is - 64, filename@));
            assert(sfs_index_start(self.super_block) == is - 64);
            assert(sfs_media(self.super_block) == sfs_media(old(self).super_block));
            assert(find_slot(disk, is, sfs_media(self.super_block), filename@) == Some(is));
            assert(find_slot(disk, is - 64, sfs_media(self.super_block), filename@) == Some(is));
        }
    }

    /// The write half of an append: places `content` after the file's
    /// current bytes and rewrites the 64-byte entry at `pos` with the
    /// grown length, stamped with `timestamp`.
    #[verifier::rlimit(100)]
    #[verifier::spinoff_prover]
    fn append_at_slot(&mut self, pos: u64, entry: FileEntry, content: &Vec<u32>, timestamp: u64)
        requires
            sb_wf(old(self).super_block),
            old(self).ide.disk().len() * 4 == sfs_media(old(self).super_block),
            old(self).super_block.reserved_block * pow2(
                (old(self).super_block.block_size + 7) as nat,
            ) <= u64::MAX,
            pos % 4 == 0,
            pos + 64 <= old(self).ide.disk().len() * 4,
            entry.filename@.len() == 30,
            ({
                let bsb = pow2((old(self).super_block.block_size + 7) as nat);
                let data_start = old(self).super_block.reserved_block * bsb;
                let span = (entry.ending_block - entry.starting_block) * bsb;
                &&& entry.starting_block <= entry.ending_block
                &&& entry.ending_block <= 0xFFFFFFFF
                &&& data_start <= 0xFFFFFFFF
                &&& entry.ending_block - entry.starting_block <= 0x1000000
                &&& entry.starting_block * bsb <= 0xFFFFFFFF - data_start
                &&& span <= 0xFFFFFFFF - (data_start + entry.starting_block * bsb)
                &&& data_start + entry.ending_block * bsb <= sfs_index_start(
                    old(self).super_block,
                )
                &&& sfs_index_start(old(self).super_block) <= pos
                &&& entry.length % 4 == 0
                &&& entry.length + content@.len() * 4 <= span
            }),
        ensures
            final(self).super_block == old(self).super_block,
            final(self).ide.disk().len() == old(self).ide.disk().len(),
            ({
                let disk = final(self).ide.disk();
                let nws = slot_words(disk, pos as int);
                let bsb = pow2((old(self).super_block.block_size + 7) as nat);
                let append_at = old(self).super_block.reserved_block * bsb
                    + entry.starting_block * bsb + entry.length;
                &&& word_byte(nws, 0) == FILE_ENTRY_TAG
                &&& u64_at(nws, 2) == timestamp
                &&& u64_at(nws, 10) == entry.starting_block
                &&& u64_at(nws, 18) == entry.ending_block
                &&& u64_at(nws, 26) == entry.length + content@.len() * 4
                &&& forall|j: int|
                    0 <= j < 30 ==> #[trigger] word_byte(nws, 34 + j) == entry.filename@[j]
                &&& forall|i: int|
                    0 <= i < content@.len() ==> #[trigger] disk[append_at / 4 + i] == content@[i]
                &&& forall|j: int|
                    0 <= j < disk.len() && !(append_at / 4 <= j < append_at / 4
                        + content@.len()) && !(pos / 4 <= j < pos / 4 + 16) ==> #[trigger] disk[j]
                        == old(self).ide.disk()[j]
            }),
    {
        let bsb = self.super_block.block_size_bytes();
        let data_start = self.super_block.data_start_location();
        proof {
            assert((entry.ending_block - entry.starting_block) * bsb <= 0x1000000 * 0x80000000)
                by (nonlinear_arith)
                requires
                    0 <= entry.ending_block - entry.starting_block <= 0x1000000,
                    0 <= bsb <= 0x80000000,
            {}
            assert(entry.starting_block * bsb <= 0xFFFFFFFF * 0x80000000) by (nonlinear_arith)
                requires
                    0 <= entry.starting_block <= 0xFFFFFFFF,
                    0 <= bsb <= 0x80000000,
            {}
            assert(entry.ending_block * bsb <= 0xFFFFFFFF * 0x80000000) by (nonlinear_arith)
                requires
                    0 <= entry.ending_block <= 0xFFFFFFFF,
                    0 <= bsb <= 0x80000000,
            {}
            assert(entry.starting_block * bsb + (entry.ending_block - entry.starting_block) * bsb
                == entry.ending_block * bsb) by (nonlinear_arith)
            {}
        }
        let span_bytes = (entry.ending_block - entry.starting_block) * bsb;
        let file_start = data_start + entry.starting_block * bsb;
        let append_at = file_start + entry.length;
        proof {
            lemma_pow2_mod4((self.super_block.block_size + 7) as nat);
            lemma_mul_mod4(self.super_block.reserved_block as int, bsb as int);
            lemma_mul_mod4(entry.starting_block as int, bsb as int);
            assert(append_at % 4 == 0);
        }
        let n = (content.len() as u64) * 4;
        let _ = self.ide.write_all(append_at as u32, content, n as u32);
        // rewrite the entry with the grown length
        let starting = entry.starting_block;
        let ending = entry.ending_block;
        let continuations = entry.continuations;
        let new_length = entry.length + n;
        let new_entry = FileEntry::new(
            entry.filename,
            starting,
            ending,
            new_length,
            continuations,
            timestamp,
        );
        let words = file_entry_to_words(&new_entry);
        let ghost new_entry_g = new_entry;
        let _ = self.ide.write_all(pos as u32, &words, 64);
        proof {
            let disk = self.ide.disk();
            assert(slot_words(disk, pos as int) =~= words@);
            lemma_entry_round_trip(new_entry_g, slot_words(disk, pos as int));
        }
    }

    /// Appends `content` after a file's current bytes and rewrites its
    /// entry with the grown length, stamped with `timestamp`. A file that
    /// does not exist leaves everything untouched, as the kernel only
    /// reports it. The file's geometry must be sound and end below the
    /// index area, its current length word-aligned, and the grown file
    /// must still fit its block range: overrunning the range is fatal.
    #[verifier::rlimit(100)]
    #[verifier::spinoff_prover]
    pub fn append_to_file(&mut self, filename: &Vec<u8>, content: &Vec<u32>, timestamp: u64)
        requires
            sb_wf(old(self).super_block),
            old(self).ide.disk().len() * 4 == sfs_media(old(self).super_block),
            old(self).super_block.reserved_block * pow2(
                (old(self).super_block.block_size + 7) as nat,
            ) <= u64::MAX,
            filename@.len() <= 30,
            ({
                let slot = find_slot(
                    old(self).ide.disk(),
                    sfs_index_start(old(self).super_block),
                    sfs_media(old(self).super_block),
                    filename@,
                );
                slot is Some ==> {
                    let ws = slot_words(old(self).ide.disk(), slot->Some_0);
                    let bsb = pow2((old(self).super_block.block_size + 7) as nat);
                    &&& entry_geometry_ok(old(self).super_block, old(self).ide.disk(), slot->Some_0)
                    &&& u64_at(ws, 26) % 4 == 0
                    &&& u64_at(ws, 26) + content@.len() * 4 <= (u64_at(ws, 18) - u64_at(ws, 10))
                        * bsb
                    &&& old(self).super_block.reserved_block * bsb + u64_at(ws, 18) * bsb
                        <= sfs_index_start(old(self).super_block)
                }
            }),
        ensures
            final(self).super_block == old(self).super_block,
            final(self).ide.disk().len() == old(self).ide.disk().len(),
            find_slot(
                old(self).ide.disk(),
                sfs_index_start(old(self).super_block),
                sfs_media(old(self).super_block),
                filename@,
            ) is None ==> *final(self) == *old(self),
            find_slot(
                old(self).ide.disk(),
                sfs_index_start(old(self).super_block),
                sfs_media(old(self).super_block),
                filename@,
            ) matches Some(pos) ==> ({
                let old_disk = old(self).ide.disk();
                let disk = final(self).ide.disk();
                let ws = slot_words(old_disk, pos);
                let nws = slot_words(disk, pos);
                let bsb = pow2((old(self).super_block.block_size + 7) as nat);
                let append_at = old(self).super_block.reserved_block * bsb + u64_at(ws, 10)
                    * bsb + u64_at(ws, 26);
                &&& slot_is_file(disk, pos, filename@)
                &&& u64_at(nws, 2) == timestamp
                &&& u64_at(nws, 10) == u64_at(ws, 10)
                &&& u64_at(nws, 18) == u64_at(ws, 18)
                &&& u64_at(nws, 26) == u64_at(ws, 26) + content@.len() * 4
                &&& forall|i: int|
                    0 <= i < content@.len() ==> #[trigger] disk[append_at / 4 + i] == content@[i]
            }),
    {
        match self.get_file_entry(filename) {
            Ok((entry, pos)) => {
                let ghost pos_g = pos as int;
                let ghost ws_g = slot_words(self.ide.disk(), pos_g);
                self.append_at_slot(pos, entry, content, timestamp);
                proof {
                    let disk = self.ide.disk();
                    let nws = slot_words(disk, pos_g);
                    assert(name_matches(
                        Seq::new(30, |j: int| word_byte(nws, 34 + j) as u8),
                        filename@,
                    )) by {
                        assert(Seq::new(30, |j: int| word_byte(nws, 34 + j) as u8) =~= Seq::new(
                            30,
                            |j: int| word_byte(ws_g, 34 + j) as u8,
                        ));
                    }
                    assert(slot_is_file(disk, pos_g, filename@));
                }
            },
            Err(SfsError::FileNotFound) => {
                // the file does not exist: nothing to append to
            },
            Err(_) => {
                proof {
                    assert(false);
                }
                vstd::pervasive::unreached()
            },
        }
    }

    /// Reads a file: looks its entry up in the index, reads the file's
    /// whole block range, and truncates to the stored byte length. The
    /// words returned are exactly the file's first `length / 4` words on
    /// disk.
    #[verifier::rlimit(100)]
    #[verifier::spinoff_prover]
    pub fn read_file(&self, filename: &Vec<u8>) -> (r: Result<Vec<u32>, SfsError>)
        requires
            sb_wf(self.super_block),
            self.ide.disk().len() * 4 == self.super_block.total_blocks * pow2(
                (self.super_block.block_size + 7) as nat,
            ),
            self.super_block.reserved_block * pow2((self.super_block.block_size + 7) as nat)
                <= u64::MAX,
        ensures
            ({
                let slot = find_slot(
                    self.ide.disk(),
                    sfs_index_start(self.super_block),
                    sfs_media(self.super_block),
                    filename@,
                );
                match r {
                    Ok(v) => {
                        let ws = slot_words(self.ide.disk(), slot->Some_0);
                        let bsb = pow2((self.super_block.block_size + 7) as nat);
                        let file_start = self.super_block.reserved_block * bsb + u64_at(ws, 10)
                            * bsb;
                        &&& filename@.len() <= 30
                        &&& slot is Some
                        &&& entry_geometry_ok(self.super_block, self.ide.disk(), slot->Some_0)
                        &&& slot_is_file(self.ide.disk(), slot->Some_0, filename@)
                        &&& v@.len() == u64_at(ws, 26) / 4
                        &&& forall|i: int|
                            0 <= i < v@.len() ==> #[trigger] v@[i] == self.ide.disk()[
                                file_start / 4 + i
                            ]
                    },
                    Err(e) => match e {
                        SfsError::NameTooLong => filename@.len() > 30,
                        SfsError::FileNotFound => filename@.len() <= 30 && slot is None,
                        SfsError::CorruptEntry => {
                            &&& filename@.len() <= 30
                            &&& slot is Some
                            &&& !entry_geometry_ok(self.super_block, self.ide.disk(), slot->Some_0)
                        },
                    },
                }
            }),
    {
        let media = self.get_media_size();
        match self.get_file_entry(filename) {
            Ok((entry, pos)) => {
                proof {
                    assert(slot_is_file(self.ide.disk(), pos as int, filename@));
                }
                let ghost pos_g = pos as int;
                let ghost ws_g = slot_words(self.ide.disk(), pos as int);
                let bsb = self.super_block.block_size_bytes();
                let data_start = self.super_block.data_start_location();
                // bounds checks the on-disk geometry must pass
                if entry.ending_block < entry.starting_block {
                    return Err(SfsError::CorruptEntry);
                }
                if entry.starting_block > 0xFFFFFFFF || entry.ending_block > 0xFFFFFFFF
                    || data_start > 0xFFFFFFFF {
                    return Err(SfsError::CorruptEntry);
                }
                let span_blocks = entry.ending_block - entry.starting_block;
                if span_blocks > 0x1000000 {
                    return Err(SfsError::CorruptEntry);
                }
                proof {
                    assert(span_blocks * bsb <= 0x1000000 * 0x80000000) by (nonlinear_arith)
                        requires
                            0 <= span_blocks <= 0x1000000,
                            0 <= bsb <= 0x80000000,
                    {}
                    assert(entry.starting_block * bsb <= 0xFFFFFFFF * 0x80000000)
                        by (nonlinear_arith)
                        requires
                            0 <= entry.starting_block <= 0xFFFFFFFF,
                            0 <= bsb <= 0x80000000,
                    {}
                }
                let span_bytes = span_blocks * bsb;
                let start_off = entry.starting_block * bsb;
                if start_off > 0xFFFFFFFFu64 - data_start || span_bytes > 0xFFFFFFFFu64 - (
                data_start + start_off) {
                    return Err(SfsError::CorruptEntry);
                }
                let file_start = data_start + start_off;
                if file_start + span_bytes > media {
                    return Err(SfsError::CorruptEntry);
                }
                if entry.length > span_bytes {
                    return Err(SfsError::CorruptEntry);
                }
                proof {
                    assert(entry_geometry_ok(self.super_block, self.ide.disk(), pos_g));
                }
                let span_words = (span_bytes / 4) as usize;
                let mut file_data: Vec<u32> = crate::zeroed_words_u32(span_words);
                proof {
                    lemma_pow2_mod4((self.super_block.block_size + 7) as nat);
                    lemma_mul_mod4(self.super_block.reserved_block as int, bsb as int);
                    lemma_mul_mod4(entry.starting_block as int, bsb as int);
                    lemma_mul_mod4(span_blocks as int, bsb as int);
                    assert(file_start % 4 == 0);
                    assert(span_bytes % 4 == 0);
                }
                let _n = self.ide.read_all(file_start as u32, &mut file_data, span_bytes as u32);
                file_data.truncate((entry.length / 4) as usize);
                proof {
                    assert(file_data@ =~= Seq::new(
                        (entry.length / 4) as nat,
                        |i: int| self.ide.disk()[file_start as int / 4 + i],
                    ));
                }
                return Ok(file_data);
            },
            Err(e) => {
                return Err(e);
            },
        }
    }
}

/// A multiple of a multiple of four is a multiple of four.
proof fn lemma_mul_mod4(k: int, b: int)
    requires
        0 <= k,
        0 <= b,
        b % 4 == 0,
    ensures
        (k * b) % 4 == 0,
{
    let q = b / 4;
    assert(k * b == 4 * (k * q)) by (nonlinear_arith)
        requires
            b == 4 * q,
    {}
    vstd::arithmetic::div_mod::lemma_mod_multiples_basic(k * q, 4);
}

/// Block sizes are multiples of four bytes.
proof fn lemma_pow2_mod4(n: nat)
    requires
        n >= 2,
    ensures
        pow2(n) % 4 == 0,
    decreases n,
{
    if n == 2 {
        assert(pow2(0nat) == 1);
        assert(pow2(1nat) == 2);
        assert(pow2(2nat) == 4);
    } else {
        lemma_pow2_mod4((n - 1) as nat);
        assert(pow2(n) == 2 * pow2((n - 1) as nat));
    }
}

} // verus!

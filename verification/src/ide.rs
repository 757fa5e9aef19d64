//! The block-device interface: LBA28 sector reads and writes, plus the
//! word-granular partial transfers the filesystem uses. The port-level PIO
//! driver lives outside this crate; `IDEImpl` here is the drive as the
//! driver sees it — a flat array of 32-bit words, 128 per sector.

use vstd::prelude::*;

verus! {

/// Bytes per sector.
pub const SECTOR_SIZE: u32 = 512;

/// Words per sector.
pub const SECTOR_WORDS: u32 = 128;

pub const IDE_ERR: u8 = 0x01;

pub const IDE_DRQ: u8 = 0x08;

pub const IDE_SRV: u8 = 0x10;

pub const IDE_DF: u8 = 0x20;

pub const IDE_DRDY: u8 = 0x40;

pub const IDE_BSY: u8 = 0x80;

/// Which controller a drive number selects.
pub fn controller(drive: u32) -> (r: u32)
    ensures
        r == drive as int / 2 % 2,
{
    drive / 2 % 2
}

/// Which channel of its controller a drive number selects.
pub fn channel(drive: u32) -> (r: u32)
    ensures
        r == drive as int % 2,
{
    drive % 2
}

/// The base I/O port of a drive's controller.
pub fn port(drive: u32) -> (r: u32)
    ensures
        drive as int / 2 % 2 == 0 ==> r == 0x1f0,
        drive as int / 2 % 2 == 1 ==> r == 0x170,
{
    if controller(drive) == 0 {
        0x1f0
    } else {
        0x170
    }
}

/// A drive that transfers whole sectors and word-aligned spans of bytes.
pub trait IDE: Sized {
    /// The words stored on the drive.
    spec fn disk(&self) -> Seq<u32>;

    /// Reads one sector into the front of `buffer`.
    fn read_sector(&self, sector: u32, buffer: &mut Vec<u32>)
        requires
            sector as int * 128 + 128 <= self.disk().len(),
            old(buffer)@.len() >= 128,
        ensures
            final(buffer)@.len() == old(buffer)@.len(),
            forall|i: int|
                0 <= i < 128 ==> #[trigger] final(buffer)@[i] == self.disk()[
                    sector as int * 128 + i
                ],
            forall|i: int|
                128 <= i < old(buffer)@.len() ==> #[trigger] final(buffer)@[i] == old(buffer)@[i],
    ;

    /// Writes the front of `buffer` over one sector.
    fn write_sector(&mut self, sector: u32, buffer: &Vec<u32>)
        requires
            sector as int * 128 + 128 <= old(self).disk().len(),
            buffer@.len() >= 128,
        ensures
            final(self).disk().len() == old(self).disk().len(),
            forall|j: int|
                0 <= j < old(self).disk().len() ==> #[trigger] final(self).disk()[j] == (if sector
                    as int * 128 <= j < sector as int * 128 + 128 {
                    buffer@[j - sector as int * 128]
                } else {
                    old(self).disk()[j]
                }),
    ;


    /// Reads up to `n` bytes at byte offset `offset` (both word-aligned),
    /// stopping at the end of the offset's sector, into the front of
    /// `buffer`. Returns how many bytes were read.
    fn read(&self, offset: u32, buffer: &mut Vec<u32>, n: u32) -> (r: u32)
        requires
            offset as int % 4 == 0,
            n as int % 4 == 0,
            (offset as int / 512) * 128 + 128 <= self.disk().len(),
            old(buffer)@.len() >= 128,
        ensures
            r == if offset as int % 512 + n as int > 512 {
                512 - offset as int % 512
            } else {
                n as int
            },
            r as int % 4 == 0,
            final(buffer)@.len() == old(buffer)@.len(),
            forall|i: int|
                0 <= i < r as int / 4 ==> #[trigger] final(buffer)@[i] == self.disk()[
                    offset as int / 4 + i
                ],
            forall|i: int|
                r as int / 4 <= i < old(buffer)@.len() ==> #[trigger] final(buffer)@[i] == old(
                    buffer,
                )@[i],
    ;

    /// Writes up to `n` bytes from the front of `buffer` at byte offset
    /// `offset` (both word-aligned), stopping at the end of the offset's
    /// sector. Returns how many bytes were written.
    fn write(&mut self, offset: u32, buffer: &Vec<u32>, n: u32) -> (r: u32)
        requires
            offset as int % 4 == 0,
            n as int % 4 == 0,
            (offset as int / 512) * 128 + 128 <= old(self).disk().len(),
            buffer@.len() >= 128,
        ensures
            r == if offset as int % 512 + n as int > 512 {
                512 - offset as int % 512
            } else {
                n as int
            },
            r as int % 4 == 0,
            final(self).disk().len() == old(self).disk().len(),
            forall|j: int|
                0 <= j < old(self).disk().len() ==> #[trigger] final(self).disk()[j] == (if offset
                    as int / 4 <= j < offset as int / 4 + r as int / 4 {
                    buffer@[j - offset as int / 4]
                } else {
                    old(self).disk()[j]
                }),
    ;

    /// Reads `n` bytes at byte offset `offset` (both word-aligned) into the
    /// front of `buffer`, spanning sectors as needed.
    fn read_all(&self, offset: u32, buffer: &mut Vec<u32>, n: u32) -> (r: u32)
        requires
            offset as int % 4 == 0,
            n as int % 4 == 0,
            offset + n <= self.disk().len() * 4,
            old(buffer)@.len() * 4 >= n,
        ensures
            r == n,
            final(buffer)@.len() == old(buffer)@.len(),
            forall|i: int|
                0 <= i < n as int / 4 ==> #[trigger] final(buffer)@[i] == self.disk()[
                    offset as int / 4 + i
                ],
            forall|i: int|
                n as int / 4 <= i < old(buffer)@.len() ==> #[trigger] final(buffer)@[i] == old(
                    buffer,
                )@[i],
    ;

    /// Writes `n` bytes from the front of `buffer` at byte offset `offset`
    /// (both word-aligned), spanning sectors as needed.
    fn write_all(&mut self, offset: u32, buffer: &Vec<u32>, n: u32) -> (r: u32)
        requires
            offset as int % 4 == 0,
            n as int % 4 == 0,
            offset + n <= old(self).disk().len() * 4,
            buffer@.len() * 4 >= n,
        ensures
            r == n,
            final(self).disk().len() == old(self).disk().len(),
            forall|j: int|
                0 <= j < old(self).disk().len() ==> #[trigger] final(self).disk()[j] == (if offset
                    as int / 4 <= j < offset as int / 4 + n as int / 4 {
                    buffer@[j - offset as int / 4]
                } else {
                    old(self).disk()[j]
                }),
    ;
}


/// A word-aligned transfer capped at its sector's end stays word-aligned
/// and inside the sector: the words it touches start at `offset / 4` and
/// end by the sector's last word.
proof fn lemma_offset_words(offset: int, count: int, n: int)
    requires
        0 <= offset,
        offset % 4 == 0,
        n % 4 == 0,
        0 <= n,
        count == if offset % 512 + n > 512 {
            512 - offset % 512
        } else {
            n
        },
    ensures
        count % 4 == 0,
        0 <= count,
        offset / 4 == (offset / 512) * 128 + (offset % 512) / 4,
        offset / 4 + count / 4 <= (offset / 512) * 128 + 128,
{
    let s = offset / 512;
    let st = offset % 512;
    assert(offset == 512 * s + st);
    assert(st % 4 == 0) by (nonlinear_arith)
        requires
            offset % 4 == 0,
            st == offset % 512,
            offset == 512 * s + st,
    {}
    assert(offset / 4 == 128 * s + st / 4) by (nonlinear_arith)
        requires
            offset == 512 * s + st,
            st % 4 == 0,
            0 <= st < 512,
    {}
    if st + n > 512 {
        assert(count == 512 - st);
    }
    assert(count % 4 == 0);
    assert(st / 4 + count / 4 <= 128);
}

/// The drive as the PIO driver presents it: drive number and contents.
pub struct IDEImpl {
    pub drive: u32,
    pub data: Vec<u32>,
}

impl IDEImpl {
    /// An empty drive handle.
    pub fn new(drive: u32) -> (r: IDEImpl)
        ensures
            r.drive == drive,
            r.disk().len() == 0,
    {
        IDEImpl { drive, data: Vec::new() }
    }

    /// A drive with the given contents.
    pub fn with_data(drive: u32, data: Vec<u32>) -> (r: IDEImpl)
        ensures
            r.drive == drive,
            r.disk() == data@,
    {
        IDEImpl { drive, data }
    }
}

impl IDE for IDEImpl {
    open spec fn disk(&self) -> Seq<u32> {
        self.data@
    }

    fn read_sector(&self, sector: u32, buffer: &mut Vec<u32>) {
        let _len_in_range = self.data.len();
        let base = (sector as usize) * 128;
        let mut i: usize = 0;
        while i < 128
            invariant
                base == sector as int * 128,
                base + 128 <= self.data@.len(),
                buffer@.len() == old(buffer)@.len() >= 128,
                i <= 128,
                forall|j: int| 0 <= j < i ==> #[trigger] buffer@[j] == self.data@[base + j],
                forall|j: int| i <= j < buffer@.len() ==> #[trigger] buffer@[j] == old(buffer)@[j],
            decreases 128 - i,
        {
            buffer[i] = self.data[base + i];
            i = i + 1;
        }
    }

    fn write_sector(&mut self, sector: u32, buffer: &Vec<u32>) {
        let _len_in_range = self.data.len();
        let base = (sector as usize) * 128;
        let mut i: usize = 0;
        while i < 128
            invariant
                base == sector as int * 128,
                base + 128 <= self.data@.len(),
                self.data@.len() == old(self).data@.len(),
                self.drive == old(self).drive,
                buffer@.len() >= 128,
                i <= 128,
                forall|j: int|
                    0 <= j < old(self).data@.len() ==> #[trigger] self.data@[j] == (if base <= j
                        < base + i {
                        buffer@[j - base]
                    } else {
                        old(self).data@[j]
                    }),
            decreases 128 - i,
        {
            self.data[base + i] = buffer[i];
            i = i + 1;
        }
    }


    fn read(&self, offset: u32, buffer: &mut Vec<u32>, n: u32) -> (r: u32) {
        let start = offset % 512;
        let count: u32 = if n > 512 || start + n > 512 {
            512 - start
        } else {
            n
        };
        proof {
            lemma_offset_words(offset as int, count as int, n as int);
        }
        let words = (count / 4) as usize;
        let from = (offset / 4) as usize;
        let mut i: usize = 0;
        while i < words
            invariant
                words == count as int / 4,
                from == offset as int / 4,
                from + words <= self.data@.len(),
                buffer@.len() == old(buffer)@.len() >= words,
                i <= words,
                forall|j: int| 0 <= j < i ==> #[trigger] buffer@[j] == self.data@[from + j],
                forall|j: int| i <= j < buffer@.len() ==> #[trigger] buffer@[j] == old(buffer)@[j],
            decreases words - i,
        {
            buffer[i] = self.data[from + i];
            i = i + 1;
        }
        count
    }

    fn write(&mut self, offset: u32, buffer: &Vec<u32>, n: u32) -> (r: u32) {
        let start = offset % 512;
        let count: u32 = if n > 512 || start + n > 512 {
            512 - start
        } else {
            n
        };
        proof {
            lemma_offset_words(offset as int, count as int, n as int);
        }
        let words = (count / 4) as usize;
        let from = (offset / 4) as usize;
        let mut i: usize = 0;
        while i < words
            invariant
                words == count as int / 4,
                from == offset as int / 4,
                from + words <= self.data@.len(),
                self.data@.len() == old(self).data@.len(),
                self.drive == old(self).drive,
                buffer@.len() >= words,
                i <= words,
                forall|j: int|
                    0 <= j < old(self).data@.len() ==> #[trigger] self.data@[j] == (if from <= j
                        < from + i {
                        buffer@[j - from]
                    } else {
                        old(self).data@[j]
                    }),
            decreases words - i,
        {
            self.data[from + i] = buffer[i];
            i = i + 1;
        }
        count
    }

    fn read_all(&self, offset: u32, buffer: &mut Vec<u32>, n: u32) -> (r: u32) {
        let words = (n / 4) as usize;
        let start = (offset / 4) as usize;
        let mut i: usize = 0;
        while i < words
            invariant
                words == n as int / 4,
                start == offset as int / 4,
                start + words <= self.data@.len(),
                buffer@.len() == old(buffer)@.len() >= words,
                i <= words,
                forall|j: int| 0 <= j < i ==> #[trigger] buffer@[j] == self.data@[start + j],
                forall|j: int| i <= j < buffer@.len() ==> #[trigger] buffer@[j] == old(buffer)@[j],
            decreases words - i,
        {
            buffer[i] = self.data[start + i];
            i = i + 1;
        }
        n
    }

    fn write_all(&mut self, offset: u32, buffer: &Vec<u32>, n: u32) -> (r: u32) {
        let words = (n / 4) as usize;
        let start = (offset / 4) as usize;
        let mut i: usize = 0;
        while i < words
            invariant
                words == n as int / 4,
                start == offset as int / 4,
                start + words <= self.data@.len(),
                self.data@.len() == old(self).data@.len(),
                self.drive == old(self).drive,
                buffer@.len() >= words,
                i <= words,
                forall|j: int|
                    0 <= j < old(self).data@.len() ==> #[trigger] self.data@[j] == (if start <= j
                        < start + i {
                        buffer@[j - start]
                    } else {
                        old(self).data@[j]
                    }),
            decreases words - i,
        {
            self.data[start + i] = buffer[i];
            i = i + 1;
        }
        n
    }
}

} // verus!

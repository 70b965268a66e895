//! The primary ATA disk: what the driver decides from status bytes and identify data, and how
//! sectors are packed into the 16-bit words of the data port.
use vstd::prelude::*;

verus! {

/// Status bit: the drive is busy.
pub const STATUS_BSY: u8 = 0x80;
/// Status bit: the drive is ready.
pub const STATUS_DRDY: u8 = 0x40;
/// Status bit: the drive requests data transfer.
pub const STATUS_DRQ: u8 = 0x08;
/// Status bit: the last command failed.
pub const STATUS_ERR: u8 = 0x01;

/// What a poll for the data request reports.
#[derive(Clone, Copy, PartialEq, Eq, Structural, Debug)]
pub enum DrqWait {
    Ready,
    Failed,
    Pending,
}

/// The disk on the primary channel: its size in sectors, and whether it answered.
pub struct AtaDisk {
    pub total_sectors: u32,
    pub is_available: bool,
}

/// Bytes of a sector, as the data port delivers them: each word low byte first.
pub open spec fn sector_bytes(words: Seq<u16>) -> Seq<u8> {
    Seq::new(
        2 * words.len(),
        |k: int|
            if k % 2 == 0 {
                (words[k / 2] % 256) as u8
            } else {
                (words[k / 2] / 256) as u8
            },
    )
}

/// Words of a sector for the data port: two bytes each, low byte first.
pub open spec fn sector_words(bytes: Seq<u8>) -> Seq<u16> {
    Seq::new(bytes.len() / 2, |i: int| (bytes[2 * i] + 256 * bytes[2 * i + 1]) as u16)
}

/// Packing words into bytes and back gives the words again; so does packing an even number
/// of bytes into words and back.
pub proof fn lemma_sector_roundtrip(words: Seq<u16>, bytes: Seq<u8>)
    requires
        bytes.len() % 2 == 0,
    ensures
        sector_words(sector_bytes(words)) == words,
        sector_bytes(sector_words(bytes)) == bytes,
{
    let b = sector_bytes(words);
    assert forall|i: int| 0 <= i < words.len() implies #[trigger] sector_words(b)[i] == words[i] by {
        assert((2 * i) % 2 == 0 && (2 * i) / 2 == i);
        assert((2 * i + 1) % 2 == 1 && (2 * i + 1) / 2 == i);
    }
    assert(sector_words(b) =~= words);
    let w = sector_words(bytes);
    assert forall|k: int| 0 <= k < bytes.len() implies #[trigger] sector_bytes(w)[k] == bytes[k] by {
        let i = k / 2;
        assert(0 <= i < bytes.len() / 2);
        if k % 2 == 0 {
            assert(k == 2 * i);
        } else {
            assert(k == 2 * i + 1);
        }
    }
    assert(sector_bytes(w) =~= bytes);
}

/// Whether a status byte shows the drive idle.
pub fn not_busy(status: u8) -> (r: bool)
    ensures
        r == (status < 0x80),
{
    status < STATUS_BSY
}

/// What a status byte says of the data request: an error first, then a raised request.
pub fn drq_status(status: u8) -> (r: DrqWait)
    ensures
        r == (if status % 2 == 1 {
            DrqWait::Failed
        } else if (status / 8) % 2 == 1 {
            DrqWait::Ready
        } else {
            DrqWait::Pending
        }),
{
    if status % 2 == 1 {
        DrqWait::Failed
    } else if (status / 8) % 2 == 1 {
        DrqWait::Ready
    } else {
        DrqWait::Pending
    }
}

/// The drive-head, low, mid and high LBA registers for sector `lba`: the drive-head
/// register selects the master in LBA mode and carries bits 24..28.
pub fn lba_registers(lba: u32) -> (r: [u8; 4])
    ensures
        r[0] == 0xE0 + (lba / 0x100_0000) % 16,
        r[1] == lba % 256,
        r[2] == (lba / 256) % 256,
        r[3] == (lba / 0x1_0000) % 256,
{
    [
        (0xE0 + (lba / 0x100_0000) % 16) as u8,
        (lba % 256) as u8,
        ((lba / 256) % 256) as u8,
        ((lba / 0x1_0000) % 256) as u8,
    ]
}

/// The 512 bytes of a sector read as 256 words.
pub fn sector_from_words(words: &[u16; 256]) -> (b: Vec<u8>)
    ensures
        b@ == sector_bytes(words@),
{
    let mut b: Vec<u8> = Vec::new();
    let mut i: usize = 0;
    while i < 256
        invariant
            i <= 256,
            words@.len() == 256,
            b@ == sector_bytes(words@.subrange(0, i as int)),
        decreases 256 - i,
    {
        let w = words[i];
        b.push((w % 256) as u8);
        b.push((w / 256) as u8);
        proof {
            let s = words@.subrange(0, i + 1);
            assert forall|k: int| 0 <= k < 2 * (i + 1) implies #[trigger] b@[k] == sector_bytes(s)[k] by {
                if k < 2 * i {
                    assert(s[k / 2] == words@.subrange(0, i as int)[k / 2]);
                }
            }
            assert(b@ =~= sector_bytes(s));
        }
        i += 1;
    }
    assert(words@.subrange(0, 256) =~= words@);
    b
}

/// The 256 words that carry the 512 bytes of a sector.
pub fn words_from_sector(bytes: &[u8; 512]) -> (w: Vec<u16>)
    ensures
        w@ == sector_words(bytes@),
{
    let mut w: Vec<u16> = Vec::new();
    let mut i: usize = 0;
    while i < 256
        invariant
            i <= 256,
            bytes@.len() == 512,
            w@.len() == i,
            forall|j: int| 0 <= j < i ==> #[trigger] w@[j] == (bytes@[2 * j] + 256 * bytes@[2 * j + 1]) as u16,
        decreases 256 - i,
    {
        let lo = bytes[2 * i] as u16;
        let hi = bytes[2 * i + 1] as u16;
        w.push(lo + 256 * hi);
        i += 1;
    }
    assert(w@ =~= sector_words(bytes@));
    w
}

impl AtaDisk {
    pub fn new() -> (d: Self)
        ensures
            d.total_sectors == 0 && !d.is_available,
    {
        AtaDisk { total_sectors: 0, is_available: false }
    }

    /// Whether the status read after IDENTIFY shows a drive (neither 0 nor 0xFF).
    pub fn drive_present(status: u8) -> (r: bool)
        ensures
            r == (status != 0 && status != 0xFF),
    {
        status != 0 && status != 0xFF
    }

    /// Takes the capacity from the IDENTIFY words (60 and 61, low word first) and marks the
    /// disk available.
    pub fn record_identify(&mut self, info: &[u16; 256])
        ensures
            final(self).total_sectors == info@[60] + 0x1_0000 * info@[61],
            final(self).is_available,
    {
        self.total_sectors = info[60] as u32 + 0x1_0000 * (info[61] as u32);
        self.is_available = true;
    }
}


/// The data port carries each word low byte first: bytes `2i` and `2i + 1` of a sector are
/// the low and the high byte of word `i` (so word 0x1234 is sent as 34 12).
pub proof fn lemma_sector_little_endian(words: Seq<u16>, i: int)
    requires
        0 <= i < words.len(),
    ensures
        sector_bytes(words).len() == 2 * words.len(),
        sector_bytes(words)[2 * i] == words[i] % 256,
        sector_bytes(words)[2 * i + 1] == words[i] / 256,
        sector_words(seq![0x34u8, 0x12u8]) == seq![0x1234u16],
{
    assert((2 * i) % 2 == 0 && (2 * i) / 2 == i);
    assert((2 * i + 1) % 2 == 1 && (2 * i + 1) / 2 == i);
    assert(sector_words(seq![0x34u8, 0x12u8]) =~= seq![0x1234u16]);
}

} // verus!

//! Waveform (RIFF/WAVE) header parsing over raw bytes.
//!
//! The parser walks the RIFF chunk list: it remembers the most recent format
//! chunk and stops at the data chunk, handing back the header, the byte
//! length the data chunk declares, and the offset where the data bytes
//! start.

use vstd::prelude::*;

verus! {

/// Format of the samples in the data chunk, from the format chunk's tag.
#[derive(Clone, Copy, Debug, PartialEq, Eq, Structural)]
pub enum WaveFormat {
    /// Integer PCM samples (tag 0x0001).
    PCM,
    /// IEEE floating-point samples (tag 0x0003).
    Float,
    /// A-law companded samples (tag 0x0006).
    G711A,
    /// Mu-law companded samples (tag 0x0007).
    G711U,
}

/// Header data contained in the format chunk.
#[derive(Clone, Copy, Debug, PartialEq, Eq, Structural)]
pub struct WaveHeader {
    pub audio_format: WaveFormat,
    pub channels: u16,
    pub sample_rate: u32,
    pub byte_rate: u32,
    pub block_align: u16,
    pub bits_per_sample: u16,
}

/// Why parsing stopped without a header.
#[derive(Clone, Copy, Debug, PartialEq, Eq, Structural)]
pub enum WaveError {
    /// The bytes end before the structure they promise.
    UnexpectedEof,
    /// The bytes are not a RIFF/WAVE stream with a known format.
    InvalidData,
}

/// The 16-bit little-endian integer at `off`.
pub open spec fn le16(b: Seq<u8>, off: int) -> int {
    b[off] + 0x100 * b[off + 1]
}

/// The 32-bit little-endian integer at `off`.
pub open spec fn le32(b: Seq<u8>, off: int) -> int {
    b[off] + 0x100 * b[off + 1] + 0x10000 * b[off + 2] + 0x1000000 * b[off + 3]
}

/// The sample format a format tag names, if any.
pub open spec fn format_of_tag(tag: int) -> Option<WaveFormat> {
    if tag == 0x0001 {
        Some(WaveFormat::PCM)
    } else if tag == 0x0003 {
        Some(WaveFormat::Float)
    } else if tag == 0x0006 {
        Some(WaveFormat::G711A)
    } else if tag == 0x0007 {
        Some(WaveFormat::G711U)
    } else {
        None
    }
}

/// The header encoded by the sixteen format-chunk bytes at `off`, if the
/// format tag is known.
pub open spec fn header_at(b: Seq<u8>, off: int) -> Option<WaveHeader> {
    match format_of_tag(le16(b, off)) {
        None => None,
        Some(f) => Some(
            WaveHeader {
                audio_format: f,
                channels: le16(b, off + 2) as u16,
                sample_rate: le32(b, off + 4) as u32,
                byte_rate: le32(b, off + 8) as u32,
                block_align: le16(b, off + 12) as u16,
                bits_per_sample: le16(b, off + 14) as u16,
            },
        ),
    }
}

/// The four bytes at `off` spell the format chunk id, `fmt `.
pub open spec fn is_fmt_id(b: Seq<u8>, off: int) -> bool {
    b[off] == 0x66u8 && b[off + 1] == 0x6Du8 && b[off + 2] == 0x74u8 && b[off + 3] == 0x20u8
}

/// The four bytes at `off` spell the data chunk id, `data`.
pub open spec fn is_data_id(b: Seq<u8>, off: int) -> bool {
    b[off] == 0x64u8 && b[off + 1] == 0x61u8 && b[off + 2] == 0x74u8 && b[off + 3] == 0x61u8
}

/// Walk the chunk list from `off`, carrying the last format header seen.
/// At the data chunk the walk ends: with the header, the declared data
/// length and the offset of the data bytes — or with an error if no format
/// chunk came first, a format chunk is malformed, or the bytes run out.
pub open spec fn spec_parse_chunks(b: Seq<u8>, off: int, fmt: Option<WaveHeader>) -> Result<
    (WaveHeader, int, int),
    WaveError,
>
    decreases b.len() - off,
{
    if off + 8 > b.len() {
        Err(WaveError::UnexpectedEof)
    } else {
        let size = le32(b, off + 4);
        if is_data_id(b, off) {
            match fmt {
                Some(h) => Ok((h, size, off + 8)),
                None => Err(WaveError::InvalidData),
            }
        } else if is_fmt_id(b, off) {
            if size < 16 {
                Err(WaveError::InvalidData)
            } else if off + 8 + 16 > b.len() {
                Err(WaveError::UnexpectedEof)
            } else {
                match header_at(b, off + 8) {
                    None => Err(WaveError::InvalidData),
                    Some(h) => if off + 8 + size > b.len() {
                        Err(WaveError::UnexpectedEof)
                    } else {
                        spec_parse_chunks(b, off + 8 + size, Some(h))
                    },
                }
            }
        } else {
            if off + 8 + size > b.len() {
                Err(WaveError::UnexpectedEof)
            } else {
                spec_parse_chunks(b, off + 8 + size, fmt)
            }
        }
    }
}

/// What `parse` yields on the given bytes: after the twelve-byte RIFF/WAVE
/// preamble, the chunk walk.
pub open spec fn spec_parse_wave(b: Seq<u8>) -> Result<(WaveHeader, int, int), WaveError> {
    if b.len() < 12 {
        Err(WaveError::UnexpectedEof)
    } else if !(b[0] == 0x52u8 && b[1] == 0x49u8 && b[2] == 0x46u8 && b[3] == 0x46u8 && b[8]
        == 0x57u8 && b[9] == 0x41u8 && b[10] == 0x56u8 && b[11] == 0x45u8) {
        Err(WaveError::InvalidData)
    } else {
        spec_parse_chunks(b, 12, None)
    }
}

impl WaveFormat {
    /// The format a tag names; an unknown tag is refused.
    pub fn from_tag(tag: u16) -> (r: Result<WaveFormat, ()>)
        ensures
            match format_of_tag(tag as int) {
                Some(f) => r == Ok::<WaveFormat, ()>(f),
                None => r is Err,
            },
    {
        match tag {
            0x0001 => Ok(WaveFormat::PCM),
            0x0003 => Ok(WaveFormat::Float),
            0x0006 => Ok(WaveFormat::G711A),
            0x0007 => Ok(WaveFormat::G711U),
            _ => Err(()),
        }
    }
}

/// The 16-bit little-endian integer at `off`.
fn read_le16(data: &Vec<u8>, off: usize) -> (r: u16)
    requires
        off + 2 <= data@.len(),
    ensures
        r as int == le16(data@, off as int),
{
    let _len = data.len();
    let b0 = data[off];
    let b1 = data[off + 1];
    let v: u32 = (b0 as u32) + 0x100u32 * (b1 as u32);
    v as u16
}

/// The 32-bit little-endian integer at `off`.
fn read_le32(data: &Vec<u8>, off: usize) -> (r: u32)
    requires
        off + 4 <= data@.len(),
    ensures
        r as int == le32(data@, off as int),
{
    let _len = data.len();
    let b0 = data[off];
    let b1 = data[off + 1];
    let b2 = data[off + 2];
    let b3 = data[off + 3];
    let v: u64 = (b0 as u64) + 0x100u64 * (b1 as u64) + 0x10000u64 * (b2 as u64) + 0x1000000u64
        * (b3 as u64);
    v as u32
}

/// Parse a RIFF/WAVE stream: its format header, the length the data chunk
/// declares, and the offset at which the data bytes start.
#[verifier::loop_isolation(false)]
pub fn parse(data: &Vec<u8>) -> (r: Result<(WaveHeader, usize, usize), WaveError>)
    ensures
        match spec_parse_wave(data@) {
            Ok(t) => r matches Ok(u) && u.0 == t.0 && u.1 as int == t.1 && u.2 as int == t.2,
            Err(e) => r matches Err(e2) && e2 == e,
        },
{
    if data.len() < 12 {
        return Err(WaveError::UnexpectedEof);
    }
    if !(data[0] == 0x52 && data[1] == 0x49 && data[2] == 0x46 && data[3] == 0x46 && data[8]
        == 0x57 && data[9] == 0x41 && data[10] == 0x56 && data[11] == 0x45) {
        return Err(WaveError::InvalidData);
    }
    let mut off: usize = 12;
    let mut fmt: Option<WaveHeader> = None;
    loop
        invariant
            12 <= off <= data@.len(),
            spec_parse_wave(data@) == spec_parse_chunks(data@, off as int, fmt),
        decreases data@.len() - off,
    {
        if data.len() - off < 8 {
            return Err(WaveError::UnexpectedEof);
        }
        let size = read_le32(data, off + 4);
        let is_data = data[off] == 0x64 && data[off + 1] == 0x61 && data[off + 2] == 0x74
            && data[off + 3] == 0x61;
        let is_fmt = data[off] == 0x66 && data[off + 1] == 0x6D && data[off + 2] == 0x74
            && data[off + 3] == 0x20;
        if is_data {
            match fmt {
                Some(h) => {
                    return Ok((h, size as usize, off + 8));
                },
                None => {
                    return Err(WaveError::InvalidData);
                },
            }
        } else if is_fmt {
            if size < 16 {
                return Err(WaveError::InvalidData);
            }
            if data.len() - (off + 8) < 16 {
                return Err(WaveError::UnexpectedEof);
            }
            let tag = read_le16(data, off + 8);
            let format = match WaveFormat::from_tag(tag) {
                Ok(f) => f,
                Err(_) => {
                    return Err(WaveError::InvalidData);
                },
            };
            let h = WaveHeader {
                audio_format: format,
                channels: read_le16(data, off + 10),
                sample_rate: read_le32(data, off + 12),
                byte_rate: read_le32(data, off + 16),
                block_align: read_le16(data, off + 20),
                bits_per_sample: read_le16(data, off + 22),
            };
            let remaining = data.len() - (off + 8);
            if size as usize > remaining {
                return Err(WaveError::UnexpectedEof);
            }
            proof {
                assert(header_at(data@, off as int + 8) == Some(h));
            }
            off = off + 8 + size as usize;
            fmt = Some(h);
        } else {
            let remaining = data.len() - (off + 8);
            if size as usize > remaining {
                return Err(WaveError::UnexpectedEof);
            }
            off = off + 8 + size as usize;
        }
    }
}

} // verus!

use gm8core::sound::{classify, SoundKind};
use gm8core::wave::{parse, WaveError, WaveFormat};

fn le16(v: u16) -> [u8; 2] {
    v.to_le_bytes()
}

fn le32(v: u32) -> [u8; 4] {
    v.to_le_bytes()
}

/// A RIFF/WAVE stream with one format chunk and one data chunk.
fn wav_bytes(tag: u16, data: &[u8]) -> Vec<u8> {
    let mut b = Vec::new();
    b.extend_from_slice(b"RIFF");
    b.extend_from_slice(&le32(0)); // declared file size; the parser ignores it
    b.extend_from_slice(b"WAVE");
    b.extend_from_slice(b"fmt ");
    b.extend_from_slice(&le32(16));
    b.extend_from_slice(&le16(tag));
    b.extend_from_slice(&le16(2)); // channels
    b.extend_from_slice(&le32(44100)); // sample rate
    b.extend_from_slice(&le32(176400)); // byte rate
    b.extend_from_slice(&le16(4)); // block align
    b.extend_from_slice(&le16(16)); // bits per sample
    b.extend_from_slice(b"data");
    b.extend_from_slice(&le32(data.len() as u32));
    b.extend_from_slice(data);
    b
}

#[test]
fn parse_pcm_header() {
    let data = [1u8, 2, 3, 4, 5, 6];
    let bytes = wav_bytes(0x0001, &data);
    let (header, len, off) = parse(&bytes).unwrap();
    assert_eq!(header.audio_format, WaveFormat::PCM);
    assert_eq!(header.channels, 2);
    assert_eq!(header.sample_rate, 44100);
    assert_eq!(header.byte_rate, 176400);
    assert_eq!(header.block_align, 4);
    assert_eq!(header.bits_per_sample, 16);
    assert_eq!(len, data.len());
    assert_eq!(&bytes[off..off + len], &data);
}

#[test]
fn parse_float_header() {
    let (header, _, _) = parse(&wav_bytes(0x0003, &[])).unwrap();
    assert_eq!(header.audio_format, WaveFormat::Float);
}

#[test]
fn parse_skips_unknown_chunks() {
    let mut b = Vec::new();
    b.extend_from_slice(b"RIFF");
    b.extend_from_slice(&le32(0));
    b.extend_from_slice(b"WAVE");
    // an unrelated chunk before the format chunk
    b.extend_from_slice(b"LIST");
    b.extend_from_slice(&le32(3));
    b.extend_from_slice(&[9, 9, 9]);
    b.extend_from_slice(b"fmt ");
    b.extend_from_slice(&le32(16));
    b.extend_from_slice(&le16(0x0006));
    b.extend_from_slice(&le16(1));
    b.extend_from_slice(&le32(8000));
    b.extend_from_slice(&le32(8000));
    b.extend_from_slice(&le16(1));
    b.extend_from_slice(&le16(8));
    b.extend_from_slice(b"data");
    b.extend_from_slice(&le32(2));
    b.extend_from_slice(&[0, 0]);
    let (header, len, _) = parse(&b).unwrap();
    assert_eq!(header.audio_format, WaveFormat::G711A);
    assert_eq!(header.channels, 1);
    assert_eq!(len, 2);
}

#[test]
fn parse_too_short_is_eof() {
    assert_eq!(parse(&b"RIFF".to_vec()), Err(WaveError::UnexpectedEof));
}

#[test]
fn parse_bad_magic_is_invalid() {
    let mut b = wav_bytes(0x0001, &[]);
    b[0] = b'X';
    assert_eq!(parse(&b), Err(WaveError::InvalidData));
    let mut b2 = wav_bytes(0x0001, &[]);
    b2[8] = b'X';
    assert_eq!(parse(&b2), Err(WaveError::InvalidData));
}

#[test]
fn parse_data_before_fmt_is_invalid() {
    let mut b = Vec::new();
    b.extend_from_slice(b"RIFF");
    b.extend_from_slice(&le32(0));
    b.extend_from_slice(b"WAVE");
    b.extend_from_slice(b"data");
    b.extend_from_slice(&le32(0));
    assert_eq!(parse(&b), Err(WaveError::InvalidData));
}

#[test]
fn parse_unknown_format_tag_is_invalid() {
    assert_eq!(parse(&wav_bytes(0x1234, &[])), Err(WaveError::InvalidData));
}

#[test]
fn parse_short_fmt_chunk_is_invalid() {
    let mut b = Vec::new();
    b.extend_from_slice(b"RIFF");
    b.extend_from_slice(&le32(0));
    b.extend_from_slice(b"WAVE");
    b.extend_from_slice(b"fmt ");
    b.extend_from_slice(&le32(8)); // shorter than a format chunk can be
    b.extend_from_slice(&[0; 8]);
    assert_eq!(parse(&b), Err(WaveError::InvalidData));
}

#[test]
fn parse_truncated_chunk_is_eof() {
    let mut b = Vec::new();
    b.extend_from_slice(b"RIFF");
    b.extend_from_slice(&le32(0));
    b.extend_from_slice(b"WAVE");
    b.extend_from_slice(b"LIST");
    b.extend_from_slice(&le32(100)); // promises more bytes than there are
    b.extend_from_slice(&[1, 2, 3]);
    assert_eq!(parse(&b), Err(WaveError::UnexpectedEof));
}

#[test]
fn format_tags_map_exactly() {
    assert_eq!(WaveFormat::from_tag(0x0001), Ok(WaveFormat::PCM));
    assert_eq!(WaveFormat::from_tag(0x0003), Ok(WaveFormat::Float));
    assert_eq!(WaveFormat::from_tag(0x0006), Ok(WaveFormat::G711A));
    assert_eq!(WaveFormat::from_tag(0x0007), Ok(WaveFormat::G711U));
    assert_eq!(WaveFormat::from_tag(0x0002), Err(()));
    assert_eq!(WaveFormat::from_tag(0xFFFE), Err(()));
}

#[test]
fn classify_by_magic_bytes() {
    assert_eq!(classify(&vec![0xFF, 0xFF, 0x00]), SoundKind::Mp3);
    assert_eq!(classify(&wav_bytes(1, &[])), SoundKind::Wav);
    assert_eq!(classify(&b"MThd".to_vec()), SoundKind::Mid);
    assert_eq!(classify(&vec![0x00, 0x01]), SoundKind::Unknown);
    assert_eq!(classify(&vec![0xFF]), SoundKind::Unknown);
    assert_eq!(classify(&Vec::new()), SoundKind::Unknown);
}

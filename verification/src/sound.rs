//! Sound data classification: which decoder a sound's bytes call for, read
//! from the leading magic bytes. Decoding itself (and the audio mixer) is
//! outside this library.

use vstd::prelude::*;

verus! {

/// A handle to pass back when playing a loaded sound.
#[derive(Clone, Copy, Debug, PartialEq, Eq, Structural)]
pub struct SoundHandle(pub usize);

/// The container format a sound file's bytes announce.
#[derive(Clone, Copy, Debug, PartialEq, Eq, Structural)]
pub enum SoundKind {
    /// An MPEG audio stream.
    Mp3,
    /// A RIFF/WAVE file.
    Wav,
    /// A MIDI file; unsupported by the player.
    Mid,
    /// Anything else.
    Unknown,
}

/// The kind the first two bytes announce.
pub open spec fn kind_of(b: Seq<u8>) -> SoundKind {
    if b.len() < 2 {
        SoundKind::Unknown
    } else if b[0] == 0xFFu8 && b[1] == 0xFFu8 {
        SoundKind::Mp3
    } else if b[0] == 0x52u8 && b[1] == 0x49u8 {
        SoundKind::Wav
    } else if b[0] == 0x4Du8 && b[1] == 0x54u8 {
        SoundKind::Mid
    } else {
        SoundKind::Unknown
    }
}

/// An append-only registry of loaded sounds: each sound added receives the
/// next handle in sequence, and a handle resolves to exactly the sound it
/// was handed out for. The host wraps it in whatever synchronization and
/// decoding machinery playback needs.
pub struct SoundBank<T> {
    pub sounds: Vec<T>,
}

impl<T> SoundBank<T> {
    /// An empty registry.
    pub fn new() -> (r: Self)
        ensures
            r.sounds@.len() == 0,
    {
        SoundBank { sounds: Vec::new() }
    }

    /// Register a sound: it is appended, and the returned handle indexes
    /// exactly it.
    pub fn add(&mut self, sound: T) -> (r: SoundHandle)
        requires
            old(self).sounds@.len() < usize::MAX,
        ensures
            final(self).sounds@ == old(self).sounds@.push(sound),
            r.0 == old(self).sounds@.len(),
    {
        let idx = self.sounds.len();
        self.sounds.push(sound);
        SoundHandle(idx)
    }

    /// Resolve a handle to the sound it was handed out for.
    pub fn get(&self, h: SoundHandle) -> (r: Option<&T>)
        ensures
            match r {
                Some(s) => h.0 < self.sounds@.len() && *s == self.sounds@[h.0 as int],
                None => h.0 >= self.sounds@.len(),
            },
    {
        if h.0 < self.sounds.len() {
            Some(&self.sounds[h.0])
        } else {
            None
        }
    }

    /// How many sounds are registered.
    pub fn len(&self) -> (r: usize)
        ensures
            r == self.sounds@.len(),
    {
        self.sounds.len()
    }
}

/// Classify a sound file by its leading bytes.
pub fn classify(data: &Vec<u8>) -> (r: SoundKind)
    ensures
        r == kind_of(data@),
{
    if data.len() < 2 {
        SoundKind::Unknown
    } else if data[0] == 0xFF && data[1] == 0xFF {
        SoundKind::Mp3
    } else if data[0] == 0x52 && data[1] == 0x49 {
        SoundKind::Wav
    } else if data[0] == 0x4D && data[1] == 0x54 {
        SoundKind::Mid
    } else {
        SoundKind::Unknown
    }
}

} // verus!

//! The layout of an MDX file: title, PDX name, and the offset table that locates the tone data
//! and each track.
use vstd::prelude::*;

use crate::text::{decimal, hex_min, push_decimal, push_hex_min, push_str};

verus! {

/// A big-endian 16-bit word at `at`.
pub open spec fn word_at(bytes: Seq<u8>, at: int) -> int {
    bytes[at] * 256 + bytes[at + 1]
}

/// The title ends with the bytes `0x0d 0x0a 0x1a`; this is the first such position at or after
/// `from`.
pub open spec fn title_end_from(bytes: Seq<u8>, from: int) -> Option<int>
    decreases bytes.len() - from,
{
    if from < 0 || from + 3 > bytes.len() {
        None
    } else if bytes[from] == 0x0d && bytes[from + 1] == 0x0a && bytes[from + 2] == 0x1a {
        Some(from)
    } else {
        title_end_from(bytes, from + 1)
    }
}

/// The PDX name ends with a zero byte; this is the first one at or after `from`.
pub open spec fn zero_from(bytes: Seq<u8>, from: int) -> Option<int>
    decreases bytes.len() - from,
{
    if from < 0 || from >= bytes.len() {
        None
    } else if bytes[from] == 0 {
        Some(from)
    } else {
        zero_from(bytes, from + 1)
    }
}

/// Why bytes do not hold an MDX layout.
#[derive(Clone, Copy, Debug, PartialEq, Eq, Structural)]
pub enum MdxLayoutError {
    /// No `0x0d 0x0a 0x1a` ends the title.
    MissingTitleEnd,
    /// No zero byte ends the PDX name.
    MissingPdxNameEnd,
    /// The offset table starting at `base_offset` runs past the end of the bytes.
    TruncatedTable { base_offset: usize, length: usize },
}

/// The number of tracks: sixteen when the first track starts past a sixteen-track table
/// (34 bytes from the base), nine otherwise.
pub open spec fn track_count_for(first_track_offset: int) -> int {
    if first_track_offset >= 34 {
        16
    } else {
        9
    }
}

/// The base offset of an MDX file, or why it has none: the position after the PDX name's zero.
pub open spec fn layout_base(bytes: Seq<u8>) -> Result<int, MdxLayoutError> {
    match title_end_from(bytes, 0) {
        None => Err(MdxLayoutError::MissingTitleEnd),
        Some(title_end) => match zero_from(bytes, title_end + 3) {
            None => Err(MdxLayoutError::MissingPdxNameEnd),
            Some(zero) => Ok(zero + 1),
        },
    }
}

/// An MDX file's layout: the base offset, the tone-data offset and the track offsets, the
/// offsets relative to the base.
#[derive(Clone, Debug)]
pub struct MdxLayout {
    pub base_offset: usize,
    pub tone_offset: u16,
    pub track_offsets: Vec<u16>,
}

impl MdxLayout {
    /// The layout of `bytes` exactly as they hold it.
    pub open spec fn describes(self, bytes: Seq<u8>) -> bool {
        &&& layout_base(bytes) == Ok::<int, MdxLayoutError>(self.base_offset as int)
        &&& self.base_offset + 4 <= bytes.len()
        &&& self.tone_offset == word_at(bytes, self.base_offset as int)
        &&& self.track_offsets@.len() == track_count_for(word_at(bytes, self.base_offset + 2))
        &&& self.base_offset + 2 + 2 * self.track_offsets@.len() <= bytes.len()
        &&& forall|t: int|
            0 <= t < self.track_offsets@.len() ==> #[trigger] self.track_offsets@[t] == word_at(
                bytes,
                self.base_offset + 2 + 2 * t,
            )
    }

    /// The number of tracks in the table.
    pub fn track_count(&self) -> (n: usize)
        ensures
            n == self.track_offsets@.len(),
    {
        self.track_offsets.len()
    }

    /// The absolute position of a track, when it lies inside the bytes.
    pub fn track_position(&self, track: usize, length: usize) -> (r: Option<usize>)
        ensures
            r == (if track < self.track_offsets@.len() && self.base_offset
                + self.track_offsets@[track as int] < length {
                Some((self.base_offset + self.track_offsets@[track as int]) as usize)
            } else {
                None::<usize>
            }),
    {
        if track < self.track_offsets.len() {
            let offset = self.track_offsets[track] as usize;
            if self.base_offset < length && offset < length - self.base_offset {
                return Some(self.base_offset + offset);
            }
        }
        None
    }
}

fn find_title_end(bytes: &[u8]) -> (r: Option<usize>)
    ensures
        r == (match title_end_from(bytes@, 0) {
            Some(at) => Some(at as usize),
            None => None::<usize>,
        }),
{
    let mut at: usize = 0;
    while at < bytes.len() && bytes.len() - at >= 3
        invariant
            at <= bytes@.len(),
            title_end_from(bytes@, 0) == title_end_from(bytes@, at as int),
        decreases bytes@.len() - at,
    {
        if bytes[at] == 0x0d && bytes[at + 1] == 0x0a && bytes[at + 2] == 0x1a {
            return Some(at);
        }
        at += 1;
    }
    None
}

fn find_zero(bytes: &[u8], from: usize) -> (r: Option<usize>)
    ensures
        r == (match zero_from(bytes@, from as int) {
            Some(at) => Some(at as usize),
            None => None::<usize>,
        }),
{
    let mut at = from;
    while at < bytes.len()
        invariant
            from <= at,
            zero_from(bytes@, from as int) == zero_from(bytes@, at as int),
        decreases bytes@.len() - at,
    {
        if bytes[at] == 0 {
            return Some(at);
        }
        at += 1;
    }
    None
}

proof fn lemma_zero_from_bound(bytes: Seq<u8>, from: int)
    ensures
        zero_from(bytes, from) matches Some(at) ==> from <= at < bytes.len(),
    decreases bytes.len() - from,
{
    if from >= 0 && from < bytes.len() && bytes[from] != 0 {
        lemma_zero_from_bound(bytes, from + 1);
    }
}

proof fn lemma_title_end_bound(bytes: Seq<u8>, from: int)
    ensures
        title_end_from(bytes, from) matches Some(at) ==> from <= at && at + 3 <= bytes.len(),
    decreases bytes.len() - from,
{
    if from >= 0 && from + 3 <= bytes.len() && !(bytes[from] == 0x0d && bytes[from + 1] == 0x0a
        && bytes[from + 2] == 0x1a) {
        lemma_title_end_bound(bytes, from + 1);
    }
}

/// Read the layout of an MDX file.
pub fn parse_layout(bytes: &[u8]) -> (r: Result<MdxLayout, MdxLayoutError>)
    ensures
        match r {
            Ok(layout) => layout.describes(bytes@),
            Err(error) => match layout_base(bytes@) {
                Err(base_error) => error == base_error,
                Ok(base) => error == MdxLayoutError::TruncatedTable {
                    base_offset: base as usize,
                    length: bytes@.len() as usize,
                } && (base + 4 > bytes@.len() || base + 2 + 2 * track_count_for(
                    word_at(bytes@, base + 2),
                ) > bytes@.len()),
            },
        },
{
    let length = bytes.len();
    proof {
        lemma_title_end_bound(bytes@, 0);
    }
    let title_end = match find_title_end(bytes) {
        Some(at) => at,
        None => return Err(MdxLayoutError::MissingTitleEnd),
    };
    proof {
        lemma_zero_from_bound(bytes@, title_end + 3);
    }
    let zero = match find_zero(bytes, title_end + 3) {
        Some(at) => at,
        None => return Err(MdxLayoutError::MissingPdxNameEnd),
    };
    let base = zero + 1;
    if bytes.len() - base < 4 {
        return Err(MdxLayoutError::TruncatedTable { base_offset: base, length: bytes.len() });
    }
    let tone_offset = bytes[base] as u16 * 256 + bytes[base + 1] as u16;
    let first_track = bytes[base + 2] as u16 * 256 + bytes[base + 3] as u16;
    let count: usize = if first_track >= 34 {
        16
    } else {
        9
    };
    if bytes.len() - base - 2 < 2 * count {
        return Err(MdxLayoutError::TruncatedTable { base_offset: base, length: bytes.len() });
    }
    let mut track_offsets: Vec<u16> = Vec::new();
    let mut track: usize = 0;
    while track < count
        invariant
            track <= count,
            count == 9 || count == 16,
            length == bytes@.len(),
            base + 2 + 2 * count <= bytes@.len(),
            track_offsets@.len() == track,
            forall|t: int|
                0 <= t < track ==> #[trigger] track_offsets@[t] == word_at(
                    bytes@,
                    base + 2 + 2 * t,
                ),
        decreases count - track,
    {
        let at = base + 2 + 2 * track;
        track_offsets.push(bytes[at] as u16 * 256 + bytes[at + 1] as u16);
        track += 1;
    }
    Ok(MdxLayout { base_offset: base, tone_offset, track_offsets })
}

/// The human-readable description of a layout error.
pub open spec fn layout_error_text(error: MdxLayoutError) -> Seq<char> {
    match error {
        MdxLayoutError::MissingTitleEnd => "MDX title is not terminated by 0x0d 0x0a 0x1a"@,
        MdxLayoutError::MissingPdxNameEnd => "MDX PDX name is not terminated by 0x00"@,
        MdxLayoutError::TruncatedTable { base_offset, length } => "MDX offset table at 0x"@
            + hex_min(base_offset as nat, 6) + " runs past the end of the data ("@ + decimal(
            length as nat,
        ) + " bytes)"@,
    }
}

impl MdxLayoutError {
    /// The human-readable description of this error.
    pub fn message(&self) -> (text: String)
        ensures
            text@ == layout_error_text(*self),
    {
        let mut text = String::new();
        match self {
            MdxLayoutError::MissingTitleEnd => {
                push_str(&mut text, "MDX title is not terminated by 0x0d 0x0a 0x1a");
            },
            MdxLayoutError::MissingPdxNameEnd => {
                push_str(&mut text, "MDX PDX name is not terminated by 0x00");
            },
            MdxLayoutError::TruncatedTable { base_offset, length } => {
                push_str(&mut text, "MDX offset table at 0x");
                push_hex_min(&mut text, *base_offset as u64, 6);
                push_str(&mut text, " runs past the end of the data (");
                push_decimal(&mut text, *length as u64);
                push_str(&mut text, " bytes)");
            },
        }
        text
    }
}

} // verus!

//! Compatibility helpers for non-standard MDX layouts.
//!
//! Some MDX files (MXDRV16y) start a track with a forward `0xf1` jump to the real command data.
//! Normalization rewrites only the offset table so that each such track points at its target; the
//! command data is left as it is.
use vstd::prelude::*;

use crate::mdx_model::command::{decode_command, parse_mdx_command, MdxCommand};
use crate::mdx_model::layout::{layout_base, parse_layout, track_count_for, word_at, MdxLayout};
use crate::text::{decimal, push_decimal, push_hex_min, push_str};

verus! {

/// What a track's first command asks of the normalization: `Ok(Some(target))` for a forward
/// `0xf1` jump to `target`, `Ok(None)` to leave the track, `Err(())` when the command cannot be
/// read or jumps outside the bytes.
pub open spec fn stub_target(bytes: Seq<u8>, base: int, offset: int) -> Result<Option<int>, ()> {
    let position = base + offset;
    if position >= bytes.len() {
        Ok(None)
    } else {
        match decode_command(bytes, position) {
            Err(_) => Err(()),
            Ok((command, length)) => match command {
                MdxCommand::EndOfTrackLoop(jump) => if jump.offset > 0 {
                    let target = position + length + jump.offset;
                    if target < bytes.len() {
                        Ok(Some(target))
                    } else {
                        Err(())
                    }
                } else {
                    Ok(None)
                },
                _ => Ok(None),
            },
        }
    }
}

/// The offset of track `t` in the table at `base`.
pub open spec fn track_offset(bytes: Seq<u8>, base: int, t: int) -> int {
    word_at(bytes, base + 2 + 2 * t)
}

/// The number of tracks in the table at `base`.
pub open spec fn table_tracks(bytes: Seq<u8>, base: int) -> int {
    track_count_for(word_at(bytes, base + 2))
}

/// The bytes hold a complete offset table.
pub open spec fn table_ok(bytes: Seq<u8>, base: int) -> bool {
    base + 4 <= bytes.len() && base + 2 + 2 * table_tracks(bytes, base) <= bytes.len()
}

/// Track `t` can be normalized: its first command reads, and a jump target lies within reach of
/// a 16-bit table entry.
pub open spec fn track_normalizable(bytes: Seq<u8>, base: int, t: int) -> bool {
    match stub_target(bytes, base, track_offset(bytes, base, t)) {
        Err(_) => false,
        Ok(None) => true,
        Ok(Some(target)) => target - base <= 65535,
    }
}

/// The bytes hold an MDX layout whose every track can be normalized.
pub open spec fn normalizable(bytes: Seq<u8>) -> bool {
    match layout_base(bytes) {
        Err(_) => false,
        Ok(base) => table_ok(bytes, base) && forall|t: int|
            0 <= t < table_tracks(bytes, base) ==> #[trigger] track_normalizable(bytes, base, t),
    }
}

/// Some track starts with a forward `0xf1` jump.
pub open spec fn has_stub(bytes: Seq<u8>, base: int) -> bool {
    exists|t: int|
        0 <= t < table_tracks(bytes, base) && #[trigger] stub_target(
            bytes,
            base,
            track_offset(bytes, base, t),
        ) is Ok && stub_target(bytes, base, track_offset(bytes, base, t))->Ok_0 is Some
}

/// Byte `i` after normalization: a table entry of a jumping track holds the jump target
/// (relative to the base, big-endian); every other byte is unchanged.
pub open spec fn normalized_byte(bytes: Seq<u8>, base: int, i: int) -> u8 {
    let t = (i - base - 2) / 2;
    if base + 2 <= i < base + 2 + 2 * table_tracks(bytes, base) {
        match stub_target(bytes, base, track_offset(bytes, base, t)) {
            Ok(Some(target)) => if (i - base - 2) % 2 == 0 {
                ((target - base) / 256) as u8
            } else {
                ((target - base) % 256) as u8
            },
            _ => bytes[i],
        }
    } else {
        bytes[i]
    }
}

/// The input unchanged, or a rewritten copy.
#[derive(Debug)]
pub enum NormalizedMdx<'a> {
    Borrowed(&'a [u8]),
    Owned(Vec<u8>),
}

impl<'a> NormalizedMdx<'a> {
    /// The normalized bytes.
    pub fn as_slice(&self) -> (bytes: &[u8])
        ensures
            bytes@ == match self {
                NormalizedMdx::Borrowed(borrowed) => borrowed@,
                NormalizedMdx::Owned(owned) => owned@,
            },
    {
        match self {
            NormalizedMdx::Borrowed(borrowed) => borrowed,
            NormalizedMdx::Owned(owned) => owned.as_slice(),
        }
    }
}

fn track_message(track: usize, text: &str) -> (message: String)
    ensures
        message@ == "track "@ + decimal(track as nat) + text@,
{
    let mut message = String::new();
    push_str(&mut message, "track ");
    push_decimal(&mut message, track as u64);
    push_str(&mut message, text);
    message
}

spec fn target_matches(bytes: Seq<u8>, base: int, t: int, target: Option<usize>) -> bool {
    match target {
        Some(target) => stub_target(bytes, base, track_offset(bytes, base, t)) == Ok::<
            Option<int>,
            (),
        >(Some(target as int)),
        None => stub_target(bytes, base, track_offset(bytes, base, t)) == Ok::<Option<int>, ()>(
            None,
        ),
    }
}

/// Where track `track` should start: the target of its forward `0xf1` jump, if it has one.
fn track_target(bytes: &[u8], layout: &MdxLayout, track: usize) -> (r: Result<
    Option<usize>,
    String,
>)
    requires
        layout.describes(bytes@),
        track < layout.track_offsets@.len(),
    ensures
        r matches Ok(target) ==> track_normalizable(bytes@, layout.base_offset as int, track as int)
            && target_matches(bytes@, layout.base_offset as int, track as int, target),
        r is Err ==> !track_normalizable(bytes@, layout.base_offset as int, track as int),
{
    let ghost b = layout.base_offset as int;
    let base = layout.base_offset;
    assert(layout.track_offsets@[track as int] == track_offset(bytes@, b, track as int));
    let position = match layout.track_position(track, bytes.len()) {
        None => return Ok(None),
        Some(position) => position,
    };
    let (command, length) = match parse_mdx_command(bytes, position) {
        Ok(parsed) => parsed,
        Err(error) => {
            let mut message = track_message(track, " at 0x");
            push_hex_min(&mut message, position as u64, 6);
            push_str(&mut message, ": ");
            let detail = error.message();
            push_str(&mut message, detail.as_str());
            return Err(message);
        },
    };
    match command {
        MdxCommand::EndOfTrackLoop(jump) => {
            if jump.offset > 0 {
                let command_end = match position.checked_add(length) {
                    Some(end) => end,
                    None => return Err(track_message(track, " offset overflow")),
                };
                let target = match command_end.checked_add(jump.offset as usize) {
                    Some(target) => target,
                    None => return Err(track_message(track, " jump target overflow")),
                };
                if target >= bytes.len() {
                    let mut message = track_message(track, " jump target 0x");
                    push_hex_min(&mut message, target as u64, 6);
                    push_str(&mut message, " is outside the MDX");
                    return Err(message);
                }
                if target - base > 65535 {
                    return Err(track_message(track, " target cannot be represented"));
                }
                Ok(Some(target))
            } else {
                Ok(None)
            }
        },
        _ => Ok(None),
    }
}

/// Normalize an MXDRV16y track table before normal MDX parsing.
///
/// Files that do not contain forward `0xf1` track stubs are returned byte-for-byte unchanged. For
/// an MXDRV16y file, each forward `0xf1` at the start of a track is followed and its target is
/// written back as that track's offset. The command data itself is not modified.
pub fn normalize_mxdrv16y_tracks<'a>(bytes: &'a [u8]) -> (r: Result<NormalizedMdx<'a>, String>)
    ensures
        r is Ok <==> normalizable(bytes@),
        r matches Ok(NormalizedMdx::Borrowed(same)) ==> same@ == bytes@ && !has_stub(
            bytes@,
            layout_base(bytes@)->Ok_0,
        ),
        r matches Ok(NormalizedMdx::Owned(rewritten)) ==> has_stub(
            bytes@,
            layout_base(bytes@)->Ok_0,
        ) && rewritten@.len() == bytes@.len() && forall|i: int|
            0 <= i < bytes@.len() ==> #[trigger] rewritten@[i] == normalized_byte(
                bytes@,
                layout_base(bytes@)->Ok_0,
                i,
            ),
{
    let layout = match parse_layout(bytes) {
        Ok(layout) => layout,
        Err(error) => return Err(error.message()),
    };
    let base = layout.base_offset;
    let count = layout.track_count();
    let ghost b = base as int;
    let length = bytes.len();
    let mut targets: Vec<Option<usize>> = Vec::new();
    let mut any = false;
    let mut track: usize = 0;
    while track < count
        invariant
            layout.describes(bytes@),
            base == layout.base_offset,
            b == base as int,
            length == bytes@.len(),
            count == layout.track_offsets@.len(),
            track <= count,
            targets@.len() == track,
            forall|t: int| 0 <= t < track ==> #[trigger] track_normalizable(bytes@, b, t),
            forall|t: int| 0 <= t < track ==> target_matches(bytes@, b, t, #[trigger] targets@[t]),
            any <==> exists|t: int| 0 <= t < track && (#[trigger] targets@[t]) is Some,
        decreases count - track,
    {
        let target = track_target(bytes, &layout, track)?;
        let ghost before = targets@;
        targets.push(target);
        if target.is_some() {
            any = true;
        }
        assert forall|t: int| 0 <= t < track + 1 implies target_matches(
            bytes@,
            b,
            t,
            #[trigger] targets@[t],
        ) by {
            if t < track {
                assert(targets@[t] == before[t]);
            }
        }
        proof {
            if any {
                if target.is_some() {
                    assert(targets@[track as int] is Some);
                } else {
                    let t = choose|t: int| 0 <= t < track && (#[trigger] before[t]) is Some;
                    assert(targets@[t] == before[t]);
                }
            } else {
                assert forall|t: int| 0 <= t < track + 1 implies !((#[trigger] targets@[t]) is Some) by {
                    if t < track {
                        assert(targets@[t] == before[t]);
                    }
                }
            }
        }
        track += 1;
    }
    proof {
        assert(layout_base(bytes@) == Ok::<int, crate::mdx_model::layout::MdxLayoutError>(b));
        assert(table_tracks(bytes@, b) == count);
        assert forall|t: int| 0 <= t < table_tracks(bytes@, b) implies #[trigger] track_normalizable(
            bytes@,
            b,
            t,
        ) by {}
        assert(normalizable(bytes@));
    }
    if !any {
        proof {
            if has_stub(bytes@, b) {
                let t = choose|t: int|
                    0 <= t < table_tracks(bytes@, b) && #[trigger] stub_target(
                        bytes@,
                        b,
                        track_offset(bytes@, b, t),
                    ) is Ok && stub_target(bytes@, b, track_offset(bytes@, b, t))->Ok_0 is Some;
                assert(targets@[t] is None);
            }
        }
        return Ok(NormalizedMdx::Borrowed(bytes));
    }
    let mut normalized = vstd::slice::slice_to_vec(bytes);
    let table_start = base + 2;
    let mut track: usize = 0;
    while track < count
        invariant
            layout.describes(bytes@),
            base == layout.base_offset,
            b == base as int,
            length == bytes@.len(),
            table_start == base + 2,
            count == layout.track_offsets@.len(),
            count == table_tracks(bytes@, b),
            track <= count,
            targets@.len() == count,
            normalized@.len() == bytes@.len(),
            forall|t: int| 0 <= t < count ==> #[trigger] track_normalizable(bytes@, b, t),
            forall|t: int| 0 <= t < count ==> target_matches(bytes@, b, t, #[trigger] targets@[t]),
            forall|i: int|
                0 <= i < bytes@.len() ==> #[trigger] normalized@[i] == (if i < b + 2 + 2 * track {
                    normalized_byte(bytes@, b, i)
                } else {
                    bytes@[i]
                }),
        decreases count - track,
    {
        let entry = table_start + track * 2;
        assert(track_normalizable(bytes@, b, track as int));
        match targets[track] {
            Some(target) => {
                let relative = target - base;
                normalized.set(entry, (relative / 256) as u8);
                normalized.set(entry + 1, (relative % 256) as u8);
            },
            None => {},
        }
        proof {
            assert forall|i: int| 0 <= i < bytes@.len() implies #[trigger] normalized@[i] == (if i
                < b + 2 + 2 * (track + 1) {
                normalized_byte(bytes@, b, i)
            } else {
                bytes@[i]
            }) by {
                if b + 2 + 2 * track <= i < b + 2 + 2 * (track + 1) {
                    assert((i - b - 2) / 2 == track);
                }
            }
        }
        track += 1;
    }
    proof {
        let t = choose|t: int| 0 <= t < track && (#[trigger] targets@[t]) is Some;
        assert(targets@[t] is Some);
        assert(has_stub(bytes@, b));
    }
    Ok(NormalizedMdx::Owned(normalized))
}

} // verus!

//! MDX documents: header metadata, tone bank and per-track command lists.
use vstd::prelude::*;

use super::layout::{layout_base, title_end_from, track_count_for, word_at, zero_from, MdxLayoutError};
use super::command::{be16, command_bytes, command_len, commands_bytes, commands_len, lemma_command_len, lemma_commands_len, MdxCommand};

verus! {

/// Serialized size of one tone.
pub const TONE_BYTE_LENGTH: usize = 27;

/// One FM operator's parameters.
#[derive(Clone, Copy, Debug, PartialEq, Eq, Structural)]
pub struct MdxOperator {
    pub ar: u8,
    pub dr: u8,
    pub sr: u8,
    pub rr: u8,
    pub sl: u8,
    pub ol: u8,
    pub ks: u8,
    pub ml: u8,
    pub dt1: u8,
    pub dt2: u8,
    pub ame: u8,
}

/// One FM voice.
#[derive(Clone, Copy, Debug)]
pub struct MdxTone {
    pub voice_number: u8,
    pub con: u8,
    pub fl: u8,
    pub op: u8,
    pub operators: [MdxOperator; 4],
}

/// The voices defined by a document.
#[derive(Clone, Debug)]
pub struct MdxToneBank {
    pub tones: Vec<MdxTone>,
}

/// Document metadata.
#[derive(Clone, Debug)]
pub struct MdxHeader {
    pub title: String,
    pub pdx_name: Option<String>,
}

/// An MDX document: metadata, voices and one command list per track.
#[derive(Clone, Debug)]
pub struct MdxDocument {
    pub header: MdxHeader,
    pub tone_bank: MdxToneBank,
    pub tracks: Vec<Vec<MdxCommand>>,
}

/// `DT1` and `MUL` packed into one register byte.
pub open spec fn dt1_ml(o: MdxOperator) -> u8 {
    ((o.dt1 & 7u8) << 4u8) | (o.ml & 15u8)
}

/// `KS` and `AR` packed into one register byte.
pub open spec fn ks_ar(o: MdxOperator) -> u8 {
    ((o.ks & 3u8) << 6u8) | (o.ar & 31u8)
}

/// `AME` and `D1R` packed into one register byte.
pub open spec fn ame_d1r(o: MdxOperator) -> u8 {
    ((o.ame & 1u8) << 7u8) | (o.dr & 31u8)
}

/// `DT2` and `D2R` packed into one register byte.
pub open spec fn dt2_d2r(o: MdxOperator) -> u8 {
    ((o.dt2 & 3u8) << 6u8) | (o.sr & 31u8)
}

/// `D1L` and `RR` packed into one register byte.
pub open spec fn d1l_rr(o: MdxOperator) -> u8 {
    ((o.sl & 15u8) << 4u8) | (o.rr & 15u8)
}

/// The 27 bytes of a tone: voice number, `FL`/`CON`, slot mask, then per register the four
/// operators in order (`DT1`/`MUL`, `TL`, `KS`/`AR`, `AME`/`D1R`, `DT2`/`D2R`, `D1L`/`RR`).
pub open spec fn tone_bytes(tone: MdxTone) -> Seq<u8> {
    let o = tone.operators;
    seq![
        tone.voice_number,
        ((tone.fl & 7u8) << 3u8) | (tone.con & 7u8),
        tone.op,
        dt1_ml(o[0]),
        dt1_ml(o[1]),
        dt1_ml(o[2]),
        dt1_ml(o[3]),
        o[0].ol & 127u8,
        o[1].ol & 127u8,
        o[2].ol & 127u8,
        o[3].ol & 127u8,
        ks_ar(o[0]),
        ks_ar(o[1]),
        ks_ar(o[2]),
        ks_ar(o[3]),
        ame_d1r(o[0]),
        ame_d1r(o[1]),
        ame_d1r(o[2]),
        ame_d1r(o[3]),
        dt2_d2r(o[0]),
        dt2_d2r(o[1]),
        dt2_d2r(o[2]),
        dt2_d2r(o[3]),
        d1l_rr(o[0]),
        d1l_rr(o[1]),
        d1l_rr(o[2]),
        d1l_rr(o[3]),
    ]
}

impl MdxTone {
    /// Append the 27 bytes of this tone.
    pub fn write_bytes(&self, out: &mut Vec<u8>)
        ensures
            final(out)@ == old(out)@ + tone_bytes(*self),
    {
        let o = self.operators;
        out.push(self.voice_number);
        out.push(((self.fl & 7) << 3) | (self.con & 7));
        out.push(self.op);
        out.push(((o[0].dt1 & 7) << 4) | (o[0].ml & 15));
        out.push(((o[1].dt1 & 7) << 4) | (o[1].ml & 15));
        out.push(((o[2].dt1 & 7) << 4) | (o[2].ml & 15));
        out.push(((o[3].dt1 & 7) << 4) | (o[3].ml & 15));
        out.push(o[0].ol & 127);
        out.push(o[1].ol & 127);
        out.push(o[2].ol & 127);
        out.push(o[3].ol & 127);
        out.push(((o[0].ks & 3) << 6) | (o[0].ar & 31));
        out.push(((o[1].ks & 3) << 6) | (o[1].ar & 31));
        out.push(((o[2].ks & 3) << 6) | (o[2].ar & 31));
        out.push(((o[3].ks & 3) << 6) | (o[3].ar & 31));
        out.push(((o[0].ame & 1) << 7) | (o[0].dr & 31));
        out.push(((o[1].ame & 1) << 7) | (o[1].dr & 31));
        out.push(((o[2].ame & 1) << 7) | (o[2].dr & 31));
        out.push(((o[3].ame & 1) << 7) | (o[3].dr & 31));
        out.push(((o[0].dt2 & 3) << 6) | (o[0].sr & 31));
        out.push(((o[1].dt2 & 3) << 6) | (o[1].sr & 31));
        out.push(((o[2].dt2 & 3) << 6) | (o[2].sr & 31));
        out.push(((o[3].dt2 & 3) << 6) | (o[3].sr & 31));
        out.push(((o[0].sl & 15) << 4) | (o[0].rr & 15));
        out.push(((o[1].sl & 15) << 4) | (o[1].rr & 15));
        out.push(((o[2].sl & 15) << 4) | (o[2].rr & 15));
        out.push(((o[3].sl & 15) << 4) | (o[3].rr & 15));
        assert(out@ =~= old(out)@ + tone_bytes(*self));
    }
}

/// The UTF-8 bytes of a text.
pub open spec fn text_bytes(text: Seq<char>) -> Seq<u8> {
    vstd::utf8::encode_utf8(text)
}

/// The header: the title, `0x0d 0x0a 0x1a`, the PDX name (empty when there is none), `0x00`.
pub open spec fn header_bytes(header: MdxHeader) -> Seq<u8> {
    text_bytes(header.title@) + seq![0x0du8, 0x0au8, 0x1au8] + match header.pdx_name {
        Some(name) => text_bytes(name@),
        None => Seq::<u8>::empty(),
    } + seq![0u8]
}

/// The command bytes of the tracks, one after another.
pub open spec fn tracks_data(tracks: Seq<Vec<MdxCommand>>) -> Seq<u8>
    decreases tracks.len(),
{
    if tracks.len() == 0 {
        seq![]
    } else {
        tracks_data(tracks.drop_last()) + commands_bytes(tracks.last()@)
    }
}

/// The bytes of the tones, one after another.
pub open spec fn tones_data(tones: Seq<MdxTone>) -> Seq<u8>
    decreases tones.len(),
{
    if tones.len() == 0 {
        seq![]
    } else {
        tones_data(tones.drop_last()) + tone_bytes(tones.last())
    }
}

/// Where track `t` starts, relative to the base: after the offset table and the tracks before it.
pub open spec fn written_track_offset(tracks: Seq<Vec<MdxCommand>>, t: int) -> int {
    (2 + 2 * tracks.len() + tracks_data(tracks.take(t)).len()) as int
}

/// Where the tone data starts, relative to the base: after the table and every track.
pub open spec fn written_tone_offset(tracks: Seq<Vec<MdxCommand>>) -> int {
    (2 + 2 * tracks.len() + tracks_data(tracks).len()) as int
}

/// The offset table's entries for the first `k` tracks, after the tone-data offset.
pub open spec fn table_bytes(tracks: Seq<Vec<MdxCommand>>, k: int) -> Seq<u8>
    decreases k,
{
    if k <= 0 {
        be16(written_tone_offset(tracks))
    } else {
        table_bytes(tracks, k - 1) + be16(written_track_offset(tracks, k - 1))
    }
}

/// A document's bytes: header, offset table, track data, tone data.
pub open spec fn document_bytes(document: MdxDocument) -> Seq<u8> {
    header_bytes(document.header) + table_bytes(document.tracks@, document.tracks@.len() as int)
        + tracks_data(document.tracks@) + tones_data(document.tone_bank.tones@)
}

/// Every offset of the table fits its 16-bit entry.
pub open spec fn offsets_fit(document: MdxDocument) -> bool {
    written_tone_offset(document.tracks@) <= 65535
}

fn push_all(out: &mut Vec<u8>, bytes: &[u8])
    ensures
        final(out)@ == old(out)@ + bytes@,
{
    let mut index: usize = 0;
    while index < bytes.len()
        invariant
            index <= bytes@.len(),
            out@ == old(out)@ + bytes@.subrange(0, index as int),
        decreases bytes@.len() - index,
    {
        out.push(bytes[index]);
        index += 1;
        proof {
            assert(out@ =~= old(out)@ + bytes@.subrange(0, index as int));
        }
    }
    proof {
        assert(bytes@.subrange(0, bytes@.len() as int) =~= bytes@);
    }
}

fn push_be16(out: &mut Vec<u8>, value: u16)
    ensures
        final(out)@ == old(out)@ + be16(value as int),
{
    out.push((value / 256) as u8);
    out.push((value % 256) as u8);
    proof {
        assert(out@ =~= old(out)@ + be16(value as int));
    }
}

proof fn lemma_tracks_data_len_monotone(tracks: Seq<Vec<MdxCommand>>, k: int)
    requires
        0 <= k <= tracks.len(),
    ensures
        tracks_data(tracks.take(k)).len() <= tracks_data(tracks).len(),
    decreases tracks.len() - k,
{
    if k < tracks.len() {
        lemma_tracks_data_len_monotone(tracks, k + 1);
        assert(tracks.take(k + 1).drop_last() =~= tracks.take(k));
    } else {
        assert(tracks.take(k) =~= tracks);
    }
}

impl MdxDocument {
    /// The bytes of this document, or `None` when the table's 16-bit offsets cannot reach the
    /// tone data.
    pub fn to_bytes(&self) -> (r: Option<Vec<u8>>)
        ensures
            r is Some <==> offsets_fit(*self),
            r matches Some(bytes) ==> bytes@ == document_bytes(*self),
    {
        let tracks = &self.tracks;
        let count = tracks.len();
        let ghost all = tracks@;
        // Sizes of the tracks, and whether they fit below the 16-bit offset limit.
        let mut sizes: Vec<u16> = Vec::new();
        let mut offset: usize = 2;
        if count > 32766 {
            proof {
                assert(written_tone_offset(all) > 65535);
            }
            return None;
        }
        offset = 2 + 2 * count;
        let mut t: usize = 0;
        proof {
            assert(all.take(0) =~= Seq::<Vec<MdxCommand>>::empty());
        }
        while t < count
            invariant
                count == all.len(),
                all == tracks@,
                all == self.tracks@,
                count <= 32766,
                t <= count,
                offset == 2 + 2 * count + tracks_data(all.take(t as int)).len(),
                offset <= 65535,
                sizes@.len() == t,
                forall|u: int|
                    0 <= u < t ==> #[trigger] sizes@[u] == commands_bytes(all[u]@).len(),
            decreases count - t,
        {
            let ghost before = all.take(t as int);
            proof {
                assert(all.take(t + 1).drop_last() =~= before);
                assert(all.take(t + 1).last() == all[t as int]);
                lemma_commands_len(all[t as int]@);
            }
            let length = crate::mdx::compile::command_bytes_len(&tracks[t]);
            if length > 65535 || offset + length > 65535 {
                proof {
                    lemma_tracks_data_len_monotone(all, t + 1);
                    assert(commands_len(all[t as int]@) >= length);
                    assert(tracks_data(all.take(t + 1)).len() == tracks_data(before).len()
                        + commands_bytes(all[t as int]@).len());
                    assert(written_tone_offset(all) > 65535);
                }
                return None;
            }
            sizes.push(length as u16);
            offset = offset + length;
            t += 1;
        }
        proof {
            assert(all.take(count as int) =~= all);
        }
        let tone_offset = offset as u16;
        let mut out: Vec<u8> = Vec::new();
        push_all(&mut out, self.header.title.as_str().as_bytes());
        out.push(0x0d);
        out.push(0x0a);
        out.push(0x1a);
        match &self.header.pdx_name {
            Some(name) => push_all(&mut out, name.as_str().as_bytes()),
            None => {},
        }
        out.push(0);
        proof {
            assert(out@ =~= header_bytes(self.header));
        }
        let ghost header = out@;
        push_be16(&mut out, tone_offset);
        let mut track_offset: usize = 2 + 2 * count;
        let mut t: usize = 0;
        while t < count
            invariant
                count == all.len(),
                all == tracks@,
                t <= count,
                sizes@.len() == count,
                forall|u: int|
                    0 <= u < count ==> #[trigger] sizes@[u] == commands_bytes(all[u]@).len(),
                track_offset == written_track_offset(all, t as int),
                written_tone_offset(all) <= 65535,
                out@ == header + table_bytes(all, t as int),
            decreases count - t,
        {
            proof {
                assert(all.take(t + 1).drop_last() =~= all.take(t as int));
                lemma_tracks_data_len_monotone(all, t + 1);
            }
            push_be16(&mut out, track_offset as u16);
            track_offset = track_offset + sizes[t] as usize;
            t += 1;
        }
        let ghost table_end = out@;
        let mut t: usize = 0;
        proof {
            assert(all.take(0) =~= Seq::<Vec<MdxCommand>>::empty());
        }
        while t < count
            invariant
                count == all.len(),
                all == tracks@,
                t <= count,
                out@ == table_end + tracks_data(all.take(t as int)),
            decreases count - t,
        {
            let commands = &tracks[t];
            let ghost before = out@;
            let mut k: usize = 0;
            while k < commands.len()
                invariant
                    k <= commands@.len(),
                    out@ == before + commands_bytes(commands@.take(k as int)),
                decreases commands@.len() - k,
            {
                proof {
                    assert(commands@.take(k + 1).drop_last() =~= commands@.take(k as int));
                }
                commands[k].write_bytes(&mut out);
                k += 1;
                proof {
                    assert(out@ =~= before + commands_bytes(commands@.take(k as int)));
                }
            }
            proof {
                assert(commands@.take(commands@.len() as int) =~= commands@);
                assert(all.take(t + 1).drop_last() =~= all.take(t as int));
                assert(out@ =~= table_end + tracks_data(all.take(t + 1)));
            }
            t += 1;
        }
        proof {
            assert(all.take(count as int) =~= all);
        }
        let ghost tracks_end = out@;
        let tones = &self.tone_bank.tones;
        let mut k: usize = 0;
        proof {
            assert(tones@.take(0) =~= Seq::<MdxTone>::empty());
        }
        while k < tones.len()
            invariant
                k <= tones@.len(),
                out@ == tracks_end + tones_data(tones@.take(k as int)),
            decreases tones@.len() - k,
        {
            proof {
                assert(tones@.take(k + 1).drop_last() =~= tones@.take(k as int));
            }
            tones[k].write_bytes(&mut out);
            k += 1;
            proof {
                assert(out@ =~= tracks_end + tones_data(tones@.take(k as int)));
            }
        }
        proof {
            assert(tones@.take(tones@.len() as int) =~= tones@);
            assert(out@ =~= document_bytes(*self));
        }
        Some(out)
    }
}

/// No `0x0d 0x0a 0x1a` occurs in the bytes.
pub open spec fn no_title_end(bytes: Seq<u8>) -> bool {
    forall|i: int|
        0 <= i && i + 3 <= bytes.len() ==> !(#[trigger] bytes[i] == 0x0d && bytes[i + 1] == 0x0a
            && bytes[i + 2] == 0x1a)
}

/// No zero byte occurs in the bytes.
pub open spec fn no_zero(bytes: Seq<u8>) -> bool {
    forall|i: int| 0 <= i < bytes.len() ==> #[trigger] bytes[i] != 0
}

/// The PDX name's bytes, empty when there is none.
pub open spec fn pdx_bytes(header: MdxHeader) -> Seq<u8> {
    match header.pdx_name {
        Some(name) => text_bytes(name@),
        None => Seq::<u8>::empty(),
    }
}

proof fn lemma_title_end_found(bytes: Seq<u8>, title_len: int, i: int)
    requires
        0 <= i <= title_len,
        title_len + 3 <= bytes.len(),
        no_title_end(bytes.take(title_len)),
        bytes[title_len] == 0x0d,
        bytes[title_len + 1] == 0x0a,
        bytes[title_len + 2] == 0x1a,
    ensures
        title_end_from(bytes, i) == Some(title_len),
    decreases title_len - i,
{
    if i < title_len {
        lemma_title_end_found(bytes, title_len, i + 1);
        if i + 3 <= title_len {
            assert(bytes.take(title_len)[i] == bytes[i]);
            assert(bytes.take(title_len)[i + 1] == bytes[i + 1]);
            assert(bytes.take(title_len)[i + 2] == bytes[i + 2]);
        }
    }
}

proof fn lemma_zero_found(bytes: Seq<u8>, start: int, end: int, i: int)
    requires
        0 <= start <= i <= end < bytes.len(),
        no_zero(bytes.subrange(start, end)),
        bytes[end] == 0,
    ensures
        zero_from(bytes, i) == Some(end),
    decreases end - i,
{
    if i < end {
        lemma_zero_found(bytes, start, end, i + 1);
        assert(bytes.subrange(start, end)[i - start] == bytes[i]);
    }
}

proof fn lemma_table_bytes(tracks: Seq<Vec<MdxCommand>>, k: int)
    requires
        0 <= k,
    ensures
        table_bytes(tracks, k).len() == 2 + 2 * k,
        table_bytes(tracks, k).take(2) == be16(written_tone_offset(tracks)),
        forall|t: int|
            0 <= t < k ==> #[trigger] table_bytes(tracks, k).subrange(2 + 2 * t, 4 + 2 * t) == be16(
                written_track_offset(tracks, t),
            ),
    decreases k,
{
    if k > 0 {
        lemma_table_bytes(tracks, k - 1);
        let previous = table_bytes(tracks, k - 1);
        let current = table_bytes(tracks, k);
        assert(current == previous + be16(written_track_offset(tracks, k - 1)));
        assert(current.take(2) =~= previous.take(2));
        assert forall|t: int| 0 <= t < k implies #[trigger] current.subrange(2 + 2 * t, 4 + 2 * t)
            == be16(written_track_offset(tracks, t)) by {
            if t < k - 1 {
                assert(current.subrange(2 + 2 * t, 4 + 2 * t) =~= previous.subrange(
                    2 + 2 * t,
                    4 + 2 * t,
                ));
            } else {
                assert(current.subrange(2 + 2 * t, 4 + 2 * t) =~= be16(
                    written_track_offset(tracks, t),
                ));
            }
        }
    } else {
        assert(table_bytes(tracks, k).take(2) =~= be16(written_tone_offset(tracks)));
    }
}

proof fn lemma_be16_word(bytes: Seq<u8>, at: int, value: int)
    requires
        0 <= value <= 65535,
        0 <= at,
        at + 2 <= bytes.len(),
        bytes.subrange(at, at + 2) == be16(value),
    ensures
        word_at(bytes, at) == value,
{
    assert(bytes[at] == bytes.subrange(at, at + 2)[0]);
    assert(bytes[at + 1] == bytes.subrange(at, at + 2)[1]);
}

/// The header of any bytes that start with a written header ends where it was written.
proof fn lemma_header_base(header: MdxHeader, suffix: Seq<u8>)
    requires
        no_title_end(text_bytes(header.title@)),
        no_zero(pdx_bytes(header)),
    ensures
        layout_base(header_bytes(header) + suffix) == Ok::<int, MdxLayoutError>(
            header_bytes(header).len() as int,
        ),
{
    let title = text_bytes(header.title@);
    let pdx = pdx_bytes(header);
    let bytes = header_bytes(header) + suffix;
    let title_len = title.len() as int;
    assert(header_bytes(header) =~= title + seq![0x0du8, 0x0au8, 0x1au8] + pdx + seq![0u8]);
    assert(bytes.take(title_len) =~= title);
    lemma_title_end_found(bytes, title_len, 0);
    assert(bytes.subrange(title_len + 3, title_len + 3 + pdx.len()) =~= pdx);
    lemma_zero_found(bytes, title_len + 3, title_len + 3 + pdx.len(), title_len + 3);
}

/// The entries of a written offset table read back, whatever comes before and after it.
proof fn lemma_table_words(tracks: Seq<Vec<MdxCommand>>, prefix: Seq<u8>, suffix: Seq<u8>)
    requires
        written_tone_offset(tracks) <= 65535,
    ensures
        ({
            let bytes = prefix + table_bytes(tracks, tracks.len() as int) + suffix;
            let base = prefix.len() as int;
            &&& word_at(bytes, base) == written_tone_offset(tracks)
            &&& forall|t: int|
                0 <= t < tracks.len() ==> #[trigger] word_at(bytes, base + 2 + 2 * t)
                    == written_track_offset(tracks, t)
            &&& base + 2 + 2 * tracks.len() <= bytes.len()
        }),
{
    let count = tracks.len() as int;
    let table = table_bytes(tracks, count);
    let bytes = prefix + table + suffix;
    let base = prefix.len() as int;
    lemma_table_bytes(tracks, count);
    assert forall|t: int| 0 <= t < count implies #[trigger] word_at(bytes, base + 2 + 2 * t)
        == written_track_offset(tracks, t) by {
        lemma_tracks_data_len_monotone(tracks, t);
        assert(bytes.subrange(base + 2 + 2 * t, base + 4 + 2 * t) =~= table.subrange(
            2 + 2 * t,
            4 + 2 * t,
        ));
        lemma_be16_word(bytes, base + 2 + 2 * t, written_track_offset(tracks, t));
    }
    assert(bytes.subrange(base, base + 2) =~= table.take(2));
    lemma_be16_word(bytes, base, written_tone_offset(tracks));
}

/// What the writer writes, the layout reader reads back: for a document whose title holds no
/// `0x0d 0x0a 0x1a`, whose PDX name holds no zero byte, with nine or sixteen tracks and offsets
/// that fit, the layout of its bytes has its base right after the header, the tone-data offset
/// that was written, and every track offset that was written.
pub proof fn lemma_layout_reads_back(document: MdxDocument)
    requires
        no_title_end(text_bytes(document.header.title@)),
        no_zero(pdx_bytes(document.header)),
        document.tracks@.len() == 9 || document.tracks@.len() == 16,
        offsets_fit(document),
    ensures
        ({
            let bytes = document_bytes(document);
            let base = header_bytes(document.header).len() as int;
            let count = document.tracks@.len() as int;
            &&& layout_base(bytes) == Ok::<int, MdxLayoutError>(base)
            &&& track_count_for(word_at(bytes, base + 2)) == count
            &&& base + 2 + 2 * count <= bytes.len()
            &&& word_at(bytes, base) == written_tone_offset(document.tracks@)
            &&& forall|t: int|
                0 <= t < count ==> #[trigger] word_at(bytes, base + 2 + 2 * t)
                    == written_track_offset(document.tracks@, t)
        }),
{
    let tracks = document.tracks@;
    let header = header_bytes(document.header);
    let table = table_bytes(tracks, tracks.len() as int);
    let rest = tracks_data(tracks) + tones_data(document.tone_bank.tones@);
    let bytes = document_bytes(document);
    assert(bytes =~= header + (table + rest));
    assert(bytes =~= header + table + rest);
    lemma_header_base(document.header, table + rest);
    lemma_table_words(tracks, header, rest);
    assert(tracks.take(0) =~= Seq::<Vec<MdxCommand>>::empty());
    assert(written_track_offset(tracks, 0) == 2 + 2 * tracks.len());
    let base = header.len() as int;
    assert(word_at(bytes, base + 2 + 2 * 0) == written_track_offset(tracks, 0));
    assert(word_at(bytes, base + 2) == 2 + 2 * tracks.len());
}

proof fn lemma_tracks_data_prefix(tracks: Seq<Vec<MdxCommand>>, k: int, m: int)
    requires
        0 <= k <= m <= tracks.len(),
    ensures
        tracks_data(tracks.take(k)).len() <= tracks_data(tracks.take(m)).len(),
        tracks_data(tracks.take(m)).take(tracks_data(tracks.take(k)).len() as int) == tracks_data(
            tracks.take(k),
        ),
    decreases m - k,
{
    if k < m {
        lemma_tracks_data_prefix(tracks, k, m - 1);
        assert(tracks.take(m).drop_last() =~= tracks.take(m - 1));
        let shorter = tracks_data(tracks.take(m - 1));
        let longer = tracks_data(tracks.take(m));
        assert(longer == shorter + commands_bytes(tracks.take(m).last()@));
        let n = tracks_data(tracks.take(k)).len() as int;
        assert(longer.take(n) =~= shorter.take(n));
    } else {
        let data = tracks_data(tracks.take(k));
        assert(data.take(data.len() as int) =~= data);
    }
}

/// The offset table of written bytes points every track at its own commands: for each track
/// `t`, the bytes found at the base plus the table's entry for `t` are exactly the bytes of
/// track `t`'s commands, and from the base plus the tone-data entry on come the tones.
pub proof fn lemma_table_points_at_each_track(document: MdxDocument, t: int)
    requires
        offsets_fit(document),
        0 <= t < document.tracks@.len(),
    ensures
        ({
            let bytes = document_bytes(document);
            let base = header_bytes(document.header).len() as int;
            let at = base + word_at(bytes, base + 2 + 2 * t);
            let track = commands_bytes(document.tracks@[t]@);
            let tones = base + word_at(bytes, base);
            &&& at + track.len() <= bytes.len()
            &&& bytes.subrange(at, at + track.len()) == track
            &&& tones <= bytes.len()
            &&& bytes.subrange(tones, bytes.len() as int) == tones_data(document.tone_bank.tones@)
        }),
{
    let tracks = document.tracks@;
    let n = tracks.len() as int;
    let header = header_bytes(document.header);
    let table = table_bytes(tracks, n);
    let data = tracks_data(tracks);
    let tone_bytes = tones_data(document.tone_bank.tones@);
    let rest = data + tone_bytes;
    let bytes = document_bytes(document);
    assert(bytes =~= header + table + rest);
    lemma_table_words(tracks, header, rest);
    lemma_table_bytes(tracks, n);
    let base = header.len() as int;
    let before = tracks_data(tracks.take(t));
    let through = tracks_data(tracks.take(t + 1));
    let track = commands_bytes(tracks[t]@);
    assert(tracks.take(t + 1).drop_last() =~= tracks.take(t));
    assert(tracks.take(t + 1).last() == tracks[t]);
    assert(through == before + track);
    lemma_tracks_data_prefix(tracks, t + 1, n);
    assert(tracks.take(n) =~= tracks);
    assert(data.take(through.len() as int) == through);
    let at = base + 2 + 2 * n + before.len();
    assert(word_at(bytes, base + 2 + 2 * t) == written_track_offset(tracks, t));
    assert(bytes.subrange(at, at + track.len()) =~= through.subrange(
        before.len() as int,
        through.len() as int,
    )) by {
        assert forall|i: int| 0 <= i < track.len() implies bytes[at + i] == track[i] by {
            assert(bytes[at + i] == data[before.len() + i]);
            assert(data[before.len() + i] == through[before.len() + i]);
        }
    }
    assert(bytes.subrange(at, at + track.len()) =~= track);
    assert(bytes.subrange(base + 2 + 2 * n + data.len(), bytes.len() as int) =~= tone_bytes);
}

} // verus!

//! The hex view: where its selection, marks and differences are, and how it
//! steps from one difference to the next.
use vstd::prelude::*;

use crate::text::{push_char, push_str, push_upper_hex, upper_hex};

verus! {

/// The state of a hex view as values.
pub struct HexViewState {
    /// Bytes shown per line, at least one.
    pub bytes_per_line: usize,
    /// The byte last picked by a click.
    pub selected: Option<usize>,
    /// The selected range, first and last byte, in order.
    pub selection_range: Option<(usize, usize)>,
    /// Offsets marked in the margin.
    pub reference_markers: Seq<usize>,
    /// Ranges drawn as outlines, first and last byte.
    pub outline_ranges: Seq<(usize, usize)>,
    /// Ranges whose selection gets no outline, first and last byte.
    pub fill_only_ranges: Seq<(usize, usize)>,
    /// Ranges where the original and rebuilt bytes differ, first and last byte.
    pub diff_ranges: Seq<(usize, usize)>,
    /// The difference the view is on.
    pub current_diff: Option<usize>,
    /// Whether a selection gets an outline as well as its fill.
    pub selection_outline_enabled: bool,
    /// The range to scroll to when the view is next drawn, in order.
    pub pending_scroll_to: Option<(usize, usize)>,
    /// Whether that scroll puts the range at the top.
    pub pending_scroll_align_top: bool,
    /// The bytes of the file, for the excerpts of a difference.
    pub original_bytes: Option<Seq<u8>>,
    /// The bytes rebuilt from the parsed document.
    pub rebuilt_bytes: Option<Seq<u8>>,
    /// The byte clicked last, until it is taken.
    pub last_clicked_byte: Option<usize>,
}

/// A view with 16 bytes per line and nothing selected, marked or set.
pub open spec fn fresh_view() -> HexViewState {
    HexViewState {
        bytes_per_line: 16,
        selected: None,
        selection_range: None,
        reference_markers: seq![],
        outline_ranges: seq![],
        fill_only_ranges: seq![],
        diff_ranges: seq![],
        current_diff: None,
        selection_outline_enabled: true,
        pending_scroll_to: None,
        pending_scroll_align_top: false,
        original_bytes: None,
        rebuilt_bytes: None,
        last_clicked_byte: None,
    }
}

/// A hex view over some bytes: its selection, margin marks, outlines and the
/// differences between the original and the rebuilt bytes.
pub struct HexViewer {
    bytes_per_line: usize,
    selected: Option<usize>,
    selection_range: Option<(usize, usize)>,
    reference_markers: Vec<usize>,
    outline_ranges: Vec<(usize, usize)>,
    fill_only_ranges: Vec<(usize, usize)>,
    diff_ranges: Vec<(usize, usize)>,
    current_diff_idx: Option<usize>,
    selection_outline_enabled: bool,
    pending_scroll_to: Option<(usize, usize)>,
    pending_scroll_align_top: bool,
    original_bytes: Option<Vec<u8>>,
    rebuilt_bytes: Option<Vec<u8>>,
    last_clicked_byte: Option<usize>,
}

/// Bytes as values.
pub open spec fn bytes_view(bytes: Option<Vec<u8>>) -> Option<Seq<u8>> {
    match bytes {
        Some(bytes) => Some(bytes@),
        None => None,
    }
}

/// A range with its ends in order.
pub open spec fn ordered(start: usize, end: usize) -> (usize, usize) {
    if end >= start {
        (start, end)
    } else {
        (end, start)
    }
}

/// The view on difference `index`: scrolled to, selected, marked and outlined.
pub open spec fn on_diff(state: HexViewState, index: usize) -> HexViewState {
    let (start, end) = state.diff_ranges[index as int];
    HexViewState {
        current_diff: Some(index),
        pending_scroll_to: Some(ordered(start, end)),
        selection_range: Some(ordered(start, end)),
        reference_markers: seq![start],
        outline_ranges: seq![(start, end)],
        selection_outline_enabled: true,
        ..state
    }
}

/// The view with no difference to be on: no selection, outline or mark.
pub open spec fn off_diffs(state: HexViewState) -> HexViewState {
    HexViewState {
        current_diff: None,
        selection_range: None,
        outline_ranges: seq![],
        reference_markers: seq![],
        ..state
    }
}

/// The view after its differences are set: on the first one, scrolled to the
/// top, or off when there are none.
pub open spec fn with_diffs(state: HexViewState, diffs: Seq<(usize, usize)>) -> HexViewState {
    let set = HexViewState { diff_ranges: diffs, ..state };
    if diffs.len() == 0 {
        off_diffs(set)
    } else {
        HexViewState { pending_scroll_to: Some((0, 0)), ..on_diff(set, 0) }
    }
}

/// The difference after `current`, from the last back to the first.
pub open spec fn next_index(current: Option<usize>, count: nat) -> usize {
    match current {
        Some(index) => ((index + 1) % (count as int)) as usize,
        None => 0,
    }
}

/// The difference before `current`, from the first back to the last.
pub open spec fn previous_index(current: Option<usize>, count: nat) -> usize {
    match current {
        Some(index) => ((index + count - 1) % (count as int)) as usize,
        None => 0,
    }
}

/// The view after a click on byte `index` of `len` bytes: a byte within them is
/// selected, marked and remembered as clicked.
pub open spec fn clicked(state: HexViewState, index: usize, len: nat) -> HexViewState {
    if index < len {
        HexViewState {
            selected: Some(index),
            selection_range: Some((index, index)),
            reference_markers: seq![index],
            last_clicked_byte: Some(index),
            ..state
        }
    } else {
        state
    }
}

impl HexViewer {
    #[verifier::type_invariant]
    spec fn well_formed(self) -> bool {
        &&& self.bytes_per_line >= 1
        &&& self.current_diff_idx matches Some(index) ==> index < self.diff_ranges@.len()
    }

    /// The state of this view as values.
    pub closed spec fn state(&self) -> HexViewState {
        HexViewState {
            bytes_per_line: self.bytes_per_line,
            selected: self.selected,
            selection_range: self.selection_range,
            reference_markers: self.reference_markers@,
            outline_ranges: self.outline_ranges@,
            fill_only_ranges: self.fill_only_ranges@,
            diff_ranges: self.diff_ranges@,
            current_diff: self.current_diff_idx,
            selection_outline_enabled: self.selection_outline_enabled,
            pending_scroll_to: self.pending_scroll_to,
            pending_scroll_align_top: self.pending_scroll_align_top,
            original_bytes: bytes_view(self.original_bytes),
            rebuilt_bytes: bytes_view(self.rebuilt_bytes),
            last_clicked_byte: self.last_clicked_byte,
        }
    }

    /// A view with 16 bytes per line and nothing selected, marked or set.
    pub fn new() -> (viewer: Self)
        ensures
            viewer@ == fresh_view(),
    {
        HexViewer {
            bytes_per_line: 16,
            selected: None,
            selection_range: None,
            reference_markers: Vec::new(),
            outline_ranges: Vec::new(),
            fill_only_ranges: Vec::new(),
            diff_ranges: Vec::new(),
            current_diff_idx: None,
            selection_outline_enabled: true,
            pending_scroll_to: None,
            pending_scroll_align_top: false,
            original_bytes: None,
            rebuilt_bytes: None,
            last_clicked_byte: None,
        }
    }

    /// Keep the file's bytes for the excerpts of a difference.
    pub fn set_original_bytes(&mut self, bytes: Option<Vec<u8>>)
        ensures
            final(self)@ == (HexViewState { original_bytes: bytes_view(bytes), ..old(self)@ }),
    {
        proof {
            use_type_invariant(&*self);
        }
        self.original_bytes = bytes;
    }

    /// Keep the rebuilt bytes for the excerpts of a difference.
    pub fn set_rebuilt_bytes(&mut self, bytes: Option<Vec<u8>>)
        ensures
            final(self)@ == (HexViewState { rebuilt_bytes: bytes_view(bytes), ..old(self)@ }),
    {
        proof {
            use_type_invariant(&*self);
        }
        self.rebuilt_bytes = bytes;
    }

    /// The byte clicked last, which is then forgotten.
    pub fn take_last_clicked_byte(&mut self) -> (clicked: Option<usize>)
        ensures
            clicked == old(self)@.last_clicked_byte,
            final(self)@ == (HexViewState { last_clicked_byte: None, ..old(self)@ }),
    {
        proof {
            use_type_invariant(&*self);
        }
        let clicked = self.last_clicked_byte;
        self.last_clicked_byte = None;
        clicked
    }

    /// The view with `bytes_per_line` bytes per line, at least one.
    pub fn with_bytes_per_line(self, bytes_per_line: usize) -> (viewer: Self)
        ensures
            viewer@ == (HexViewState {
                bytes_per_line: if bytes_per_line >= 1 {
                    bytes_per_line
                } else {
                    1
                },
                ..self@
            }),
    {
        let mut viewer = self;
        proof {
            use_type_invariant(&viewer);
        }
        viewer.bytes_per_line = if bytes_per_line >= 1 {
            bytes_per_line
        } else {
            1
        };
        viewer
    }

    /// The bytes shown per line.
    pub fn bytes_per_line(&self) -> (count: usize)
        ensures
            count == self@.bytes_per_line,
            count >= 1,
    {
        proof {
            use_type_invariant(self);
        }
        self.bytes_per_line
    }

    /// The byte last picked by a click.
    pub fn selected(&self) -> (selected: Option<usize>)
        ensures
            selected == self@.selected,
    {
        self.selected
    }

    /// The selected range, first and last byte, in order.
    pub fn selection_range(&self) -> (range: Option<(usize, usize)>)
        ensures
            range == self@.selection_range,
    {
        self.selection_range
    }

    /// Select the bytes from `start` to `end`, taken in either order.
    pub fn set_selection_range(&mut self, start: usize, end: usize)
        ensures
            final(self)@ == (HexViewState {
                selection_range: Some(ordered(start, end)),
                ..old(self)@
            }),
    {
        proof {
            use_type_invariant(&*self);
        }
        if end >= start {
            self.selection_range = Some((start, end));
        } else {
            self.selection_range = Some((end, start));
        }
    }

    /// Select nothing.
    pub fn clear_selection_range(&mut self)
        ensures
            final(self)@ == (HexViewState { selection_range: None, ..old(self)@ }),
    {
        proof {
            use_type_invariant(&*self);
        }
        self.selection_range = None;
    }

    /// Mark `markers` in the margin.
    pub fn set_reference_markers(&mut self, markers: Vec<usize>)
        ensures
            final(self)@ == (HexViewState { reference_markers: markers@, ..old(self)@ }),
    {
        proof {
            use_type_invariant(&*self);
        }
        self.reference_markers = markers;
    }

    /// Mark nothing in the margin.
    pub fn clear_reference_markers(&mut self)
        ensures
            final(self)@ == (HexViewState { reference_markers: seq![], ..old(self)@ }),
    {
        proof {
            use_type_invariant(&*self);
        }
        self.reference_markers = Vec::new();
    }

    /// Outline `outlines`.
    pub fn set_outline_ranges(&mut self, outlines: Vec<(usize, usize)>)
        ensures
            final(self)@ == (HexViewState { outline_ranges: outlines@, ..old(self)@ }),
    {
        proof {
            use_type_invariant(&*self);
        }
        self.outline_ranges = outlines;
    }

    /// Outline nothing.
    pub fn clear_outline_ranges(&mut self)
        ensures
            final(self)@ == (HexViewState { outline_ranges: seq![], ..old(self)@ }),
    {
        proof {
            use_type_invariant(&*self);
        }
        self.outline_ranges = Vec::new();
    }

    /// Draw no outline around a selection inside one of `fills`.
    pub fn set_fill_only_ranges(&mut self, fills: Vec<(usize, usize)>)
        ensures
            final(self)@ == (HexViewState { fill_only_ranges: fills@, ..old(self)@ }),
    {
        proof {
            use_type_invariant(&*self);
        }
        self.fill_only_ranges = fills;
    }

    /// Let every selection have its outline.
    pub fn clear_fill_only_ranges(&mut self)
        ensures
            final(self)@ == (HexViewState { fill_only_ranges: seq![], ..old(self)@ }),
    {
        proof {
            use_type_invariant(&*self);
        }
        self.fill_only_ranges = Vec::new();
    }

    /// Set the differences and go to the first one, scrolled to the top; with none,
    /// clear the selection, outlines and marks.
    pub fn set_diff_ranges(&mut self, diffs: Vec<(usize, usize)>)
        ensures
            final(self)@ == with_diffs(old(self)@, diffs@),
    {
        proof {
            use_type_invariant(&*self);
        }
        self.current_diff_idx = None;
        self.diff_ranges = diffs;
        if self.diff_ranges.len() == 0 {
            self.clear_selection_range();
            self.clear_outline_ranges();
            self.clear_reference_markers();
        } else {
            self.current_diff_idx = Some(0);
            self.set_pending_scroll_to(0, 0);
            let (start, end) = self.diff_ranges[0];
            self.set_selection_range(start, end);
            let mut markers: Vec<usize> = Vec::new();
            markers.push(start);
            self.set_reference_markers(markers);
            let mut outlines: Vec<(usize, usize)> = Vec::new();
            outlines.push((start, end));
            self.set_outline_ranges(outlines);
            self.set_selection_outline_enabled(true);
        }
    }

    /// Select, mark, outline and scroll to difference `index`.
    fn show_diff(&mut self, index: usize)
        requires
            index < old(self)@.diff_ranges.len(),
            old(self)@.current_diff == Some(index),
        ensures
            final(self)@ == on_diff(old(self)@, index),
    {
        proof {
            use_type_invariant(&*self);
        }
        let (start, end) = self.diff_ranges[index];
        self.set_pending_scroll_to(start, end);
        self.set_selection_range(start, end);
        let mut markers: Vec<usize> = Vec::new();
        markers.push(start);
        self.set_reference_markers(markers);
        let mut outlines: Vec<(usize, usize)> = Vec::new();
        outlines.push((start, end));
        self.set_outline_ranges(outlines);
        self.set_selection_outline_enabled(true);
    }

    /// Forget the differences.
    pub fn clear_diff_ranges(&mut self)
        ensures
            final(self)@ == (HexViewState { diff_ranges: seq![], current_diff: None, ..old(self)@ }),
    {
        proof {
            use_type_invariant(&*self);
        }
        self.current_diff_idx = None;
        self.diff_ranges = Vec::new();
    }

    /// The differences, first and last byte of each.
    pub fn diff_ranges(&self) -> (diffs: &[(usize, usize)])
        ensures
            diffs@ == self@.diff_ranges,
    {
        self.diff_ranges.as_slice()
    }

    /// Whether there is any difference.
    pub fn has_diffs(&self) -> (any: bool)
        ensures
            any == (self@.diff_ranges.len() > 0),
    {
        self.diff_ranges.len() > 0
    }

    /// The difference the view is on.
    pub fn current_diff_index(&self) -> (index: Option<usize>)
        ensures
            index == self@.current_diff,
    {
        self.current_diff_idx
    }

    /// The range of the difference the view is on.
    pub fn current_diff_range(&self) -> (range: Option<(usize, usize)>)
        ensures
            range == (match self@.current_diff {
                Some(index) => Some(self@.diff_ranges[index as int]),
                None => None,
            }),
    {
        proof {
            use_type_invariant(self);
        }
        match self.current_diff_idx {
            Some(index) => Some(self.diff_ranges[index]),
            None => None,
        }
    }

    /// Go to the next difference, from the last back to the first; with none,
    /// clear the selection, outlines and marks.
    pub fn next_diff(&mut self)
        ensures
            final(self)@ == (if old(self)@.diff_ranges.len() == 0 {
                off_diffs(old(self)@)
            } else {
                on_diff(
                    old(self)@,
                    next_index(old(self)@.current_diff, old(self)@.diff_ranges.len()),
                )
            }),
    {
        proof {
            use_type_invariant(&*self);
        }
        if self.diff_ranges.len() == 0 {
            self.current_diff_idx = None;
            self.clear_selection_range();
            self.clear_outline_ranges();
            self.clear_reference_markers();
            return;
        }
        let count = self.diff_ranges.len();
        let next = match self.current_diff_idx {
            Some(index) => (index + 1) % count,
            None => 0,
        };
        self.current_diff_idx = Some(next);
        self.show_diff(next);
    }

    /// Go to the previous difference, from the first back to the last; with none,
    /// clear the selection, outlines and marks.
    pub fn prev_diff(&mut self)
        ensures
            final(self)@ == (if old(self)@.diff_ranges.len() == 0 {
                off_diffs(old(self)@)
            } else {
                on_diff(
                    old(self)@,
                    previous_index(old(self)@.current_diff, old(self)@.diff_ranges.len()),
                )
            }),
    {
        proof {
            use_type_invariant(&*self);
        }
        if self.diff_ranges.len() == 0 {
            self.current_diff_idx = None;
            self.clear_selection_range();
            self.clear_outline_ranges();
            self.clear_reference_markers();
            return;
        }
        let count = self.diff_ranges.len();
        let previous = match self.current_diff_idx {
            Some(index) => {
                let previous = if index == 0 {
                    count - 1
                } else {
                    index - 1
                };
                proof {
                    assert(previous as int == (index + count - 1) % (count as int)) by (
                    nonlinear_arith)
                        requires
                            index < count,
                            previous == (if index == 0 {
                                count - 1
                            } else {
                                index - 1
                            }),
                    ;
                }
                previous
            },
            None => 0,
        };
        self.current_diff_idx = Some(previous);
        self.show_diff(previous);
    }

    /// Give a selection an outline as well as its fill, or not.
    pub fn set_selection_outline_enabled(&mut self, enabled: bool)
        ensures
            final(self)@ == (HexViewState { selection_outline_enabled: enabled, ..old(self)@ }),
    {
        proof {
            use_type_invariant(&*self);
        }
        self.selection_outline_enabled = enabled;
    }

    /// Scroll to the bytes from `start` to `end`, taken in either order, when the
    /// view is next drawn.
    pub fn set_pending_scroll_to(&mut self, start: usize, end: usize)
        ensures
            final(self)@ == (HexViewState {
                pending_scroll_to: Some(ordered(start, end)),
                ..old(self)@
            }),
    {
        proof {
            use_type_invariant(&*self);
        }
        if end >= start {
            self.pending_scroll_to = Some((start, end));
        } else {
            self.pending_scroll_to = Some((end, start));
        }
    }

    /// The scroll requested for this drawing and whether it goes to the top; the
    /// request is then used up.
    pub fn take_pending_scroll(&mut self) -> (scroll: Option<((usize, usize), bool)>)
        ensures
            scroll == (match old(self)@.pending_scroll_to {
                Some(range) => Some((range, old(self)@.pending_scroll_align_top)),
                None => None,
            }),
            final(self)@ == (match old(self)@.pending_scroll_to {
                Some(_) => HexViewState {
                    pending_scroll_to: None,
                    pending_scroll_align_top: false,
                    ..old(self)@
                },
                None => old(self)@,
            }),
    {
        proof {
            use_type_invariant(&*self);
        }
        match self.pending_scroll_to {
            Some(range) => {
                self.pending_scroll_to = None;
                let align_top = self.pending_scroll_align_top;
                self.pending_scroll_align_top = false;
                Some((range, align_top))
            },
            None => None,
        }
    }

    /// A click on byte `index` of the `len` bytes shown: a byte within them is
    /// selected, marked and remembered as clicked.
    pub fn click_byte(&mut self, index: usize, len: usize)
        ensures
            final(self)@ == clicked(old(self)@, index, len as nat),
    {
        proof {
            use_type_invariant(&*self);
        }
        if index < len {
            self.selected = Some(index);
            self.selection_range = Some((index, index));
            let mut markers: Vec<usize> = Vec::new();
            markers.push(index);
            self.reference_markers = markers;
            self.last_clicked_byte = Some(index);
        }
    }

    /// Whether the selection from `start` to `end` gets an outline: outlines are on
    /// and no fill-only range holds it.
    pub fn selection_stroked(&self, start: usize, end: usize) -> (stroked: bool)
        ensures
            stroked == (self@.selection_outline_enabled && !exists|i: int|
                0 <= i < self@.fill_only_ranges.len() && #[trigger] self@.fill_only_ranges[i].0
                    <= start && end <= self@.fill_only_ranges[i].1),
    {
        if !self.selection_outline_enabled {
            return false;
        }
        let mut index: usize = 0;
        while index < self.fill_only_ranges.len()
            invariant
                index <= self.fill_only_ranges@.len(),
                forall|i: int|
                    0 <= i < index ==> !(#[trigger] self.fill_only_ranges@[i].0 <= start && end
                        <= self.fill_only_ranges@[i].1),
            decreases self.fill_only_ranges@.len() - index,
        {
            let (fill_start, fill_end) = self.fill_only_ranges[index];
            if fill_start <= start && fill_end >= end {
                assert(self@.fill_only_ranges[index as int].0 <= start && end
                    <= self@.fill_only_ranges[index as int].1);
                return false;
            }
            index += 1;
        }
        true
    }
}

impl View for HexViewer {
    type V = HexViewState;

    open spec fn view(&self) -> HexViewState {
        self.state()
    }
}

/// The lines needed for `len` bytes at `bytes_per_line` bytes per line.
pub open spec fn lines_for(len: nat, bytes_per_line: nat) -> nat {
    if len == 0 {
        0
    } else {
        ((len + bytes_per_line - 1) / (bytes_per_line as int)) as nat
    }
}

/// The number of lines the view takes for `len` bytes.
pub fn line_count(len: usize, bytes_per_line: usize) -> (lines: usize)
    requires
        bytes_per_line >= 1,
    ensures
        lines == lines_for(len as nat, bytes_per_line as nat),
{
    if len == 0 {
        return 0;
    }
    let full = len / bytes_per_line;
    proof {
        assert(len % bytes_per_line != 0 ==> full < usize::MAX) by (nonlinear_arith)
            requires
                bytes_per_line >= 1,
                full == len / bytes_per_line,
                len <= usize::MAX,
        ;
    }
    let lines = if len % bytes_per_line == 0 {
        full
    } else {
        full + 1
    };
    proof {
        assert(lines == (len + bytes_per_line - 1) / (bytes_per_line as int)) by (nonlinear_arith)
            requires
                bytes_per_line >= 1,
                full == len / bytes_per_line,
                lines == (if len % bytes_per_line == 0 {
                    full as int
                } else {
                    full + 1
                }),
        ;
    }
    lines
}

/// The character the text column shows for a byte: printable ASCII and space as
/// themselves, anything else as `.`.
pub open spec fn shown_char(byte: u8) -> char {
    if 0x20 <= byte <= 0x7e {
        byte as char
    } else {
        '.'
    }
}

pub fn shown_char_of(byte: u8) -> (c: char)
    ensures
        c == shown_char(byte),
{
    if 0x20 <= byte && byte <= 0x7e {
        byte as char
    } else {
        '.'
    }
}

/// A byte as two upper-case hexadecimal digits.
pub open spec fn hex_text(byte: u8) -> Seq<char> {
    upper_hex(byte as nat, 2)
}

/// The offset at the start of a line: eight upper-case hexadecimal digits and `:`.
pub open spec fn offset_text(offset: nat) -> Seq<char> {
    upper_hex(offset, 8) + ":"@
}

/// The first byte of line `line` and the end of its bytes.
pub open spec fn line_span(len: nat, line: nat, bytes_per_line: nat) -> (int, int) {
    let start = line * bytes_per_line;
    let end: int = if (line + 1) * bytes_per_line <= len {
        ((line + 1) * bytes_per_line) as int
    } else {
        len as int
    };
    (start as int, end)
}

/// One line of the view: its offset, the hex digits of each byte, and the text
/// column.
pub fn hex_row(bytes: &[u8], line: usize, bytes_per_line: usize) -> (row: (String, Vec<String>, String))
    requires
        bytes_per_line >= 1,
        line * bytes_per_line < bytes@.len(),
    ensures
        ({
            let (start, end) = line_span(bytes@.len(), line as nat, bytes_per_line as nat);
            &&& row.0@ == offset_text((line * bytes_per_line) as nat)
            &&& row.1@.len() == end - start
            &&& forall|i: int| 0 <= i < end - start ==> (#[trigger] row.1@[i])@ == hex_text(bytes@[start + i])
            &&& row.2@ == bytes@.subrange(start, end).map_values(|byte: u8| shown_char(byte))
        }),
{
    let len = bytes.len();
    let start = line * bytes_per_line;
    let remaining = len - start;
    let count = if remaining < bytes_per_line {
        remaining
    } else {
        bytes_per_line
    };
    let end = start + count;
    proof {
        assert(end == line_span(bytes@.len(), line as nat, bytes_per_line as nat).1) by (nonlinear_arith)
            requires
                start == line * bytes_per_line,
                remaining == bytes@.len() - start,
                count == (if remaining < bytes_per_line {
                    remaining as int
                } else {
                    bytes_per_line as int
                }),
                end == start + count,
        ;
    }
    let mut label = String::new();
    push_upper_hex(&mut label, start as u64, 8);
    push_str(&mut label, ":");
    let mut cells: Vec<String> = Vec::new();
    let mut text = String::new();
    let mut index = start;
    while index < end
        invariant
            start <= index <= end <= bytes@.len(),
            cells@.len() == index - start,
            forall|i: int| 0 <= i < index - start ==> (#[trigger] cells@[i])@ == hex_text(bytes@[start + i]),
            text@ == bytes@.subrange(start as int, index as int).map_values(|byte: u8| shown_char(byte)),
        decreases end - index,
    {
        let mut cell = String::new();
        push_upper_hex(&mut cell, bytes[index] as u64, 2);
        cells.push(cell);
        push_char(&mut text, shown_char_of(bytes[index]));
        proof {
            assert(bytes@.subrange(start as int, index + 1).map_values(|byte: u8| shown_char(byte))
                =~= bytes@.subrange(start as int, index as int).map_values(|byte: u8| shown_char(byte)).push(
                shown_char(bytes@[index as int]),
            ));
        }
        index += 1;
    }
    (label, cells, text)
}

/// The part of a selection that the view can show of `len` bytes: its ends in
/// order and held to the last byte, when either end lies within the bytes.
pub open spec fn selection_band_spec(range: (usize, usize), len: nat) -> Option<(usize, usize)> {
    let (start, end) = ordered(range.0, range.1);
    if range.0 < len || range.1 < len {
        Some(
            (
                if start < len { start } else { (len - 1) as usize },
                if end < len { end } else { (len - 1) as usize },
            ),
        )
    } else {
        None
    }
}

pub fn selection_band(range: (usize, usize), len: usize) -> (band: Option<(usize, usize)>)
    ensures
        band == selection_band_spec(range, len as nat),
{
    let (start, end) = if range.1 < range.0 {
        (range.1, range.0)
    } else {
        (range.0, range.1)
    };
    if range.0 < len || range.1 < len {
        let last = len - 1;
        Some(
            (
                if start < len { start } else { last },
                if end < len { end } else { last },
            ),
        )
    } else {
        None
    }
}

/// The part of an outline or difference that the view can show of `len` bytes:
/// its ends held to the last byte, when either lies within the bytes and they
/// stay in order.
pub open spec fn overlay_band_spec(range: (usize, usize), len: nat) -> Option<(usize, usize)> {
    let start = if range.0 < len { range.0 } else { (len - 1) as usize };
    let end = if range.1 < len { range.1 } else { (len - 1) as usize };
    if (range.0 < len || range.1 < len) && end >= start {
        Some((start, end))
    } else {
        None
    }
}

pub fn overlay_band(range: (usize, usize), len: usize) -> (band: Option<(usize, usize)>)
    ensures
        band == overlay_band_spec(range, len as nat),
{
    if range.0 < len || range.1 < len {
        let last = len - 1;
        let start = if range.0 < len { range.0 } else { last };
        let end = if range.1 < len { range.1 } else { last };
        if end >= start {
            return Some((start, end));
        }
    }
    None
}

/// The part of a requested scroll that the view can show of `len` bytes: its
/// ends held to the last byte, when there are any bytes.
pub open spec fn scroll_band_spec(range: (usize, usize), len: nat) -> Option<(usize, usize)> {
    if len > 0 {
        Some(
            (
                if range.0 < len { range.0 } else { (len - 1) as usize },
                if range.1 < len { range.1 } else { (len - 1) as usize },
            ),
        )
    } else {
        None
    }
}

pub fn scroll_band(range: (usize, usize), len: usize) -> (band: Option<(usize, usize)>)
    ensures
        band == scroll_band_spec(range, len as nat),
{
    if len > 0 {
        let last = len - 1;
        Some((if range.0 < len { range.0 } else { last }, if range.1 < len { range.1 } else { last }))
    } else {
        None
    }
}

/// Line `k` of a band from byte `start` to byte `end`: the line and the first and
/// last column it covers there.
pub open spec fn band_segment(start: nat, end: nat, bytes_per_line: nat, k: int) -> (usize, usize, usize) {
    let first_line = start / bytes_per_line;
    let last_line = end / bytes_per_line;
    let line = first_line + k;
    (
        line as usize,
        if line == first_line { (start % bytes_per_line) as usize } else { 0 },
        if line == last_line { (end % bytes_per_line) as usize } else { (bytes_per_line - 1) as usize },
    )
}

/// The lines a band from byte `start` to byte `end` crosses, each with the columns
/// it covers.
pub fn band_segments(start: usize, end: usize, bytes_per_line: usize) -> (segments: Vec<(usize, usize, usize)>)
    requires
        bytes_per_line >= 1,
        start <= end,
    ensures
        segments@.len() == end / bytes_per_line - start / bytes_per_line + 1,
        forall|k: int|
            0 <= k < segments@.len() ==> #[trigger] segments@[k] == band_segment(
                start as nat,
                end as nat,
                bytes_per_line as nat,
                k,
            ),
{
    let first_line = start / bytes_per_line;
    let last_line = end / bytes_per_line;
    proof {
        assert(first_line <= last_line) by (nonlinear_arith)
            requires
                start <= end,
                bytes_per_line >= 1,
                first_line == start / bytes_per_line,
                last_line == end / bytes_per_line,
        ;
    }
    let mut segments: Vec<(usize, usize, usize)> = Vec::new();
    let mut line = first_line;
    loop
        invariant_except_break
            first_line <= line <= last_line,
            segments@.len() == line - first_line,
        invariant
            first_line == start / bytes_per_line,
            last_line == end / bytes_per_line,
            first_line <= last_line,
            bytes_per_line >= 1,
            forall|k: int|
                0 <= k < segments@.len() ==> #[trigger] segments@[k] == band_segment(
                    start as nat,
                    end as nat,
                    bytes_per_line as nat,
                    k,
                ),
        ensures
            segments@.len() == last_line - first_line + 1,
        decreases last_line - line,
    {
        let first_column = if line == first_line {
            start % bytes_per_line
        } else {
            0
        };
        let last_column = if line == last_line {
            end % bytes_per_line
        } else {
            bytes_per_line - 1
        };
        segments.push((line, first_column, last_column));
        if line == last_line {
            break;
        }
        line += 1;
    }
    segments
}

/// The line of a margin mark, when it lies within the `len` bytes.
pub fn marker_line(marker: usize, len: usize, bytes_per_line: usize) -> (line: Option<usize>)
    requires
        bytes_per_line >= 1,
    ensures
        line == (if marker < len {
            Some((marker / bytes_per_line) as usize)
        } else {
            None::<usize>
        }),
{
    if marker < len {
        Some(marker / bytes_per_line)
    } else {
        None
    }
}

/// Parts separated by single spaces.
pub open spec fn joined(parts: Seq<Seq<char>>) -> Seq<char>
    decreases parts.len(),
{
    if parts.len() == 0 {
        seq![]
    } else if parts.len() == 1 {
        parts[0]
    } else {
        joined(parts.drop_last()) + " "@ + parts.last()
    }
}

/// Up to 64 parts joined; more as the first 32 and the last 32 around ` ... `.
pub open spec fn shortened(parts: Seq<Seq<char>>) -> Seq<char> {
    if parts.len() <= 64 {
        joined(parts)
    } else {
        joined(parts.take(32)) + " ... "@ + joined(parts.skip(parts.len() - 32))
    }
}

/// Up to 64 characters; more as the first 32 and the last 32 around ` ... `.
pub open spec fn shortened_text(text: Seq<char>) -> Seq<char> {
    if text.len() <= 64 {
        text
    } else {
        text.take(32) + " ... "@ + text.skip(text.len() - 32)
    }
}

/// The hex digits of byte `index`, or `--` past the end.
pub open spec fn byte_part(bytes: Seq<u8>, index: int) -> Seq<char> {
    if index < bytes.len() {
        hex_text(bytes[index])
    } else {
        "--"@
    }
}

/// The character of byte `index`, or `.` past the end.
pub open spec fn byte_char(bytes: Seq<u8>, index: int) -> char {
    if index < bytes.len() {
        shown_char(bytes[index])
    } else {
        '.'
    }
}

/// The hex and text excerpts of the `count` bytes from `start`.
pub open spec fn excerpt_spec(bytes: Seq<u8>, start: int, count: int) -> (Seq<char>, Seq<char>) {
    (
        shortened(Seq::new(count as nat, |k: int| byte_part(bytes, start + k))),
        shortened_text(Seq::new(count as nat, |k: int| byte_char(bytes, start + k))),
    )
}

proof fn lemma_joined_push(parts: Seq<Seq<char>>, part: Seq<char>)
    ensures
        joined(parts.push(part)) == if parts.len() == 0 {
            part
        } else {
            joined(parts) + " "@ + part
        },
{
    assert(parts.push(part).drop_last() =~= parts);
}

/// Push the parts `from..to` of the bytes from `start`, joined by spaces.
fn push_parts(text: &mut String, bytes: &[u8], start: usize, from: usize, to: usize)
    requires
        from <= to,
        start + to <= usize::MAX,
    ensures
        final(text)@ == old(text)@ + joined(
            Seq::new((to - from) as nat, |k: int| byte_part(bytes@, start + from + k)),
        ),
{
    let mut k = from;
    while k < to
        invariant
            from <= k <= to,
            start + to <= usize::MAX,
            text@ == old(text)@ + joined(
                Seq::new((k - from) as nat, |j: int| byte_part(bytes@, start + from + j)),
            ),
        decreases to - k,
    {
        let ghost before = Seq::new((k - from) as nat, |j: int| byte_part(bytes@, start + from + j));
        if k > from {
            push_str(text, " ");
        }
        let index = start + k;
        if index < bytes.len() {
            push_upper_hex(text, bytes[index] as u64, 2);
        } else {
            push_str(text, "--");
        }
        proof {
            let after = Seq::new((k + 1 - from) as nat, |j: int| byte_part(bytes@, start + from + j));
            assert(after =~= before.push(byte_part(bytes@, start + k)));
            lemma_joined_push(before, byte_part(bytes@, start + k));
        }
        k += 1;
    }
}

/// Push the characters `from..to` of the bytes from `start`.
fn push_chars_of(text: &mut String, bytes: &[u8], start: usize, from: usize, to: usize)
    requires
        from <= to,
        start + to <= usize::MAX,
    ensures
        final(text)@ == old(text)@ + Seq::new((to - from) as nat, |k: int| byte_char(bytes@, start + from + k)),
{
    let mut k = from;
    while k < to
        invariant
            from <= k <= to,
            start + to <= usize::MAX,
            text@ == old(text)@ + Seq::new((k - from) as nat, |j: int| byte_char(bytes@, start + from + j)),
        decreases to - k,
    {
        let index = start + k;
        let c = if index < bytes.len() {
            shown_char_of(bytes[index])
        } else {
            '.'
        };
        push_char(text, c);
        proof {
            assert(old(text)@ + Seq::new((k + 1 - from) as nat, |j: int| byte_char(bytes@, start + from + j))
                =~= old(text)@ + Seq::new((k - from) as nat, |j: int| byte_char(bytes@, start + from + j)) + seq![c]);
        }
        k += 1;
    }
}

/// The hex and text excerpts of the `count` bytes from `start`, each byte as two
/// hex digits (`--` past the end) or one character (`.` past the end); more than
/// 64 show their first and last 32.
pub fn excerpt(bytes: &[u8], start: usize, count: usize) -> (texts: (String, String))
    requires
        start + count <= usize::MAX,
    ensures
        texts.0@ == excerpt_spec(bytes@, start as int, count as int).0,
        texts.1@ == excerpt_spec(bytes@, start as int, count as int).1,
{
    let ghost parts = Seq::new(count as nat, |k: int| byte_part(bytes@, start + k));
    let ghost chars = Seq::new(count as nat, |k: int| byte_char(bytes@, start + k));
    let mut hex = String::new();
    let mut text = String::new();
    if count <= 64 {
        push_parts(&mut hex, bytes, start, 0, count);
        push_chars_of(&mut text, bytes, start, 0, count);
        proof {
            assert(Seq::new((count - 0) as nat, |k: int| byte_part(bytes@, start + 0 + k)) =~= parts);
            assert(Seq::new((count - 0) as nat, |k: int| byte_char(bytes@, start + 0 + k)) =~= chars);
        }
    } else {
        push_parts(&mut hex, bytes, start, 0, 32);
        push_str(&mut hex, " ... ");
        push_parts(&mut hex, bytes, start, count - 32, count);
        push_chars_of(&mut text, bytes, start, 0, 32);
        push_str(&mut text, " ... ");
        push_chars_of(&mut text, bytes, start, count - 32, count);
        proof {
            assert(Seq::new((32 - 0) as nat, |k: int| byte_part(bytes@, start + 0 + k)) =~= parts.take(32));
            assert(Seq::new((count - (count - 32)) as nat, |k: int| byte_part(bytes@, start + (count - 32) + k))
                =~= parts.skip(count - 32));
            assert(Seq::new((32 - 0) as nat, |k: int| byte_char(bytes@, start + 0 + k)) =~= chars.take(32));
            assert(Seq::new((count - (count - 32)) as nat, |k: int| byte_char(bytes@, start + (count - 32) + k))
                =~= chars.skip(count - 32));
        }
    }
    (hex, text)
}

impl HexViewer {
    /// The excerpts shown over a difference from `start` to `end`: of the original
    /// bytes (the file's, else `bytes`) when the range lies within them, and of the
    /// rebuilt bytes when there are any.
    pub fn diff_excerpts(&self, bytes: &[u8], start: usize, end: usize) -> (excerpts: Option<
        ((String, String), Option<(String, String)>),
    >)
        ensures
            ({
                let original = match self@.original_bytes {
                    Some(original) => original,
                    None => bytes@,
                };
                match excerpts {
                    None => !(start <= end && end < original.len()),
                    Some((shown, rebuilt)) => {
                        &&& start <= end && end < original.len()
                        &&& (shown.0@, shown.1@) == excerpt_spec(original, start as int, end - start + 1)
                        &&& match self@.rebuilt_bytes {
                            None => rebuilt is None,
                            Some(again) => rebuilt matches Some(texts) && (texts.0@, texts.1@)
                                == excerpt_spec(again, start as int, end - start + 1),
                        }
                    },
                }
            }),
    {
        let original: &[u8] = match &self.original_bytes {
            Some(original) => original.as_slice(),
            None => bytes,
        };
        if !(start <= end && end < original.len()) {
            return None;
        }
        let count = end - start + 1;
        let shown = excerpt(original, start, count);
        let rebuilt = match &self.rebuilt_bytes {
            Some(again) => Some(excerpt(again.as_slice(), start, count)),
            None => None,
        };
        Some((shown, rebuilt))
    }
}

/// Stepping back one difference and then forward one comes back to where the view
/// was, and so does stepping forward and then back.
pub proof fn lemma_diff_steps_undo(current: usize, count: nat)
    requires
        current < count <= usize::MAX,
    ensures
        next_index(Some(previous_index(Some(current), count)), count) == current,
        previous_index(Some(next_index(Some(current), count)), count) == current,
{
    let c = count as int;
    let i = current as int;
    let back = (i + c - 1) % c;
    let forward = (i + 1) % c;
    assert(back == (if i == 0 { c - 1 } else { i - 1 })) by (nonlinear_arith)
        requires
            0 <= i < c,
            back == (i + c - 1) % c,
    ;
    assert(forward == (if i == c - 1 { 0 } else { i + 1 })) by (nonlinear_arith)
        requires
            0 <= i < c,
            forward == (i + 1) % c,
    ;
    assert((back + 1) % c == i) by (nonlinear_arith)
        requires
            0 <= i < c,
            back == (if i == 0 { c - 1 } else { i - 1 }),
    ;
    assert((forward + c - 1) % c == i) by (nonlinear_arith)
        requires
            0 <= i < c,
            forward == (if i == c - 1 { 0 } else { i + 1 }),
    ;
}

} // verus!

//! What the tree panel shows for a leaf and where picking the leaf points the
//! hex view.
use vstd::prelude::*;

use super::hex::{ordered, HexViewState, HexViewer};
use super::state::AstNode;
use crate::debugger::tree::{detail_address, parse_address_from_detail};
use crate::text::{chars_of, push_chars, push_str};

verus! {

broadcast use vstd::std_specs::vec::group_vec_axioms;

/// The position of the first line feed at or after `start`, or the end.
pub open spec fn line_feed_from(text: Seq<char>, start: int) -> int
    decreases text.len() - start,
{
    if start < 0 || start >= text.len() || text[start] == '\n' {
        start
    } else {
        line_feed_from(text, start + 1)
    }
}

/// The first line of a text: up to its first line feed, without a carriage return
/// right before it; the whole text when it has no line feed.
pub open spec fn first_line(text: Seq<char>) -> Seq<char> {
    let end = line_feed_from(text, 0);
    if end >= text.len() {
        text
    } else if end > 0 && text[end - 1] == '\r' {
        text.take(end - 1)
    } else {
        text.take(end)
    }
}

/// A character Unicode counts as white space.
pub open spec fn is_white_space(c: char) -> bool {
    ('\u{9}' <= c <= '\u{d}') || c == ' ' || c == '\u{85}' || c == '\u{a0}' || c == '\u{1680}'
        || ('\u{2000}' <= c <= '\u{200a}') || c == '\u{2028}' || c == '\u{2029}' || c
        == '\u{202f}' || c == '\u{205f}' || c == '\u{3000}'
}

/// The first position at or after `start` that is not white space, or the end.
pub open spec fn content_start(text: Seq<char>, start: int) -> int
    decreases text.len() - start,
{
    if 0 <= start < text.len() && is_white_space(text[start]) {
        content_start(text, start + 1)
    } else {
        start
    }
}

/// The end of the text before the white space that ends it, not before `floor`.
pub open spec fn content_end(text: Seq<char>, end: int, floor: int) -> int
    decreases end - floor,
{
    if floor < end <= text.len() && is_white_space(text[end - 1]) {
        content_end(text, end - 1, floor)
    } else {
        end
    }
}

/// A text without the white space around it.
pub open spec fn trimmed(text: Seq<char>) -> Seq<char> {
    let start = content_start(text, 0);
    text.subrange(start, content_end(text, text.len() as int, start))
}

/// At most 120 characters; a longer label keeps its first 120 and gets `...`.
pub open spec fn clipped(label: Seq<char>) -> Seq<char> {
    if label.len() > 120 {
        label.take(120) + "..."@
    } else {
        label
    }
}

/// Whether the leaf at `path` shows its detail after its title: leaves below the
/// first top-level node and below a top-level `GD3` node do.
pub open spec fn shows_detail(roots: Seq<AstNode>, path: Seq<usize>) -> bool {
    path.len() >= 2 && (path[0] == 0 || (path[0] < roots.len() && roots[path[0] as int].title@
        == "GD3"@))
}

/// The label of a leaf: the first line of its title, with the first line of its
/// detail trimmed after `: ` where it shows it, clipped to 120 characters.
pub open spec fn label_spec(title: Seq<char>, detail: Seq<char>, detailed: bool) -> Seq<char> {
    let head = first_line(title);
    clipped(
        if detailed {
            head + ": "@ + trimmed(first_line(detail))
        } else {
            head
        },
    )
}

/// The label of the leaf `node` at `path`.
pub open spec fn leaf_label_spec(roots: Seq<AstNode>, path: Seq<usize>, node: AstNode) -> Seq<
    char,
> {
    label_spec(node.title@, node.detail@, shows_detail(roots, path))
}

/// The range of the top-level `Header` or `GD3` node a leaf at `path` lies in.
pub open spec fn section_spec(roots: Seq<AstNode>, path: Seq<usize>) -> Option<(usize, usize)> {
    if path.len() >= 2 && path[0] < roots.len() && (roots[path[0] as int].title@ == "Header"@
        || roots[path[0] as int].title@ == "GD3"@) {
        roots[path[0] as int].byte_range
    } else {
        None
    }
}

/// The last byte of `len` bytes from `start` in `bytes_len` bytes: the sums stop at
/// the bounds of a machine size, and the end is held to the last byte.
pub open spec fn last_byte(start: usize, len: usize, bytes_len: usize) -> usize {
    let sum: int = if start + len > usize::MAX {
        usize::MAX as int
    } else {
        start + len
    };
    let last: int = if sum == 0 {
        0
    } else {
        sum - 1
    };
    let limit: int = if bytes_len == 0 {
        0
    } else {
        bytes_len - 1
    };
    (if last < limit {
        last
    } else {
        limit
    }) as usize
}

/// The end of `len` bytes from `start`, counted as the last byte, within a machine size.
pub open spec fn inclusive_end(start: usize, len: usize) -> usize {
    let sum: int = if start + len > usize::MAX {
        usize::MAX as int
    } else {
        start + len
    };
    (if sum == 0 {
        0
    } else {
        sum - 1
    }) as usize
}

/// The view pointed at the address a leaf's detail names, when it lies within the bytes.
pub open spec fn address_picked(cleared: HexViewState, address: Option<usize>, bytes_len: usize) -> HexViewState {
    match address {
        Some(at) => if at < bytes_len {
            HexViewState {
                selection_range: Some((at, at)),
                reference_markers: seq![at],
                pending_scroll_to: Some((at, at)),
                ..cleared
            }
        } else {
            cleared
        },
        None => cleared,
    }
}

/// The view pointed at a leaf's bytes, else at the address its detail names.
pub open spec fn range_picked(
    cleared: HexViewState,
    range: Option<(usize, usize)>,
    address: Option<usize>,
    bytes_len: usize,
) -> HexViewState {
    match range {
        Some((start, len)) => if start < bytes_len && len > 0 {
            let end = last_byte(start, len, bytes_len);
            HexViewState {
                selection_range: Some(ordered(start, end)),
                reference_markers: seq![start],
                pending_scroll_to: Some(ordered(start, end)),
                ..cleared
            }
        } else {
            address_picked(cleared, address, bytes_len)
        },
        None => address_picked(cleared, address, bytes_len),
    }
}

/// The view after a leaf is picked: inside a `Header` or `GD3` section the whole
/// section is selected without an outline and the leaf's own bytes are outlined
/// (a leaf reached by focus also makes the section fill-only); elsewhere the leaf's
/// bytes are selected, or the address its detail names.
pub open spec fn leaf_picked(
    state: HexViewState,
    section: Option<(usize, usize)>,
    range: Option<(usize, usize)>,
    address: Option<usize>,
    bytes_len: usize,
    focused: bool,
) -> HexViewState {
    let cleared = HexViewState {
        selection_range: None,
        reference_markers: seq![],
        outline_ranges: seq![],
        selection_outline_enabled: true,
        ..state
    };
    match section {
        Some((start, len)) => if start < bytes_len && len > 0 {
            let end = last_byte(start, len, bytes_len);
            HexViewState {
                selection_range: Some(ordered(start, end)),
                reference_markers: seq![start],
                pending_scroll_to: Some(ordered(start, end)),
                fill_only_ranges: if focused {
                    seq![(start, end)]
                } else {
                    cleared.fill_only_ranges
                },
                selection_outline_enabled: false,
                outline_ranges: match range {
                    Some((leaf_start, leaf_len)) => seq![
                        (leaf_start, inclusive_end(leaf_start, leaf_len)),
                    ],
                    None => seq![],
                },
                ..cleared
            }
        } else {
            range_picked(cleared, range, address, bytes_len)
        },
        None => range_picked(cleared, range, address, bytes_len),
    }
}

/// Whether `text` is `word`.
pub fn text_is(text: &String, word: &str) -> (r: bool)
    ensures
        r == (text@ == word@),
{
    let a = chars_of(text.as_str());
    let b = chars_of(word);
    if a.len() != b.len() {
        return false;
    }
    let mut index: usize = 0;
    while index < a.len()
        invariant
            a@ == text@,
            b@ == word@,
            a@.len() == b@.len(),
            index <= a@.len(),
            forall|i: int| 0 <= i < index ==> a@[i] == b@[i],
        decreases a@.len() - index,
    {
        if a[index] != b[index] {
            return false;
        }
        index += 1;
    }
    proof {
        assert(a@ =~= b@);
    }
    true
}

/// The range of the top-level `Header` or `GD3` node a leaf at `path` lies in.
pub fn section_range(roots: &Vec<AstNode>, path: &[usize]) -> (range: Option<(usize, usize)>)
    ensures
        range == section_spec(roots@, path@),
{
    if path.len() >= 2 && path[0] < roots.len() {
        let top = &roots[path[0]];
        if text_is(&top.title, "Header") || text_is(&top.title, "GD3") {
            return top.byte_range;
        }
    }
    None
}

fn line_feed(text: &Vec<char>) -> (end: usize)
    ensures
        end == line_feed_from(text@, 0),
{
    let mut end: usize = 0;
    while end < text.len() && text[end] != '\n'
        invariant
            end <= text@.len(),
            line_feed_from(text@, 0) == line_feed_from(text@, end as int),
        decreases text@.len() - end,
    {
        end += 1;
    }
    end
}

/// The end of the first line of `text`, as `first_line` takes it.
fn first_line_end(text: &Vec<char>) -> (end: usize)
    ensures
        end <= text@.len(),
        text@.take(end as int) == first_line(text@),
{
    let feed = line_feed(text);
    if feed >= text.len() {
        proof {
            assert(text@.take(text@.len() as int) =~= text@);
        }
        text.len()
    } else if feed > 0 && text[feed - 1] == '\r' {
        feed - 1
    } else {
        feed
    }
}

fn is_white_space_char(c: char) -> (r: bool)
    ensures
        r == is_white_space(c),
{
    ('\u{9}' <= c && c <= '\u{d}') || c == ' ' || c == '\u{85}' || c == '\u{a0}' || c == '\u{1680}'
        || ('\u{2000}' <= c && c <= '\u{200a}') || c == '\u{2028}' || c == '\u{2029}' || c
        == '\u{202f}' || c == '\u{205f}' || c == '\u{3000}'
}

/// A leaf's label from its title and detail: the first line of the title, then, when
/// `detailed`, `: ` and the trimmed first line of the detail; at most 120 characters,
/// a longer one clipped and ended with `...`.
pub fn label_text(title_text: &String, detail_text: &String, detailed: bool) -> (label: String)
    ensures
        label@ == label_spec(title_text@, detail_text@, detailed),
{
    let title = chars_of(title_text.as_str());
    let title_end = first_line_end(&title);
    let mut label_text = String::new();
    push_chars(&mut label_text, vstd::slice::slice_subrange(title.as_slice(), 0, title_end));
    proof {
        assert(title@.subrange(0, title_end as int) =~= title@.take(title_end as int));
    }
    if detailed {
        let detail = chars_of(detail_text.as_str());
        let line_end = first_line_end(&detail);
        let mut start: usize = 0;
        while start < line_end && is_white_space_char(detail[start])
            invariant
                start <= line_end <= detail@.len(),
                content_start(detail@.take(line_end as int), 0) == content_start(
                    detail@.take(line_end as int),
                    start as int,
                ),
            decreases line_end - start,
        {
            start += 1;
        }
        let mut end: usize = line_end;
        while end > start && is_white_space_char(detail[end - 1])
            invariant
                start <= end <= line_end <= detail@.len(),
                content_end(detail@.take(line_end as int), line_end as int, start as int)
                    == content_end(detail@.take(line_end as int), end as int, start as int),
            decreases end - start,
        {
            end -= 1;
        }
        push_str(&mut label_text, ": ");
        push_chars(&mut label_text, vstd::slice::slice_subrange(detail.as_slice(), start, end));
        proof {
            let line = detail@.take(line_end as int);
            assert(line == first_line(detail@));
            assert(detail@.subrange(start as int, end as int) =~= line.subrange(
                start as int,
                end as int,
            ));
        }
    }
    let full = chars_of(label_text.as_str());
    if full.len() > 120 {
        let mut clipped_text = String::new();
        push_chars(&mut clipped_text, vstd::slice::slice_subrange(full.as_slice(), 0, 120));
        push_str(&mut clipped_text, "...");
        proof {
            assert(full@.subrange(0, 120) =~= full@.take(120));
        }
        clipped_text
    } else {
        label_text
    }
}

/// The label of a leaf at `path`: the first line of its title, then, below the
/// first top-level node or a `GD3` node, `: ` and the trimmed first line of its
/// detail; at most 120 characters, a longer one clipped and ended with `...`.
pub fn leaf_label(roots: &Vec<AstNode>, path: &[usize], node: &AstNode) -> (label: String)
    ensures
        label@ == leaf_label_spec(roots@, path@, *node),
{
    let detailed = path.len() >= 2 && (path[0] == 0 || (path[0] < roots.len() && text_is(
        &roots[path[0]].title,
        "GD3",
    )));
    label_text(&node.title, &node.detail, detailed)
}

impl HexViewer {
    /// Point the view at a picked leaf with byte range `range` and detail `detail`,
    /// inside `section` when it lies in a `Header` or `GD3` node, over `bytes_len`
    /// bytes; `focused` when the leaf was reached by focus rather than a click.
    pub fn pick_leaf(
        &mut self,
        section: Option<(usize, usize)>,
        range: Option<(usize, usize)>,
        detail: &str,
        bytes_len: usize,
        focused: bool,
    )
        ensures
            final(self)@ == leaf_picked(
                old(self)@,
                section,
                range,
                detail_address(detail@),
                bytes_len,
                focused,
            ),
    {
        self.clear_selection_range();
        self.clear_reference_markers();
        self.clear_outline_ranges();
        self.set_selection_outline_enabled(true);
        let last = if bytes_len == 0 {
            0
        } else {
            bytes_len - 1
        };
        if let Some((start, len)) = section {
            if start < bytes_len && len > 0 {
                let end = start.saturating_add(len).saturating_sub(1);
                let end = if end < last {
                    end
                } else {
                    last
                };
                self.set_selection_range(start, end);
                let mut markers: Vec<usize> = Vec::new();
                markers.push(start);
                self.set_reference_markers(markers);
                self.set_pending_scroll_to(start, end);
                if focused {
                    let mut fills: Vec<(usize, usize)> = Vec::new();
                    fills.push((start, end));
                    self.set_fill_only_ranges(fills);
                }
                self.set_selection_outline_enabled(false);
                match range {
                    Some((leaf_start, leaf_len)) => {
                        let leaf_end = leaf_start.saturating_add(leaf_len).saturating_sub(1);
                        let mut outlines: Vec<(usize, usize)> = Vec::new();
                        outlines.push((leaf_start, leaf_end));
                        self.set_outline_ranges(outlines);
                    },
                    None => self.clear_outline_ranges(),
                }
                return;
            }
        }
        if let Some((start, len)) = range {
            if start < bytes_len && len > 0 {
                let end = start.saturating_add(len).saturating_sub(1);
                let end = if end < last {
                    end
                } else {
                    last
                };
                self.set_selection_range(start, end);
                let mut markers: Vec<usize> = Vec::new();
                markers.push(start);
                self.set_reference_markers(markers);
                self.set_pending_scroll_to(start, end);
                return;
            }
        }
        if let Some(at) = parse_address_from_detail(detail) {
            if at < bytes_len {
                self.set_selection_range(at, at);
                let mut markers: Vec<usize> = Vec::new();
                markers.push(at);
                self.set_reference_markers(markers);
                self.set_pending_scroll_to(at, at);
            }
        }
    }
}

} // verus!

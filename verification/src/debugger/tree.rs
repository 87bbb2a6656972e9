//! Tree paths, and the byte selection a tree node stands for.
use vstd::prelude::*;

use super::ast::AstNode;
use super::state::{UiState, UiView};
use crate::sourcemap::ByteRange;
use crate::viewer::hex::{ordered, HexViewState, HexViewer};
use crate::viewer::tree::{inclusive_end, label_spec, label_text, last_byte, text_is};
use crate::mdx::parse::{all_digits, digits_value, is_digit};
use crate::text::{chars_of, decimal, push_char, push_decimal};

verus! {

/// The key of a tree path: its indices in decimal, joined by `.`.
pub open spec fn path_text(path: Seq<usize>) -> Seq<char>
    decreases path.len(),
{
    if path.len() == 0 {
        seq![]
    } else if path.len() == 1 {
        decimal(path[0] as nat)
    } else {
        path_text(path.drop_last()) + seq!['.'] + decimal(path.last() as nat)
    }
}

/// The key of a tree path, such as `1.2.3`.
pub fn path_key(path: &[usize]) -> (key: String)
    ensures
        key@ == path_text(path@),
{
    let mut key = String::new();
    let mut index: usize = 0;
    while index < path.len()
        invariant
            index <= path@.len(),
            key@ == path_text(path@.take(index as int)),
        decreases path@.len() - index,
    {
        proof {
            assert(path@.take(index + 1).drop_last() =~= path@.take(index as int));
        }
        if index > 0 {
            push_char(&mut key, '.');
        }
        push_decimal(&mut key, path[index] as u64);
        index += 1;
    }
    proof {
        assert(path@.take(path@.len() as int) =~= path@);
    }
    key
}

/// A hexadecimal digit.
pub open spec fn is_hex_digit(c: char) -> bool {
    ('0' <= c <= '9') || ('a' <= c <= 'f') || ('A' <= c <= 'F')
}

pub open spec fn hex_digit_value(c: char) -> nat {
    if '0' <= c <= '9' {
        (c as nat - '0' as nat) as nat
    } else if 'a' <= c <= 'f' {
        (c as nat - 'a' as nat + 10) as nat
    } else {
        (c as nat - 'A' as nat + 10) as nat
    }
}

/// The value of a run of hexadecimal digits.
pub open spec fn hex_value(s: Seq<char>) -> nat
    decreases s.len(),
{
    if s.len() == 0 {
        0
    } else {
        hex_value(s.drop_last()) * 16 + hex_digit_value(s.last())
    }
}

/// The first position at or after `from` where `0x` starts.
pub open spec fn find_hex_prefix(s: Seq<char>, from: int) -> Option<int>
    decreases s.len() - from,
{
    if from < 0 || from + 2 > s.len() {
        None
    } else if s[from] == '0' && s[from + 1] == 'x' {
        Some(from)
    } else {
        find_hex_prefix(s, from + 1)
    }
}

/// The first position at or after `from` that holds a decimal digit.
pub open spec fn find_digit(s: Seq<char>, from: int) -> Option<int>
    decreases s.len() - from,
{
    if from < 0 || from >= s.len() {
        None
    } else if is_digit(s[from]) {
        Some(from)
    } else {
        find_digit(s, from + 1)
    }
}

/// The end of the run of characters satisfying `hex` (hexadecimal or decimal digits) from `from`.
pub open spec fn run_end(s: Seq<char>, from: int, hex: bool) -> int
    decreases s.len() - from,
{
    if from < 0 || from >= s.len() || !(if hex {
        is_hex_digit(s[from])
    } else {
        is_digit(s[from])
    }) {
        from
    } else {
        run_end(s, from + 1, hex)
    }
}

/// The address a node detail names: the hexadecimal number after its first `0x` when there is
/// one that fits a `usize`, otherwise its first run of decimal digits when that fits.
pub open spec fn detail_address(s: Seq<char>) -> Option<usize> {
    let hex = match find_hex_prefix(s, 0) {
        Some(p) => {
            let run = s.subrange(p + 2, run_end(s, p + 2, true));
            if run.len() > 0 && hex_value(run) <= usize::MAX {
                Some(hex_value(run) as usize)
            } else {
                None
            }
        },
        None => None,
    };
    match hex {
        Some(value) => Some(value),
        None => match find_digit(s, 0) {
            Some(q) => {
                let run = s.subrange(q, run_end(s, q, false));
                if digits_value(run) <= usize::MAX {
                    Some(digits_value(run) as usize)
                } else {
                    None
                }
            },
            None => None,
        },
    }
}

proof fn lemma_run_end(s: Seq<char>, from: int, hex: bool)
    requires
        0 <= from <= s.len(),
    ensures
        from <= run_end(s, from, hex) <= s.len(),
        forall|i: int|
            from <= i < run_end(s, from, hex) ==> (if hex {
                is_hex_digit(#[trigger] s[i])
            } else {
                is_digit(s[i])
            }),
    decreases s.len() - from,
{
    if from < s.len() && (if hex {
        is_hex_digit(s[from])
    } else {
        is_digit(s[from])
    }) {
        lemma_run_end(s, from + 1, hex);
    }
}

proof fn lemma_find_bounds(s: Seq<char>, from: int)
    requires
        0 <= from,
    ensures
        find_hex_prefix(s, from) matches Some(p) ==> from <= p && p + 2 <= s.len(),
        find_digit(s, from) matches Some(q) ==> from <= q < s.len(),
    decreases s.len() - from,
{
    if from < s.len() {
        lemma_find_bounds(s, from + 1);
    }
}

/// A hexadecimal digit of either case: `0`..`9`, `a`..`f` or `A`..`F`.
pub open spec fn written_hex_digit(c: char) -> bool {
    ('0' <= c && c <= '9') || ('a' <= c && c <= 'f') || ('A' <= c && c <= 'F')
}

/// The weight of a hexadecimal digit: `0` to `9`, then `a` and `A` ten up to `f` and `F` fifteen.
pub open spec fn digit_weight(c: char) -> int {
    if '0' <= c && c <= '9' {
        c as int - '0' as int
    } else if 'a' <= c && c <= 'f' {
        c as int - 'a' as int + 10
    } else {
        c as int - 'A' as int + 10
    }
}

/// The number a run of hexadecimal digits writes, most significant first.
pub open spec fn written_hex_value(digits: Seq<char>) -> int
    decreases digits.len(),
{
    if digits.len() == 0 {
        0
    } else {
        written_hex_value(digits.drop_last()) * 16 + digit_weight(digits.last())
    }
}

/// A character with the capitals `A`..`F` written small.
pub open spec fn small_hex(c: char) -> char {
    if 'A' <= c && c <= 'F' {
        (c as u32 + 32) as char
    } else {
        c
    }
}

/// Digits with the capitals `A`..`F` written small.
pub open spec fn small_hex_digits(digits: Seq<char>) -> Seq<char> {
    digits.map_values(|c: char| small_hex(c))
}

proof fn lemma_run_end_at(s: Seq<char>, from: int, stop: int)
    requires
        0 <= from <= stop <= s.len(),
        forall|i: int| from <= i < stop ==> written_hex_digit(#[trigger] s[i]),
        stop == s.len() || !written_hex_digit(s[stop]),
    ensures
        run_end(s, from, true) == stop,
    decreases stop - from,
{
    if from < stop {
        lemma_run_end_at(s, from + 1, stop);
    }
}

proof fn lemma_hex_value_written(digits: Seq<char>)
    requires
        forall|i: int| 0 <= i < digits.len() ==> written_hex_digit(#[trigger] digits[i]),
    ensures
        hex_value(digits) == written_hex_value(digits),
    decreases digits.len(),
{
    if digits.len() > 0 {
        lemma_hex_value_written(digits.drop_last());
    }
}

proof fn lemma_small_hex(digits: Seq<char>)
    requires
        forall|i: int| 0 <= i < digits.len() ==> written_hex_digit(#[trigger] digits[i]),
    ensures
        forall|i: int| 0 <= i < digits.len() ==> written_hex_digit(
            #[trigger] small_hex_digits(digits)[i],
        ),
        written_hex_value(small_hex_digits(digits)) == written_hex_value(digits),
    decreases digits.len(),
{
    let small = small_hex_digits(digits);
    assert forall|i: int| 0 <= i < digits.len() implies written_hex_digit(#[trigger] small[i]) by {
        let c = digits[i];
        if 'A' <= c && c <= 'F' {
            assert(small[i] == (c as u32 + 32) as char);
        }
    }
    if digits.len() > 0 {
        let shorter = digits.drop_last();
        lemma_small_hex(shorter);
        assert(small.drop_last() =~= small_hex_digits(shorter));
        let c = digits.last();
        assert(small.last() == small_hex(c));
    }
}

/// A detail naming an address with `0x` reads the whole run of hexadecimal digits after it,
/// in either case: for `0x`, digits, then anything that does not go on with a digit, the
/// address is the value of all the digits (`0x0000002A` and `0x0000002a` are both 42).
pub proof fn lemma_hex_addresses_read_every_digit(digits: Seq<char>, rest: Seq<char>)
    requires
        digits.len() > 0,
        forall|i: int| 0 <= i < digits.len() ==> written_hex_digit(#[trigger] digits[i]),
        rest.len() == 0 || !written_hex_digit(rest[0]),
        written_hex_value(digits) <= usize::MAX,
    ensures
        detail_address(seq!['0', 'x'] + digits + rest) == Some(written_hex_value(digits) as usize),
        detail_address(seq!['0', 'x'] + small_hex_digits(digits) + rest)
            == detail_address(seq!['0', 'x'] + digits + rest),
{
    let small = small_hex_digits(digits);
    lemma_small_hex(digits);
    lemma_hex_address(digits, rest);
    lemma_hex_address(small, rest);
}

proof fn lemma_hex_address(digits: Seq<char>, rest: Seq<char>)
    requires
        digits.len() > 0,
        forall|i: int| 0 <= i < digits.len() ==> written_hex_digit(#[trigger] digits[i]),
        rest.len() == 0 || !written_hex_digit(rest[0]),
        written_hex_value(digits) <= usize::MAX,
    ensures
        detail_address(seq!['0', 'x'] + digits + rest) == Some(written_hex_value(digits) as usize),
{
    let s = seq!['0', 'x'] + digits + rest;
    let stop = 2 + digits.len() as int;
    assert(s[0] == '0' && s[1] == 'x');
    assert(find_hex_prefix(s, 0) == Some(0int));
    assert forall|i: int| 2 <= i < stop implies written_hex_digit(#[trigger] s[i]) by {
        assert(s[i] == digits[i - 2]);
    }
    if rest.len() > 0 {
        assert(s[stop] == rest[0]);
    }
    lemma_run_end_at(s, 2, stop);
    assert(s.subrange(2, stop) =~= digits);
    lemma_hex_value_written(digits);
}

fn in_run(c: char, hex: bool) -> (r: bool)
    ensures
        r == (if hex {
            is_hex_digit(c)
        } else {
            is_digit(c)
        }),
{
    if hex {
        ('0' <= c && c <= '9') || ('a' <= c && c <= 'f') || ('A' <= c && c <= 'F')
    } else {
        '0' <= c && c <= '9'
    }
}

fn run_end_exec(s: &Vec<char>, from: usize, hex: bool) -> (end: usize)
    requires
        from <= s.len(),
    ensures
        end == run_end(s@, from as int, hex),
{
    let mut end = from;
    while end < s.len() && in_run(s[end], hex)
        invariant
            from <= end <= s@.len(),
            run_end(s@, from as int, hex) == run_end(s@, end as int, hex),
        decreases s@.len() - end,
    {
        end += 1;
    }
    end
}

/// The value of the digits in `s[start..end]` in `base` (10 or 16), if it fits a `usize`.
fn run_value(s: &Vec<char>, start: usize, end: usize, hex: bool) -> (r: Option<usize>)
    requires
        start <= end <= s.len(),
        forall|i: int|
            start <= i < end ==> (if hex {
                is_hex_digit(#[trigger] s@[i])
            } else {
                is_digit(s@[i])
            }),
    ensures
        ({
            let run = s@.subrange(start as int, end as int);
            let value = if hex {
                hex_value(run)
            } else {
                digits_value(run)
            };
            r == (if value <= usize::MAX {
                Some(value as usize)
            } else {
                None::<usize>
            })
        }),
{
    let ghost run = s@.subrange(start as int, end as int);
    let mut value: usize = 0;
    let mut index = start;
    let base: usize = if hex {
        16
    } else {
        10
    };
    while index < end
        invariant
            start <= index <= end <= s@.len(),
            run == s@.subrange(start as int, end as int),
            base == (if hex {
                16usize
            } else {
                10usize
            }),
            forall|i: int|
                start <= i < end ==> (if hex {
                    is_hex_digit(#[trigger] s@[i])
                } else {
                    is_digit(s@[i])
                }),
            value == (if hex {
                hex_value(run.subrange(0, index - start))
            } else {
                digits_value(run.subrange(0, index - start))
            }),
        decreases end - index,
    {
        proof {
            assert(run.subrange(0, index - start + 1).drop_last() =~= run.subrange(0, index - start));
            assert(run.subrange(0, index - start + 1).last() == s@[index as int]);
        }
        let c = s[index];
        let d: usize = if '0' <= c && c <= '9' {
            (c as u32 - '0' as u32) as usize
        } else if 'a' <= c && c <= 'f' {
            (c as u32 - 'a' as u32 + 10) as usize
        } else {
            (c as u32 - 'A' as u32 + 10) as usize
        };
        let limit = (usize::MAX - d) / base;
        if value > limit {
            proof {
                lemma_value_grows(run, index - start + 1, end - start, hex);
                assert(value * base + d > usize::MAX) by (nonlinear_arith)
                    requires
                        value > limit,
                        limit == (usize::MAX - d) / base as int,
                        base >= 10,
                        d < base,
                ;
            }
            return None;
        }
        proof {
            assert(value * base + d <= usize::MAX) by (nonlinear_arith)
                requires
                    value <= limit,
                    limit == (usize::MAX - d) / base as int,
                    base >= 10,
                    d < base,
            ;
        }
        value = value * base + d;
        index += 1;
    }
    proof {
        assert(run.subrange(0, end - start) =~= run);
    }
    Some(value)
}

/// A longer run of digits never has a smaller value.
proof fn lemma_value_grows(run: Seq<char>, k: int, n: int, hex: bool)
    requires
        0 <= k <= n == run.len(),
    ensures
        (if hex {
            hex_value(run.subrange(0, k)) <= hex_value(run)
        } else {
            digits_value(run.subrange(0, k)) <= digits_value(run)
        }),
    decreases n - k,
{
    if k < n {
        lemma_value_grows(run, k + 1, n, hex);
        assert(run.subrange(0, k + 1).drop_last() =~= run.subrange(0, k));
    } else {
        assert(run.subrange(0, k) =~= run);
    }
}

fn find_hex_prefix_exec(s: &Vec<char>) -> (r: Option<usize>)
    ensures
        r == (match find_hex_prefix(s@, 0) {
            Some(p) => Some(p as usize),
            None => None::<usize>,
        }),
{
    proof {
        lemma_find_bounds(s@, 0);
    }
    let mut at: usize = 0;
    while at < s.len() && s.len() - at >= 2
        invariant
            at <= s@.len(),
            find_hex_prefix(s@, 0) == find_hex_prefix(s@, at as int),
        decreases s@.len() - at,
    {
        if s[at] == '0' && s[at + 1] == 'x' {
            return Some(at);
        }
        at += 1;
    }
    None
}

fn find_digit_exec(s: &Vec<char>) -> (r: Option<usize>)
    ensures
        r == (match find_digit(s@, 0) {
            Some(q) => Some(q as usize),
            None => None::<usize>,
        }),
{
    proof {
        lemma_find_bounds(s@, 0);
    }
    let mut at: usize = 0;
    while at < s.len()
        invariant
            at <= s@.len(),
            find_digit(s@, 0) == find_digit(s@, at as int),
        decreases s@.len() - at,
    {
        if '0' <= s[at] && s[at] <= '9' {
            return Some(at);
        }
        at += 1;
    }
    None
}

/// The address a node detail names, for nodes without an explicit byte range: the first
/// hexadecimal `0x` number, else the first decimal number.
pub fn parse_address_from_detail(detail: &str) -> (r: Option<usize>)
    ensures
        r == detail_address(detail@),
{
    let s = chars_of(detail);
    let hex = match find_hex_prefix_exec(&s) {
        Some(p) => {
            proof {
                lemma_find_bounds(s@, 0);
                lemma_run_end(s@, p + 2, true);
            }
            let end = run_end_exec(&s, p + 2, true);
            if end > p + 2 {
                run_value(&s, p + 2, end, true)
            } else {
                None
            }
        },
        None => None,
    };
    if hex.is_some() {
        return hex;
    }
    match find_digit_exec(&s) {
        Some(q) => {
            proof {
                lemma_find_bounds(s@, 0);
                lemma_run_end(s@, q as int, false);
            }
            let end = run_end_exec(&s, q, false);
            run_value(&s, q, end, false)
        },
        None => None,
    }
}

/// The inclusive byte range a node selects within `bytes_len` bytes: its own byte range when
/// it starts inside the bytes and is not empty (clipped to the bytes), otherwise the single
/// byte at the address its detail names, when that lies inside the bytes.
pub open spec fn selection_spec(node: AstNode, bytes_len: usize) -> Option<(usize, usize)> {
    match node.byte_range {
        Some(range) if range.start < bytes_len && range.len > 0 => {
            let end = if range.start + range.len - 1 < bytes_len - 1 {
                range.start + range.len - 1
            } else {
                bytes_len - 1
            };
            Some((range.start, end as usize))
        },
        _ => match detail_address(node.detail@) {
            Some(address) => if address < bytes_len {
                Some((address, address))
            } else {
                None
            },
            None => None,
        },
    }
}

pub fn selection_range(node: &AstNode, bytes_len: usize) -> (r: Option<(usize, usize)>)
    ensures
        r == selection_spec(*node, bytes_len),
{
    match node.byte_range {
        Some(range) => {
            if range.start < bytes_len && range.len > 0 {
                let last = range.start.saturating_add(range.len) - 1;
                let end = if last < bytes_len - 1 {
                    last
                } else {
                    bytes_len - 1
                };
                return Some((range.start, end));
            }
        },
        None => {},
    }
    match parse_address_from_detail(node.detail.as_str()) {
        Some(address) => if address < bytes_len {
            Some((address, address))
        } else {
            None
        },
        None => None,
    }
}

/// The top-level node the arrow keys move to among `total`: up stops at the first
/// and down at the last; with none selected, up goes to the last and down to the
/// first.
pub open spec fn keyboard_target_spec(current: Option<usize>, total: usize, up: bool) -> Option<
    usize,
> {
    if total == 0 {
        None
    } else if up {
        match current {
            Some(index) => Some(if index == 0 {
                0
            } else {
                (index - 1) as usize
            }),
            None => Some((total - 1) as usize),
        }
    } else {
        match current {
            Some(index) => Some(if index + 1 < total {
                (index + 1) as usize
            } else {
                (total - 1) as usize
            }),
            None => Some(0),
        }
    }
}

pub fn keyboard_target(current: Option<usize>, total: usize, up: bool) -> (target: Option<usize>)
    ensures
        target == keyboard_target_spec(current, total, up),
{
    if total == 0 {
        return None;
    }
    if up {
        match current {
            Some(index) => Some(if index == 0 {
                0
            } else {
                index - 1
            }),
            None => Some(total - 1),
        }
    } else {
        match current {
            Some(index) => Some(if index < total - 1 {
                index + 1
            } else {
                total - 1
            }),
            None => Some(0),
        }
    }
}

/// The view with no selection, marks or outlines, and selections outlined.
pub open spec fn cleared_view(state: HexViewState) -> HexViewState {
    HexViewState {
        selection_range: None,
        reference_markers: seq![],
        outline_ranges: seq![],
        selection_outline_enabled: true,
        ..state
    }
}

/// The view after a top-level node is reached by the arrow keys: the selection,
/// marks and outlines cleared, then the node's bytes selected, marked and scrolled to.
pub open spec fn top_node_picked(state: HexViewState, node: AstNode, bytes_len: usize) -> HexViewState {
    let cleared = cleared_view(state);
    match selection_spec(node, bytes_len) {
        Some((start, end)) => HexViewState {
            selection_range: Some(ordered(start, end)),
            reference_markers: seq![start],
            pending_scroll_to: Some(ordered(start, end)),
            ..cleared
        },
        None => cleared,
    }
}

/// Point the hex view at a top-level node reached by the arrow keys.
pub fn select_top_node(viewer: &mut HexViewer, node: &AstNode, bytes_len: usize)
    ensures
        final(viewer)@ == top_node_picked(old(viewer)@, *node, bytes_len),
{
    viewer.clear_selection_range();
    viewer.clear_reference_markers();
    viewer.clear_outline_ranges();
    viewer.set_selection_outline_enabled(true);
    if let Some((start, end)) = selection_range(node, bytes_len) {
        viewer.set_selection_range(start, end);
        let mut markers: Vec<usize> = Vec::new();
        markers.push(start);
        viewer.set_reference_markers(markers);
        viewer.set_pending_scroll_to(start, end);
    }
}

/// The range of the top-level `Header` or `GD3` node a node at `path` lies in.
pub open spec fn section_of(roots: Seq<AstNode>, path: Seq<usize>) -> Option<ByteRange> {
    if path.len() >= 2 && path[0] < roots.len() && (roots[path[0] as int].title@ == "Header"@
        || roots[path[0] as int].title@ == "GD3"@) {
        roots[path[0] as int].byte_range
    } else {
        None
    }
}

/// The view after a tree node is picked: inside a `Header` or `GD3` section the
/// whole section is selected and filled without an outline, and the node's own
/// bytes are outlined, marked and scrolled to; elsewhere the node's bytes (or the
/// address its detail names) are selected.
pub open spec fn node_picked(
    state: HexViewState,
    section: Option<ByteRange>,
    node: AstNode,
    bytes_len: usize,
) -> HexViewState {
    let cleared = cleared_view(state);
    match section {
        Some(range) => if range.start < bytes_len && range.len > 0 {
            let end = last_byte(range.start, range.len, bytes_len);
            let whole = HexViewState {
                selection_range: Some(ordered(range.start, end)),
                reference_markers: seq![range.start],
                pending_scroll_to: Some(ordered(range.start, end)),
                fill_only_ranges: seq![(range.start, end)],
                selection_outline_enabled: false,
                ..cleared
            };
            match node.byte_range {
                Some(child) => {
                    let child_end = inclusive_end(child.start, child.len);
                    HexViewState {
                        outline_ranges: seq![(child.start, child_end)],
                        reference_markers: seq![child.start],
                        pending_scroll_to: Some(ordered(child.start, child_end)),
                        ..whole
                    }
                },
                None => whole,
            }
        } else {
            top_node_picked(state, node, bytes_len)
        },
        None => top_node_picked(state, node, bytes_len),
    }
}

/// Point the hex view at a tree node picked at `path` among the top-level `roots`,
/// over `bytes_len` bytes.
fn point_at_node(
    viewer: &mut HexViewer,
    roots: &Vec<AstNode>,
    path: &[usize],
    node: &AstNode,
    bytes_len: usize,
)
    ensures
        final(viewer)@ == node_picked(old(viewer)@, section_of(roots@, path@), *node, bytes_len),
{
    let mut section: Option<ByteRange> = None;
    if path.len() >= 2 && path[0] < roots.len() {
        let top = &roots[path[0]];
        if text_is(&top.title, "Header") || text_is(&top.title, "GD3") {
            section = top.byte_range;
        }
    }
    if let Some(range) = section {
        if range.start < bytes_len && range.len > 0 {
            viewer.clear_selection_range();
            viewer.clear_reference_markers();
            viewer.clear_outline_ranges();
            viewer.set_selection_outline_enabled(true);
            let end = range.start.saturating_add(range.len).saturating_sub(1);
            let last = bytes_len - 1;
            let end = if end < last {
                end
            } else {
                last
            };
            viewer.set_selection_range(range.start, end);
            let mut markers: Vec<usize> = Vec::new();
            markers.push(range.start);
            viewer.set_reference_markers(markers);
            viewer.set_pending_scroll_to(range.start, end);
            let mut fills: Vec<(usize, usize)> = Vec::new();
            fills.push((range.start, end));
            viewer.set_fill_only_ranges(fills);
            viewer.set_selection_outline_enabled(false);
            if let Some(child) = node.byte_range {
                let child_end = child.end().saturating_sub(1);
                let mut outlines: Vec<(usize, usize)> = Vec::new();
                outlines.push((child.start, child_end));
                viewer.set_outline_ranges(outlines);
                let mut child_markers: Vec<usize> = Vec::new();
                child_markers.push(child.start);
                viewer.set_reference_markers(child_markers);
                viewer.set_pending_scroll_to(child.start, child_end);
            }
            return;
        }
    }
    select_top_node(viewer, node, bytes_len);
}

/// Select the tree node `node` picked at `path`, and point the hex view at it.
pub fn apply_node_selection(state: &mut UiState, path: &[usize], node: &AstNode)
    ensures
        final(state)@ == (UiView {
            selected_ast: Some(path@),
            hex: node_picked(
                old(state)@.hex,
                section_of(old(state)@.ast_root, path@),
                *node,
                old(state)@.bytes.len() as usize,
            ),
            ..old(state)@
        }),
{
    state.selected_ast = Some(vstd::slice::slice_to_vec(path));
    let bytes_len = state.bytes.len();
    point_at_node(&mut state.hex_viewer, &state.ast_root, path, node, bytes_len);
}

/// The first index of a selected path.
pub open spec fn first_index(path: Option<Seq<usize>>) -> Option<usize> {
    match path {
        Some(p) => if p.len() > 0 {
            Some(p[0])
        } else {
            None
        },
        None => None,
    }
}

/// The document after an arrow key among `total` top-level nodes: the node
/// `keyboard_target_spec` names is selected, gets the focus and the hex view points at it.
pub open spec fn keyboard_moved(before: UiView, up: bool, total: usize) -> UiView {
    match keyboard_target_spec(first_index(before.selected_ast), total, up) {
        Some(index) => UiView {
            selected_ast: Some(seq![index]),
            pending_focus: Some(seq![index]),
            hex: if index < before.ast_root.len() {
                top_node_picked(before.hex, before.ast_root[index as int], before.bytes.len() as usize)
            } else {
                cleared_view(before.hex)
            },
            ..before
        },
        None => before,
    }
}

/// Move the selection among the `total` top-level nodes after the up (`up`) or down
/// arrow key.
pub fn handle_keyboard_selection(state: &mut UiState, up: bool, total: usize)
    ensures
        final(state)@ == keyboard_moved(old(state)@, up, total),
{
    let current = match &state.selected_ast {
        Some(path) => if path.len() > 0 {
            Some(path[0])
        } else {
            None
        },
        None => None,
    };
    let index = match keyboard_target(current, total, up) {
        Some(index) => index,
        None => {
            return;
        },
    };
    let mut selected: Vec<usize> = Vec::new();
    selected.push(index);
    let mut focus: Vec<usize> = Vec::new();
    focus.push(index);
    state.selected_ast = Some(selected);
    state.pending_focus = Some(focus);
    proof {
        assert(state.selected_ast.unwrap()@ =~= seq![index]);
        assert(state.pending_focus.unwrap()@ =~= seq![index]);
    }
    let bytes_len = state.bytes.len();
    if index < state.ast_root.len() {
        select_top_node(&mut state.hex_viewer, &state.ast_root[index], bytes_len);
    } else {
        state.hex_viewer.clear_selection_range();
        state.hex_viewer.clear_reference_markers();
        state.hex_viewer.clear_outline_ranges();
        state.hex_viewer.set_selection_outline_enabled(true);
    }
}

/// Whether the leaf at `path` shows its detail after its title: leaves below the
/// first top-level node and below a top-level `GD3` node do.
pub open spec fn shows_detail(roots: Seq<AstNode>, path: Seq<usize>) -> bool {
    path.len() >= 2 && (path[0] == 0 || (path[0] < roots.len() && roots[path[0] as int].title@
        == "GD3"@))
}

/// The label of a leaf at `path`: the first line of its title, then, below the first
/// top-level node or a `GD3` node, `: ` and the trimmed first line of its detail; at most
/// 120 characters, a longer one clipped and ended with `...`.
pub fn leaf_label(roots: &Vec<AstNode>, path: &[usize], node: &AstNode) -> (label: String)
    ensures
        label@ == label_spec(node.title@, node.detail@, shows_detail(roots@, path@)),
{
    let detailed = path.len() >= 2 && (path[0] == 0 || (path[0] < roots.len() && text_is(
        &roots[path[0]].title,
        "GD3",
    )));
    label_text(&node.title, &node.detail, detailed)
}

} // verus!

//! Where two byte sequences differ, as maximal runs of differing positions.
use vstd::prelude::*;

verus! {

/// The byte at `i`, or `None` past the end.
pub open spec fn byte_at(bytes: Seq<u8>, i: int) -> Option<u8> {
    if 0 <= i < bytes.len() {
        Some(bytes[i])
    } else {
        None
    }
}

/// Position `i` differs: the bytes there differ, or only one sequence reaches it.
pub open spec fn differs(a: Seq<u8>, b: Seq<u8>, i: int) -> bool {
    byte_at(a, i) != byte_at(b, i)
}

/// `[start, end]` is a maximal run of differing positions.
pub open spec fn is_diff_run(a: Seq<u8>, b: Seq<u8>, start: int, end: int) -> bool {
    &&& 0 <= start <= end
    &&& forall|i: int| start <= i <= end ==> #[trigger] differs(a, b, i)
    &&& (start == 0 || !differs(a, b, start - 1))
    &&& !differs(a, b, end + 1)
}

/// The inclusive ranges where `rebuilt` differs from `original`: every maximal run of differing
/// positions, in order. A length change counts the extra tail as differing.
pub fn compute_diff_ranges(original: &[u8], rebuilt: &[u8]) -> (ranges: Vec<(usize, usize)>)
    ensures
        forall|k: int|
            0 <= k < ranges@.len() ==> is_diff_run(
                original@,
                rebuilt@,
                (#[trigger] ranges@[k]).0 as int,
                ranges@[k].1 as int,
            ),
        forall|k: int|
            0 <= k < ranges@.len() - 1 ==> (#[trigger] ranges@[k]).1 + 1 < ranges@[k + 1].0,
        forall|i: int|
            #[trigger] differs(original@, rebuilt@, i) ==> exists|k: int|
                0 <= k < ranges@.len() && (#[trigger] ranges@[k]).0 <= i <= ranges@[k].1,
{
    let max_len: usize = if original.len() > rebuilt.len() {
        original.len()
    } else {
        rebuilt.len()
    };
    let ghost a = original@;
    let ghost b = rebuilt@;
    let mut diffs: Vec<(usize, usize)> = Vec::new();
    let mut diff_start: Option<usize> = None;
    let mut index: usize = 0;
    while index < max_len
        invariant
            a == original@,
            b == rebuilt@,
            max_len == (if a.len() > b.len() {
                a.len()
            } else {
                b.len()
            }),
            index <= max_len,
            forall|k: int|
                0 <= k < diffs@.len() ==> is_diff_run(
                    a,
                    b,
                    (#[trigger] diffs@[k]).0 as int,
                    diffs@[k].1 as int,
                ) && diffs@[k].1 + 1 < index,
            forall|k: int|
                0 <= k < diffs@.len() - 1 ==> (#[trigger] diffs@[k]).1 + 1 < diffs@[k + 1].0,
            diff_start matches Some(start) ==> start < index && (start == 0 || !differs(
                a,
                b,
                start - 1,
            )) && (forall|i: int| start <= i < index ==> #[trigger] differs(a, b, i)) && (
            diffs@.len() > 0 ==> diffs@.last().1 + 1 < start),
            diff_start is None && index > 0 ==> !differs(a, b, index - 1),
            forall|i: int|
                0 <= i < index && #[trigger] differs(a, b, i) ==> (exists|k: int|
                    0 <= k < diffs@.len() && (#[trigger] diffs@[k]).0 <= i <= diffs@[k].1) || (
                diff_start matches Some(start) && start <= i),
        decreases max_len - index,
    {
        let left: Option<u8> = if index < original.len() {
            Some(original[index])
        } else {
            None
        };
        let right: Option<u8> = if index < rebuilt.len() {
            Some(rebuilt[index])
        } else {
            None
        };
        let different = match (left, right) {
            (Some(x), Some(y)) => x != y,
            (None, None) => false,
            _ => true,
        };
        assert(different == differs(a, b, index as int));
        let ghost before = diffs@;
        match diff_start {
            None => {
                if different {
                    diff_start = Some(index);
                }
            },
            Some(start) => {
                if !different {
                    diffs.push((start, index - 1));
                    diff_start = None;
                    proof {
                        assert forall|i: int|
                            0 <= i < index + 1 && #[trigger] differs(a, b, i) implies (exists|k: int|
                            0 <= k < diffs@.len() && (#[trigger] diffs@[k]).0 <= i <= diffs@[k].1)
                            || (diff_start matches Some(s) && s <= i) by {
                            if start <= i {
                                assert(diffs@[diffs@.len() - 1] == (start, (index - 1) as usize));
                            } else {
                                let k = choose|k: int|
                                    0 <= k < before.len() && (#[trigger] before[k]).0 <= i
                                        <= before[k].1;
                                assert(diffs@[k] == before[k]);
                            }
                        }
                    }
                }
            },
        }
        index += 1;
    }
    if let Some(start) = diff_start {
        let ghost before = diffs@;
        diffs.push((start, max_len - 1));
        proof {
            assert forall|i: int| #[trigger] differs(a, b, i) implies exists|k: int|
                0 <= k < diffs@.len() && (#[trigger] diffs@[k]).0 <= i <= diffs@[k].1 by {
                if start <= i {
                    assert(diffs@[diffs@.len() - 1] == (start, (max_len - 1) as usize));
                } else {
                    let k = choose|k: int|
                        0 <= k < before.len() && (#[trigger] before[k]).0 <= i <= before[k].1;
                    assert(diffs@[k] == before[k]);
                }
            }
        }
    }
    diffs
}

} // verus!

//! Marks on the FAT entries behind the last real cluster.
//!
//! The filesystem layer's search for a free cluster reads whole FAT sectors, so
//! a zeroed entry behind the last real cluster would be handed out as a cluster
//! that lies past the end of the volume. Such entries are marked as bad.
use vstd::prelude::*;

use crate::bytes::overwritten;

verus! {

/// The bad-cluster mark of FAT32, `0x0fff_fff7`, as stored.
pub const FAT32_BAD_CLUSTER: [u8; 4] = [0xf7, 0xff, 0xff, 0x0f];

/// The bad-cluster mark of FAT16, `0xfff7`, as stored.
pub const FAT16_BAD_CLUSTER: [u8; 2] = [0xf7, 0xff];

/// The `width` bytes from `at` on are all zero.
pub open spec fn is_free_entry(s: Seq<u8>, at: int, width: int) -> bool {
    forall|i: int| at <= i < at + width ==> s[i] == 0
}

/// `s` with every free entry from `from` on replaced by `marker`.
pub open spec fn tail_marked(s: Seq<u8>, from: int, marker: Seq<u8>) -> Seq<u8>
    decreases s.len() - from,
{
    if marker.len() == 0 || from < 0 || from + marker.len() > s.len() {
        s
    } else {
        let marked = if is_free_entry(s, from, marker.len() as int) {
            overwritten(s, from, marker)
        } else {
            s
        };
        tail_marked(marked, from + marker.len(), marker)
    }
}

/// Some entry from `from` on is free.
pub open spec fn has_free_entry(s: Seq<u8>, from: int, width: int) -> bool
    decreases s.len() - from,
{
    if width <= 0 || from < 0 || from + width > s.len() {
        false
    } else {
        is_free_entry(s, from, width) || has_free_entry(s, from + width, width)
    }
}

/// What stands before an entry says nothing of it.
proof fn free_entries_only_look_ahead(s: Seq<u8>, t: Seq<u8>, from: int, width: int)
    requires
        s.len() == t.len(),
        0 <= from,
        forall|i: int| from <= i < s.len() ==> s[i] == t[i],
    ensures
        has_free_entry(s, from, width) == has_free_entry(t, from, width),
    decreases s.len() - from,
{
    if width > 0 && from + width <= s.len() {
        free_entries_only_look_ahead(s, t, from + width, width);
    }
}

/// Marking touches nothing before `from`, leaves occupied entries as they are,
/// and marks every free one.
pub proof fn tail_marked_entries(s: Seq<u8>, from: int, marker: Seq<u8>, k: int)
    requires
        0 <= from,
        marker.len() > 0,
        0 <= k,
        from + (k + 1) * marker.len() <= s.len(),
    ensures
        tail_marked(s, from, marker).len() == s.len(),
        forall|i: int| 0 <= i < from ==> #[trigger] tail_marked(s, from, marker)[i] == s[i],
        ({
            let at = from + k * marker.len();
            forall|i: int|
                at <= i < at + marker.len() ==> #[trigger] tail_marked(s, from, marker)[i] == (
                if is_free_entry(s, at, marker.len() as int) { marker[i - at] } else { s[i] })
        }),
    decreases k,
{
    let n = marker.len() as int;
    let marked = if is_free_entry(s, from, n) { overwritten(s, from, marker) } else { s };
    assert(k * n >= 0 && (k + 1) * n == k * n + n) by (nonlinear_arith)
        requires
            k >= 0,
            n > 0,
    ;
    tail_marked_keeps_front(s, from, marker);
    let whole = tail_marked(marked, from + n, marker);
    if k == 0 {
        tail_marked_keeps_front(marked, from + n, marker);
        assert(k * n == 0) by (nonlinear_arith)
            requires
                k == 0,
        ;
        assert forall|i: int| from <= i < from + n implies whole[i] == marked[i] by {}
    } else {
        assert((k - 1) * n + n == k * n && (k - 1) * n >= 0) by (nonlinear_arith)
            requires
                k >= 1,
                n > 0,
        ;
        tail_marked_entries(marked, from + n, marker, k - 1);
        let at = from + k * n;
        assert(at == (from + n) + (k - 1) * n);
        assert forall|i: int| at <= i < at + n implies marked[i] == s[i] by {}
        if is_free_entry(marked, at, n) {
            assert forall|i: int| at <= i < at + n implies s[i] == 0 by {
                assert(marked[i] == 0);
            }
        }
    }
}

/// Marking keeps the length and everything before `from`.
pub proof fn tail_marked_keeps_front(s: Seq<u8>, from: int, marker: Seq<u8>)
    requires
        0 <= from,
    ensures
        tail_marked(s, from, marker).len() == s.len(),
        forall|i: int|
            0 <= i < from && i < s.len() ==> #[trigger] tail_marked(s, from, marker)[i] == s[i],
    decreases s.len() - from,
{
    if marker.len() > 0 && from + marker.len() <= s.len() {
        let n = marker.len() as int;
        let marked = if is_free_entry(s, from, n) { overwritten(s, from, marker) } else { s };
        tail_marked_keeps_front(marked, from + n, marker);
        assert forall|i: int| 0 <= i < from && i < s.len() implies #[trigger] tail_marked(
            s,
            from,
            marker,
        )[i] == s[i] by {
            assert(tail_marked(marked, from + n, marker)[i] == marked[i]);
        }
    }
}

/// Marking twice is marking once: a marked tail has no free entry left.
pub proof fn marking_is_idempotent(s: Seq<u8>, from: int, marker: Seq<u8>)
    requires
        0 <= from,
        marker.len() > 0,
        exists|i: int| 0 <= i < marker.len() && marker[i] != 0,
    ensures
        tail_marked(tail_marked(s, from, marker), from, marker) == tail_marked(s, from, marker),
        !has_free_entry(tail_marked(s, from, marker), from, marker.len() as int),
    decreases s.len() - from,
{
    let n = marker.len() as int;
    let whole = tail_marked(s, from, marker);
    if from + n <= s.len() {
        let marked = if is_free_entry(s, from, n) { overwritten(s, from, marker) } else { s };
        marking_is_idempotent(marked, from + n, marker);
        tail_marked_keeps_front(marked, from + n, marker);
        let w = choose|i: int| 0 <= i < marker.len() && marker[i] != 0;
        assert(!is_free_entry(whole, from, n)) by {
            if is_free_entry(s, from, n) {
                assert(whole[from + w] == marked[from + w]);
                assert(marked[from + w] == marker[w]);
            } else {
                let i = choose|i: int| from <= i < from + n && s[i] != 0;
                assert(whole[i] == marked[i]);
            }
        }
    }
}

/// Marking leaves a rest that is shorter than an entry as it is.
pub proof fn marking_keeps_the_rest(s: Seq<u8>, from: int, marker: Seq<u8>, k: int, i: int)
    requires
        0 <= from,
        marker.len() > 0,
        0 <= k,
        from + k * marker.len() <= i < s.len() < from + (k + 1) * marker.len(),
    ensures
        tail_marked(s, from, marker)[i] == s[i],
    decreases k,
{
    let n = marker.len() as int;
    if from + n <= s.len() {
        let marked = if is_free_entry(s, from, n) { overwritten(s, from, marker) } else { s };
        if k == 0 {
            assert(k * n == 0 && (k + 1) * n == n) by (nonlinear_arith)
                requires
                    k == 0,
            ;
        } else {
            assert((k - 1) * n + n == k * n && k * n + n == (k + 1) * n && (k - 1) * n >= 0)
                by (nonlinear_arith)
                requires
                    k >= 1,
                    n > 0,
            ;
            marking_keeps_the_rest(marked, from + n, marker, k - 1, i);
        }
    }
}

/// A tail has a free entry where one of its whole entries is all zero.
pub proof fn free_entries_are_entries(s: Seq<u8>, from: int, width: int)
    requires
        0 <= from,
        width > 0,
    ensures
        has_free_entry(s, from, width) <==> exists|k: int|
            0 <= k && from + (k + 1) * width <= s.len() && #[trigger] is_free_entry(
                s,
                from + k * width,
                width,
            ),
    decreases s.len() - from,
{
    if from + width <= s.len() {
        free_entries_are_entries(s, from + width, width);
        if is_free_entry(s, from, width) {
            let k = 0int;
            assert(k * width == 0 && (k + 1) * width == width) by (nonlinear_arith)
                requires
                    k == 0,
            ;
            assert(is_free_entry(s, from + k * width, width));
        } else if has_free_entry(s, from + width, width) {
            let k = choose|k: int|
                0 <= k && (from + width) + (k + 1) * width <= s.len() && #[trigger] is_free_entry(
                    s,
                    (from + width) + k * width,
                    width,
                );
            assert((k + 1) * width == k * width + width && ((k + 1) + 1) * width == (k + 1) * width
                + width) by (nonlinear_arith);
            assert(is_free_entry(s, from + (k + 1) * width, width));
        }
        if exists|k: int|
            0 <= k && from + (k + 1) * width <= s.len() && #[trigger] is_free_entry(
                s,
                from + k * width,
                width,
            ) {
            let k = choose|k: int|
                0 <= k && from + (k + 1) * width <= s.len() && #[trigger] is_free_entry(
                    s,
                    from + k * width,
                    width,
                );
            if k == 0 {
                assert(k * width == 0) by (nonlinear_arith)
                    requires
                        k == 0,
                ;
            } else {
                assert((k - 1) * width + width == k * width && k * width + width == (k + 1) * width)
                    by (nonlinear_arith);
                assert(is_free_entry(s, (from + width) + (k - 1) * width, width));
            }
        }
    } else {
        assert forall|k: int| 0 <= k implies from + #[trigger] ((k + 1) * width) > s.len() by {
            assert((k + 1) * width >= width) by (nonlinear_arith)
                requires
                    k >= 0,
                    width > 0,
            ;
        }
    }
}

/// Without a free entry marking changes nothing.
pub proof fn marking_an_occupied_tail(s: Seq<u8>, from: int, marker: Seq<u8>)
    ensures
        !has_free_entry(s, from, marker.len() as int) ==> tail_marked(s, from, marker) == s,
    decreases s.len() - from,
{
    if marker.len() > 0 && from >= 0 && from + marker.len() <= s.len() {
        marking_an_occupied_tail(s, from + marker.len(), marker);
    }
}

/// Write `marker` over the bytes of `tail` from `at` on.
fn put_marker(tail: &mut [u8], at: usize, marker: &[u8])
    requires
        at + marker@.len() <= old(tail)@.len(),
    ensures
        final(tail)@ == overwritten(old(tail)@, at as int, marker@),
{
    let ghost before = tail@;
    let len: usize = tail.len();
    let mut i: usize = 0;
    while i < marker.len()
        invariant
            i <= marker@.len(),
            tail@.len() == before.len(),
            at + marker@.len() <= before.len() == len,
            forall|j: int|
                0 <= j < before.len() ==> #[trigger] tail@[j] == if at <= j < at + i {
                    marker@[j - at]
                } else {
                    before[j]
                },
        decreases marker@.len() - i,
    {
        tail[at + i] = marker[i];
        i = i + 1;
    }
    assert(tail@ =~= overwritten(before, at as int, marker@));
}

/// Mark every free entry from `from` on, and say whether there was one.
/// Occupied entries, bad marks among them, stay as they are, and so does a rest that is
/// shorter than an entry.
pub fn mark_phantom_tail(tail: &mut [u8], from: usize, marker: &[u8]) -> (changed: bool)
    requires
        0 < marker@.len(),
        from <= old(tail)@.len(),
    ensures
        final(tail)@ == tail_marked(old(tail)@, from as int, marker@),
        changed == has_free_entry(old(tail)@, from as int, marker@.len() as int),
{
    let ghost before = tail@;
    let width: usize = marker.len();
    let len: usize = tail.len();
    let mut at: usize = from;
    let mut changed = false;
    while width <= len - at
        invariant
            0 < width,
            width == marker@.len(),
            at <= len,
            len == before.len() == tail@.len(),
            tail_marked(tail@, at as int, marker@) == tail_marked(before, from as int, marker@),
            has_free_entry(before, from as int, width as int) == (changed || has_free_entry(
                tail@,
                at as int,
                width as int,
            )),
        decreases len - at,
    {
        let ghost now = tail@;
        let mut free = true;
        let mut i: usize = 0;
        while i < width
            invariant
                at + width <= len == tail@.len(),
                0 <= i <= width,
                free == is_free_entry(tail@, at as int, i as int),
                tail@ == now,
            decreases width - i,
        {
            if tail[at + i] != 0 {
                free = false;
            }
            i = i + 1;
        }
        if free {
            put_marker(tail, at, marker);
            changed = true;
        }
        proof {
            free_entries_only_look_ahead(now, tail@, at + width, width as int);
        }
        at = at + width;
    }
    changed
}

} // verus!

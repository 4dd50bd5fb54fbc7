//! The pieces that every message is made of: little-endian numbers, byte
//! strings behind their length, and lists of those.

use vstd::prelude::*;

verus! {

// ---------------------------------------------------------------------
// Numbers
// ---------------------------------------------------------------------

/// 256 to the power `k`.
pub open spec fn pow256(k: nat) -> nat
    decreases k,
{
    if k == 0 {
        1
    } else {
        256 * pow256((k - 1) as nat)
    }
}

/// The `k` low bytes of `n`, the lowest first.
pub open spec fn le(n: nat, k: nat) -> Seq<u8>
    decreases k,
{
    if k == 0 {
        Seq::empty()
    } else {
        seq![(n % 256) as u8] + le(n / 256, (k - 1) as nat)
    }
}

/// The number that `b` holds, its lowest byte first.
pub open spec fn of_le(b: Seq<u8>) -> nat
    decreases b.len(),
{
    if b.len() == 0 {
        0
    } else {
        b[0] as nat + 256 * of_le(b.drop_first())
    }
}

/// A number that fits comes back out of its bytes.
pub proof fn law_le_round_trip(n: nat, k: nat)
    requires
        n < pow256(k),
    ensures
        of_le(le(n, k)) == n,
        le(n, k).len() == k,
    decreases k,
{
    if k > 0 {
        law_le_round_trip(n / 256, (k - 1) as nat);
        assert(le(n, k).drop_first() =~= le(n / 256, (k - 1) as nat));
    }
}

/// Bytes come back out of the number that they hold.
pub proof fn law_of_le_round_trip(b: Seq<u8>)
    ensures
        le(of_le(b), b.len()) == b,
        of_le(b) < pow256(b.len()),
    decreases b.len(),
{
    if b.len() > 0 {
        law_of_le_round_trip(b.drop_first());
        assert(le(of_le(b), b.len()) =~= b);
    }
}

pub proof fn lemma_le_len(n: nat, k: nat)
    ensures
        le(n, k).len() == k,
    decreases k,
{
    if k > 0 {
        lemma_le_len(n / 256, (k - 1) as nat);
    }
}

/// The powers that the message fields need.
pub proof fn lemma_pow256()
    ensures
        pow256(1) == 0x100,
        pow256(2) == 0x1_0000,
        pow256(4) == 0x1_0000_0000,
        pow256(8) == 0x1_0000_0000_0000_0000,
{
    reveal_with_fuel(pow256, 9);
}

proof fn lemma_pow256_grows(a: nat, b: nat)
    requires
        a <= b,
    ensures
        pow256(a) <= pow256(b),
    decreases b,
{
    if a < b {
        lemma_pow256_grows(a, (b - 1) as nat);
    }
}

/// Appends the `k` low bytes of `n` to `out`.
pub fn push_le(out: &mut Vec<u8>, n: u64, k: usize)
    ensures
        final(out)@ == old(out)@ + le(n as nat, k as nat),
    decreases k,
{
    if k > 0 {
        let ghost before = out@;
        out.push((n % 256) as u8);
        push_le(out, n / 256, k - 1);
        assert(out@ =~= before + le(n as nat, k as nat));
    }
}

/// The number in the `k` bytes of `b` from `at` on.
pub fn read_le(b: &[u8], at: usize, k: usize) -> (r: u64)
    requires
        k <= 8,
        at + k <= b.len(),
    ensures
        r == of_le(b@.subrange(at as int, at + k)),
        r < pow256(k as nat),
    decreases k,
{
    let ghost all = b@.subrange(at as int, at + k);
    proof {
        law_of_le_round_trip(all);
        lemma_pow256();
        lemma_pow256_grows(k as nat, 8);
    }
    if k == 0 {
        return 0;
    }
    let rest: u64 = read_le(b, at + 1, k - 1);
    assert(all.drop_first() =~= b@.subrange(at + 1, at + k));
    b[at] as u64 + 256 * rest
}

// ---------------------------------------------------------------------
// Writing byte strings
// ---------------------------------------------------------------------

/// `b` behind its length. The length has two bytes; a longer string keeps
/// what is left of its length there.
pub open spec fn counted(b: Seq<u8>) -> Seq<u8> {
    le((b.len() % 0x1_0000) as nat, 2) + b
}

/// Each of `items` behind its length.
pub open spec fn counted_all(items: Seq<Seq<u8>>) -> Seq<u8>
    decreases items.len(),
{
    if items.len() == 0 {
        Seq::empty()
    } else {
        counted_all(items.drop_last()) + counted(items.last())
    }
}

/// Appends the bytes of `b` to `out`.
pub fn push_bytes(out: &mut Vec<u8>, b: &[u8])
    ensures
        final(out)@ == old(out)@ + b@,
{
    let mut i: usize = 0;
    assert(old(out)@ + b@.take(0) =~= old(out)@);
    while i < b.len()
        invariant
            i <= b@.len(),
            out@ == old(out)@ + b@.take(i as int),
        decreases b@.len() - i,
    {
        out.push(b[i]);
        assert(out@ =~= old(out)@ + b@.take(i + 1));
        i = i + 1;
    }
    assert(b@.take(i as int) =~= b@);
}

/// Appends `b` behind its length to `out`.
pub fn push_counted(out: &mut Vec<u8>, b: &[u8])
    ensures
        final(out)@ == old(out)@ + counted(b@),
{
    push_le(out, (b.len() % 0x1_0000) as u64, 2);
    push_bytes(out, b);
    assert(out@ =~= old(out)@ + counted(b@));
}

// ---------------------------------------------------------------------
// Reading byte strings
// ---------------------------------------------------------------------

/// What the bytes read so far give: a value and the index behind it, or the
/// number of bytes that are certain to be missing.
pub enum Scan<A> {
    Done(A, int),
    More(int),
}

/// `k` bytes from `at` on.
pub open spec fn scan_fixed(b: Seq<u8>, at: int, k: int) -> Scan<Seq<u8>> {
    if at + k <= b.len() {
        Scan::Done(b.subrange(at, at + k), at + k)
    } else {
        Scan::More(at + k - b.len())
    }
}

/// A byte string behind its length, from `at` on.
pub open spec fn scan_counted(b: Seq<u8>, at: int) -> Scan<Seq<u8>> {
    match scan_fixed(b, at, 2) {
        Scan::More(n) => Scan::More(n),
        Scan::Done(len, start) => scan_fixed(b, start, of_le(len) as int),
    }
}

/// `n` byte strings behind their lengths, from `at` on.
pub open spec fn scan_list(b: Seq<u8>, at: int, n: nat) -> Scan<Seq<Seq<u8>>>
    decreases n,
{
    if n == 0 {
        Scan::Done(Seq::empty(), at)
    } else {
        match scan_list(b, at, (n - 1) as nat) {
            Scan::More(k) => Scan::More(k),
            Scan::Done(items, mid) => match scan_counted(b, mid) {
                Scan::More(k) => Scan::More(k),
                Scan::Done(item, end) => Scan::Done(items.push(item), end),
            },
        }
    }
}

/// The texts of a list of byte strings.
pub open spec fn byte_views(v: Seq<Vec<u8>>) -> Seq<Seq<u8>> {
    Seq::new(v.len(), |i: int| v[i]@)
}

/// What a reader of bytes has: its value, or the number of bytes still to
/// be read.
pub enum Read<T> {
    Done(T),
    More(usize),
}

/// Copies the bytes of `b` from `from` up to `to`.
pub fn copy_range(b: &[u8], from: usize, to: usize) -> (r: Vec<u8>)
    requires
        from <= to <= b@.len(),
    ensures
        r@ == b@.subrange(from as int, to as int),
{
    let mut out: Vec<u8> = Vec::new();
    let mut i: usize = from;
    while i < to
        invariant
            from <= i <= to <= b@.len(),
            out@ =~= b@.subrange(from as int, i as int),
        decreases to - i,
    {
        out.push(b[i]);
        i = i + 1;
    }
    out
}

/// Copies the bytes of `b`.
pub fn copy_all(b: &[u8]) -> (r: Vec<u8>)
    ensures
        r@ == b@,
{
    let out = copy_range(b, 0, b.len());
    assert(out@ =~= b@);
    out
}

/// Reads a byte string behind its length, from `at` on; with it comes the
/// index behind it.
pub fn read_counted(b: &[u8], at: usize) -> (r: Read<(Vec<u8>, usize)>)
    requires
        at <= b@.len(),
    ensures
        match r {
            Read::Done((v, end)) => scan_counted(b@, at as int) == Scan::Done(v@, end as int)
                && at <= end <= b@.len(),
            Read::More(n) => scan_counted(b@, at as int) == Scan::<Seq<u8>>::More(n as int) && n
                > 0,
        },
{
    let have: usize = b.len() - at;
    if have < 2 {
        return Read::More(2 - have);
    }
    proof {
        lemma_pow256();
    }
    let n: usize = read_le(b, at, 2) as usize;
    if n > have - 2 {
        return Read::More(n - (have - 2));
    }
    Read::Done((copy_range(b, at + 2, at + 2 + n), at + 2 + n))
}

/// Reads `n` byte strings behind their lengths, from `at` on.
pub fn read_list(b: &[u8], at: usize, n: usize) -> (r: Read<(Vec<Vec<u8>>, usize)>)
    requires
        at <= b@.len(),
    ensures
        match r {
            Read::Done((v, end)) => scan_list(b@, at as int, n as nat) == Scan::Done(
                byte_views(v@),
                end as int,
            ) && at <= end <= b@.len() && v@.len() == n,
            Read::More(k) => scan_list(b@, at as int, n as nat) == Scan::<Seq<Seq<u8>>>::More(
                k as int,
            ) && k > 0,
        },
{
    let mut out: Vec<Vec<u8>> = Vec::new();
    let mut pos: usize = at;
    let mut i: usize = 0;
    assert(byte_views(out@) =~= Seq::empty());
    while i < n
        invariant
            i <= n,
            at <= pos <= b@.len(),
            out@.len() == i,
            scan_list(b@, at as int, i as nat) == Scan::Done(byte_views(out@), pos as int),
        decreases n - i,
    {
        match read_counted(b, pos) {
            Read::More(k) => {
                proof {
                    lemma_scan_list_stays(b@, at as int, (i + 1) as nat, n as nat);
                }
                return Read::More(k);
            },
            Read::Done((item, end)) => {
                let ghost before = byte_views(out@);
                let ghost one = item@;
                out.push(item);
                assert(byte_views(out@) =~= before.push(one));
                pos = end;
            },
        }
        i = i + 1;
    }
    Read::Done((out, pos))
}

/// A list that lacks bytes for its first items lacks the same bytes as a whole.
proof fn lemma_scan_list_stays(b: Seq<u8>, at: int, m: nat, n: nat)
    requires
        m <= n,
        scan_list(b, at, m) is More,
    ensures
        scan_list(b, at, n) == scan_list(b, at, m),
    decreases n,
{
    if m < n {
        lemma_scan_list_stays(b, at, m, (n - 1) as nat);
    }
}

// ---------------------------------------------------------------------
// What is read of what was written
// ---------------------------------------------------------------------

/// A byte string that its length can express is read back as it was written,
/// whatever stands before and behind it.
pub proof fn law_counted_round_trip(before: Seq<u8>, item: Seq<u8>, after: Seq<u8>)
    requires
        item.len() < 0x1_0000,
    ensures
        scan_counted(before + counted(item) + after, before.len() as int) == Scan::Done(
            item,
            (before.len() + 2 + item.len()) as int,
        ),
{
    lemma_pow256();
    law_le_round_trip(item.len(), 2);
    let b = before + counted(item) + after;
    let at = before.len() as int;
    assert(b.subrange(at, at + 2) =~= le(item.len(), 2));
    assert(b.subrange(at + 2, at + 2 + item.len()) =~= item);
}

/// So is a list of them.
pub proof fn law_list_round_trip(before: Seq<u8>, items: Seq<Seq<u8>>, after: Seq<u8>)
    requires
        forall|i: int| 0 <= i < items.len() ==> (#[trigger] items[i]).len() < 0x1_0000,
    ensures
        scan_list(before + counted_all(items) + after, before.len() as int, items.len())
            == Scan::Done(items, (before.len() + counted_all(items).len()) as int),
    decreases items.len(),
{
    if items.len() > 0 {
        let front = items.drop_last();
        let last = items.last();
        assert forall|i: int| 0 <= i < front.len() implies (#[trigger] front[i]).len()
            < 0x1_0000 by {
            assert(front[i] == items[i]);
        }
        let head = counted_all(front);
        let whole = before + counted_all(items) + after;
        law_list_round_trip(before, front, counted(last) + after);
        assert(before + head + (counted(last) + after) =~= whole);
        law_counted_round_trip(before + head, last, after);
        assert((before + head) + counted(last) + after =~= whole);
        lemma_le_len((last.len() % 0x1_0000) as nat, 2);
        assert(front.push(last) =~= items);
    } else {
        assert(items =~= Seq::empty());
    }
}

/// Reading a byte string does not look past it: more bytes behind it change
/// nothing, and the bytes that are missing are part of it.
pub proof fn law_counted_never_overreads(b: Seq<u8>, at: int, tail: Seq<u8>)
    requires
        0 <= at <= b.len(),
    ensures
        match scan_counted(b, at) {
            Scan::Done(v, end) => scan_counted(b + tail, at) == Scan::Done(v, end),
            Scan::More(n) => match scan_counted(b + tail, at) {
                Scan::Done(v, end) => end >= b.len() + n,
                Scan::More(m) => b.len() + tail.len() + m >= b.len() + n,
            },
        },
{
    let all = b + tail;
    if at + 2 <= b.len() {
        assert(all.subrange(at, at + 2) =~= b.subrange(at, at + 2));
        let n = of_le(b.subrange(at, at + 2));
        if at + 2 + n <= b.len() {
            assert(all.subrange(at + 2, at + 2 + n) =~= b.subrange(at + 2, at + 2 + n));
        }
    }
}

/// The same of a list.
pub proof fn law_list_never_overreads(b: Seq<u8>, at: int, n: nat, tail: Seq<u8>)
    requires
        0 <= at <= b.len(),
    ensures
        match scan_list(b, at, n) {
            Scan::Done(v, end) => scan_list(b + tail, at, n) == Scan::Done(v, end) && at <= end
                <= b.len(),
            Scan::More(k) => match scan_list(b + tail, at, n) {
                Scan::Done(v, end) => end >= b.len() + k,
                Scan::More(m) => b.len() + tail.len() + m >= b.len() + k,
            },
        },
    decreases n,
{
    if n > 0 {
        law_list_never_overreads(b, at, (n - 1) as nat, tail);
        match scan_list(b, at, (n - 1) as nat) {
            Scan::Done(items, mid) => {
                law_counted_never_overreads(b, mid, tail);
            },
            Scan::More(k) => {
                match scan_list(b + tail, at, (n - 1) as nat) {
                    Scan::Done(items, mid) => {
                        assert(scan_counted(b + tail, mid) matches Scan::Done(v, end) ==> end
                            >= mid);
                        assert(scan_counted(b + tail, mid) matches Scan::More(m) ==> m
                            + b.len() + tail.len() >= mid);
                    },
                    Scan::More(m) => {},
                }
            },
        }
    }
}

} // verus!

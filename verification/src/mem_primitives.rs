//! Byte-level memory primitives (`memcpy`, `memset`, `memmove`, `strlen`,
//! `strcmp`) over byte buffers.
//!
//! The buffers stand for the memory a C caller hands over: `memmove` works
//! inside one buffer so that source and destination may overlap, and the
//! string functions read up to the first NUL byte.
use vstd::prelude::*;

verus! {

/// The buffer `s` after copying `n` bytes from offset `src` to offset `dst`,
/// each byte read as it was before the copy.
pub open spec fn moved(s: Seq<u8>, dst: int, src: int, n: int) -> Seq<u8> {
    Seq::new(s.len(), |i: int| if dst <= i < dst + n { s[src + (i - dst)] } else { s[i] })
}

/// `i` is the index of the first NUL byte of `s`.
pub open spec fn is_first_nul(s: Seq<u8>, i: int) -> bool {
    &&& 0 <= i < s.len()
    &&& s[i] == 0
    &&& forall|j: int| 0 <= j < i ==> s[j] != 0
}

/// `s` holds a NUL byte: it is a terminated C string.
pub open spec fn nul_terminated(s: Seq<u8>) -> bool {
    exists|i: int| 0 <= i < s.len() && s[i] == 0
}

/// `k` is where a C string comparison of `a` and `b` stops: the bytes before
/// it agree and are not NUL, and at `k` they differ or `a` ends.
pub open spec fn compare_stops_at(a: Seq<u8>, b: Seq<u8>, k: int) -> bool {
    &&& 0 <= k < a.len()
    &&& k < b.len()
    &&& forall|j: int| 0 <= j < k ==> a[j] == b[j] && a[j] != 0
    &&& (a[k] != b[k] || a[k] == 0)
}

/// Copy the first `n` bytes of `src` to the start of `dst`; the rest of `dst`
/// is left alone.
pub fn my_memcpy(dst: &mut [u8], src: &[u8], n: usize)
    requires
        n <= old(dst)@.len(),
        n <= src@.len(),
    ensures
        final(dst)@ == src@.take(n as int) + old(dst)@.skip(n as int),
{
    let ghost orig = dst@;
    let mut i: usize = 0;
    while i < n
        invariant
            i <= n,
            n <= src@.len(),
            dst@.len() == orig.len(),
            n <= orig.len(),
            forall|j: int| 0 <= j < i ==> dst@[j] == src@[j],
            forall|j: int| i <= j < orig.len() ==> dst@[j] == orig[j],
        decreases n - i,
    {
        dst[i] = src[i];
        i = i + 1;
    }
    assert(dst@ =~= src@.take(n as int) + orig.skip(n as int));
}

/// Set the first `n` bytes of `dst` to `c`; the rest of `dst` is left alone.
pub fn my_memset(dst: &mut [u8], c: u8, n: usize)
    requires
        n <= old(dst)@.len(),
    ensures
        final(dst)@ == Seq::new(n as nat, |_i: int| c) + old(dst)@.skip(n as int),
{
    let ghost orig = dst@;
    let mut i: usize = 0;
    while i < n
        invariant
            i <= n,
            n <= orig.len(),
            dst@.len() == orig.len(),
            forall|j: int| 0 <= j < i ==> dst@[j] == c,
            forall|j: int| i <= j < orig.len() ==> dst@[j] == orig[j],
        decreases n - i,
    {
        dst[i] = c;
        i = i + 1;
    }
    assert(dst@ =~= Seq::new(n as nat, |_i: int| c) + orig.skip(n as int));
}

/// Copy `n` bytes of `buf` from offset `src` to offset `dst`, where the two
/// ranges may overlap: every destination byte gets the source byte as it was
/// before the call.  When the destination starts inside the source range the
/// copy runs from the back, otherwise from the front.
pub fn my_memmove(buf: &mut [u8], dst: usize, src: usize, n: usize)
    requires
        dst + n <= old(buf)@.len(),
        src + n <= old(buf)@.len(),
    ensures
        final(buf)@ == moved(old(buf)@, dst as int, src as int, n as int),
{
    let ghost orig = buf@;
    let len = buf.len();
    if n == 0 {
        assert(buf@ =~= moved(orig, dst as int, src as int, 0));
        return;
    }
    if dst > src && dst < src + n {
        // Destination after the source and overlapping it: copy backwards so
        // that no source byte is overwritten before it is read.
        let mut i: usize = n;
        while i != 0
            invariant
                i <= n,
                src < dst,
                dst + n <= orig.len(),
                src + n <= orig.len(),
                buf@.len() == orig.len(),
                orig.len() == len,
                forall|p: int| dst + i <= p < dst + n ==> buf@[p] == orig[src + (p - dst)],
                forall|p: int|
                    0 <= p < orig.len() && !(dst + i <= p < dst + n) ==> buf@[p] == orig[p],
            decreases i,
        {
            i = i - 1;
            let b = buf[src + i];
            buf[dst + i] = b;
        }
    } else {
        // No overlap, or the destination before the source: copy forwards.
        let mut i: usize = 0;
        while i < n
            invariant
                i <= n,
                !(dst > src && dst < src + n),
                dst + n <= orig.len(),
                src + n <= orig.len(),
                buf@.len() == orig.len(),
                orig.len() == len,
                forall|p: int| dst <= p < dst + i ==> buf@[p] == orig[src + (p - dst)],
                forall|p: int|
                    0 <= p < orig.len() && !(dst <= p < dst + i) ==> buf@[p] == orig[p],
            decreases n - i,
        {
            let b = buf[src + i];
            buf[dst + i] = b;
            i = i + 1;
        }
    }
    assert forall|p: int| 0 <= p < orig.len() implies buf@[p] == moved(
        orig,
        dst as int,
        src as int,
        n as int,
    )[p] by {
    }
    assert(buf@ =~= moved(orig, dst as int, src as int, n as int));
}

/// Length of the NUL-terminated string in `s`: the index of its first NUL.
pub fn my_strlen(s: &[u8]) -> (len: usize)
    requires
        nul_terminated(s@),
    ensures
        is_first_nul(s@, len as int),
{
    let ghost p = choose|p: int| 0 <= p < s@.len() && s@[p] == 0;
    let mut len: usize = 0;
    while s[len] != 0
        invariant
            0 <= p < s@.len(),
            s@[p] == 0,
            len <= p,
            forall|j: int| 0 <= j < len ==> s@[j] != 0,
        decreases p - len,
    {
        len = len + 1;
    }
    len
}

/// Compare two NUL-terminated strings byte by byte: at the first position
/// where they differ, or where both end, the result is the difference of the
/// two bytes there (so 0 exactly when the strings are equal).
pub fn my_strcmp(s1: &[u8], s2: &[u8]) -> (r: i32)
    requires
        nul_terminated(s1@),
        nul_terminated(s2@),
    ensures
        exists|k: int| compare_stops_at(s1@, s2@, k) && r == s1@[k] - s2@[k],
{
    first_difference(s1, s2)
}

/// The walk behind `my_strcmp`.
fn first_difference(s1: &[u8], s2: &[u8]) -> (r: i32)
    requires
        nul_terminated(s1@),
        nul_terminated(s2@),
    ensures
        exists|k: int| compare_stops_at(s1@, s2@, k) && r == s1@[k] - s2@[k],
{
    let ghost p = choose|p: int| 0 <= p < s1@.len() && s1@[p] == 0;
    let ghost q = choose|q: int| 0 <= q < s2@.len() && s2@[q] == 0;
    let mut i: usize = 0;
    loop
        invariant
            0 <= p < s1@.len(),
            s1@[p] == 0,
            0 <= q < s2@.len(),
            s2@[q] == 0,
            i <= p,
            i <= q,
            forall|j: int| 0 <= j < i ==> s1@[j] == s2@[j] && s1@[j] != 0,
        decreases p - i,
    {
        let a = s1[i];
        let b = s2[i];
        if a != b {
            assert(compare_stops_at(s1@, s2@, i as int));
            return (a as i32) - (b as i32);
        }
        if a == 0 {
            assert(compare_stops_at(s1@, s2@, i as int));
            return 0;
        }
        i = i + 1;
    }
}

} // verus!

//! Finding a delimiter in a stream of bytes that arrives one byte at a time.
//!
//! The search keeps one number: how many of the last bytes read are the
//! beginning of the delimiter (the overlap). A byte that continues the
//! beginning makes the overlap grow; any other byte makes it fall back to the
//! longest shorter beginning of the delimiter that the bytes read still end
//! with.

use vstd::prelude::*;

verus! {

/// The last `k` bytes of `text` are the first `k` bytes of `pat`.
pub open spec fn ends_with_start(text: Seq<u8>, pat: Seq<u8>, k: int) -> bool {
    &&& 0 <= k <= text.len()
    &&& k <= pat.len()
    &&& text.subrange(text.len() - k, text.len() as int) == pat.take(k)
}

/// `text` ends with the whole of `pat`.
pub open spec fn ends_with(text: Seq<u8>, pat: Seq<u8>) -> bool {
    ends_with_start(text, pat, pat.len() as int)
}

/// `pat` stands in `text` at offset `i`.
pub open spec fn occurs_at(text: Seq<u8>, pat: Seq<u8>, i: int) -> bool {
    &&& 0 <= i
    &&& i + pat.len() <= text.len()
    &&& text.subrange(i, i + pat.len()) == pat
}

/// `pat` stands somewhere in `text`.
pub open spec fn occurs(text: Seq<u8>, pat: Seq<u8>) -> bool {
    exists|i: int| occurs_at(text, pat, i)
}

/// The largest `j <= k` for which `text` ends with the first `j` bytes of
/// `pat`, and 0 where `k` is not positive.
pub open spec fn overlap_upto(text: Seq<u8>, pat: Seq<u8>, k: int) -> int
    decreases k,
{
    if k <= 0 {
        0
    } else if ends_with_start(text, pat, k) {
        k
    } else {
        overlap_upto(text, pat, k - 1)
    }
}

/// The length of the longest proper beginning of `pat` that `text` ends with.
pub open spec fn overlap(text: Seq<u8>, pat: Seq<u8>) -> int {
    overlap_upto(text, pat, pat.len() - 1)
}

/// The bytes of `text` that can no longer belong to an occurrence of `pat`
/// that ends later: all but the overlap.
pub open spec fn settled(text: Seq<u8>, pat: Seq<u8>) -> Seq<u8> {
    text.take(text.len() - overlap(text, pat))
}

/// The first `cp` bytes of `pat` followed by `c`: the bytes that the search
/// still holds back after it has read `c`.
pub open spec fn window(pat: Seq<u8>, cp: int, c: u8) -> Seq<u8> {
    pat.take(cp).push(c)
}

/// What [`overlap_upto`] is: `text` ends with that many first bytes of
/// `pat`, and with no more of them up to `k`.
pub proof fn lemma_overlap_upto(text: Seq<u8>, pat: Seq<u8>, k: int)
    ensures
        0 <= overlap_upto(text, pat, k),
        overlap_upto(text, pat, k) <= if k < 0 {
            0
        } else {
            k
        },
        ends_with_start(text, pat, overlap_upto(text, pat, k)),
        forall|j: int| overlap_upto(text, pat, k) < j <= k ==> !ends_with_start(text, pat, j),
    decreases k,
{
    if k <= 0 {
        assert(text.subrange(text.len() - 0, text.len() as int) =~= pat.take(0));
    } else if ends_with_start(text, pat, k) {
    } else {
        lemma_overlap_upto(text, pat, k - 1);
    }
}

/// What the overlap is: `text` ends with that many first bytes of `pat`, and
/// with no longer proper beginning of `pat`.
pub proof fn lemma_overlap(text: Seq<u8>, pat: Seq<u8>)
    requires
        pat.len() >= 1,
    ensures
        0 <= overlap(text, pat) < pat.len(),
        overlap(text, pat) <= text.len(),
        ends_with_start(text, pat, overlap(text, pat)),
        forall|j: int| overlap(text, pat) < j < pat.len() ==> !ends_with_start(text, pat, j),
{
    lemma_overlap_upto(text, pat, pat.len() - 1);
}

/// The overlap is the only number with the properties of [`lemma_overlap`].
pub proof fn lemma_overlap_unique(text: Seq<u8>, pat: Seq<u8>, r: int)
    requires
        pat.len() >= 1,
        0 <= r < pat.len(),
        ends_with_start(text, pat, r),
        forall|j: int| r < j < pat.len() ==> !ends_with_start(text, pat, j),
    ensures
        overlap(text, pat) == r,
{
    lemma_overlap(text, pat);
}

/// A text grown by one byte ends with the first `k` bytes of `pat` exactly
/// where the byte is the `k`-th of `pat` and the text before ended with the
/// first `k - 1`.
pub proof fn lemma_ends_with_start_push(text: Seq<u8>, pat: Seq<u8>, c: u8, k: int)
    requires
        1 <= k <= pat.len(),
    ensures
        ends_with_start(text.push(c), pat, k) <==> (pat[k - 1] == c && ends_with_start(
            text,
            pat,
            k - 1,
        )),
{
    let t = text.push(c);
    if k <= t.len() {
        let a = t.subrange(t.len() - k, t.len() as int);
        let b = text.subrange(text.len() - (k - 1), text.len() as int);
        if ends_with_start(t, pat, k) {
            assert(a[k - 1] == pat.take(k)[k - 1]);
            assert forall|i: int| 0 <= i < k - 1 implies b[i] == pat.take(k - 1)[i] by {
                assert(a[i] == pat.take(k)[i]);
            }
            assert(b =~= pat.take(k - 1));
        }
        if pat[k - 1] == c && ends_with_start(text, pat, k - 1) {
            assert forall|i: int| 0 <= i < k implies a[i] == pat.take(k)[i] by {
                if i < k - 1 {
                    assert(b[i] == pat.take(k - 1)[i]);
                }
            }
            assert(a =~= pat.take(k));
        }
    }
}

/// Two texts that end with the same `n` bytes end with the same beginnings of
/// `pat` up to length `n`.
pub proof fn lemma_ends_with_start_same_tail(a: Seq<u8>, b: Seq<u8>, pat: Seq<u8>, n: int, k: int)
    requires
        0 <= k <= n,
        n <= a.len(),
        n <= b.len(),
        a.subrange(a.len() - n, a.len() as int) == b.subrange(b.len() - n, b.len() as int),
    ensures
        ends_with_start(a, pat, k) == ends_with_start(b, pat, k),
{
    let ta = a.subrange(a.len() - n, a.len() as int);
    let tb = b.subrange(b.len() - n, b.len() as int);
    let sa = a.subrange(a.len() - k, a.len() as int);
    let sb = b.subrange(b.len() - k, b.len() as int);
    assert forall|i: int| 0 <= i < k implies sa[i] == sb[i] by {
        assert(sa[i] == ta[i + n - k]);
        assert(sb[i] == tb[i + n - k]);
    }
    assert(sa =~= sb);
}

/// After one more byte the overlap depends on the window alone.
pub proof fn lemma_overlap_step(text: Seq<u8>, pat: Seq<u8>, c: u8)
    requires
        pat.len() >= 1,
    ensures
        overlap(text.push(c), pat) == overlap(window(pat, overlap(text, pat), c), pat),
{
    let cp = overlap(text, pat);
    let t = text.push(c);
    let w = window(pat, cp, c);
    lemma_overlap(text, pat);
    lemma_overlap(w, pat);
    let r = overlap(w, pat);
    // the last cp + 1 bytes of `t` are `w`
    assert(t.subrange(t.len() - (cp + 1), t.len() as int) =~= w) by {
        let tail = text.subrange(text.len() - cp, text.len() as int);
        assert forall|i: int| 0 <= i < cp + 1 implies t.subrange(
            t.len() - (cp + 1),
            t.len() as int,
        )[i] == w[i] by {
            if i < cp {
                assert(tail[i] == pat.take(cp)[i]);
            }
        }
    }
    assert(w.subrange(w.len() - (cp + 1), w.len() as int) =~= w);
    lemma_ends_with_start_same_tail(t, w, pat, cp + 1, r);
    assert forall|j: int| r < j < pat.len() implies !ends_with_start(t, pat, j) by {
        if j <= cp + 1 {
            lemma_ends_with_start_same_tail(t, w, pat, cp + 1, j);
        } else {
            lemma_ends_with_start_push(text, pat, c, j);
        }
    }
    lemma_overlap_unique(t, pat, r);
}

/// A text grown by one byte ends with `pat` exactly where the overlap was
/// all of `pat` but its last byte, and the byte is that last byte.
pub proof fn lemma_ends_with_push(text: Seq<u8>, pat: Seq<u8>, c: u8)
    requires
        pat.len() >= 1,
    ensures
        ends_with(text.push(c), pat) <==> (overlap(text, pat) == pat.len() - 1 && c
            == pat.last()),
{
    lemma_overlap(text, pat);
    lemma_ends_with_start_push(text, pat, c, pat.len() as int);
}

/// A text without `pat` that grows by one byte holds `pat` only at its end.
pub proof fn lemma_occurs_push(text: Seq<u8>, pat: Seq<u8>, c: u8)
    requires
        pat.len() >= 1,
        !occurs(text, pat),
    ensures
        occurs(text.push(c), pat) <==> ends_with(text.push(c), pat),
{
    let t = text.push(c);
    if occurs(t, pat) {
        let i = choose|i: int| occurs_at(t, pat, i);
        if i + pat.len() <= text.len() {
            assert(text.subrange(i, i + pat.len()) =~= t.subrange(i, i + pat.len()));
            assert(occurs_at(text, pat, i));
        }
        assert(pat.take(pat.len() as int) =~= pat);
    }
    if ends_with(t, pat) {
        assert(pat.take(pat.len() as int) =~= pat);
        assert(occurs_at(t, pat, t.len() - pat.len()));
    }
}

/// The settled bytes after one more byte that does not complete `pat`: the
/// settled bytes before, and the bytes that left the window.
pub proof fn lemma_settled_step(text: Seq<u8>, pat: Seq<u8>, c: u8)
    requires
        pat.len() >= 1,
    ensures
        ({
            let cp = overlap(text, pat);
            let next = overlap(window(pat, cp, c), pat);
            &&& 0 <= next <= cp + 1
            &&& settled(text.push(c), pat) == settled(text, pat) + window(pat, cp, c).take(
                cp + 1 - next,
            )
        }),
{
    let cp = overlap(text, pat);
    let w = window(pat, cp, c);
    let next = overlap(w, pat);
    let t = text.push(c);
    lemma_overlap(text, pat);
    lemma_overlap(w, pat);
    lemma_overlap_step(text, pat, c);
    let tail = text.subrange(text.len() - cp, text.len() as int);
    assert forall|i: int| 0 <= i < t.len() - next implies settled(t, pat)[i] == (settled(text, pat)
        + w.take(cp + 1 - next))[i] by {
        if i >= text.len() - cp && i < text.len() {
            assert(tail[i - (text.len() - cp)] == pat.take(cp)[i - (text.len() - cp)]);
        }
    }
    assert(settled(t, pat) =~= settled(text, pat) + w.take(cp + 1 - next));
}

/// A text that holds `pat` in one of its stretches holds `pat`.
pub proof fn lemma_occurs_in_stretch(text: Seq<u8>, from: int, to: int, pat: Seq<u8>)
    requires
        0 <= from <= to <= text.len(),
        occurs(text.subrange(from, to), pat),
    ensures
        occurs(text, pat),
{
    let part = text.subrange(from, to);
    let i = choose|i: int| occurs_at(part, pat, i);
    assert(text.subrange(from + i, from + i + pat.len()) =~= part.subrange(i, i + pat.len()));
    assert(occurs_at(text, pat, from + i));
}

/// The bytes of a body that are settled hold the delimiter no more than
/// the bytes read do.
pub proof fn lemma_settled_without(body: Seq<u8>, pat: Seq<u8>)
    requires
        pat.len() >= 1,
        !occurs(body, pat),
    ensures
        !occurs(settled(body, pat), pat),
{
    lemma_overlap(body, pat);
    let done = settled(body, pat);
    if occurs(done, pat) {
        assert(done =~= body.subrange(0, done.len() as int));
        lemma_occurs_in_stretch(body, 0, done.len() as int, pat);
    }
}

/// Whether the window of `cp` matched bytes and `c` ends with the first `k`
/// bytes of `pat`.
fn window_ends_with_start(pat: &Vec<u8>, cp: usize, c: u8, k: usize) -> (r: bool)
    requires
        cp < pat.len(),
        1 <= k <= cp + 1,
    ensures
        r == ends_with_start(window(pat@, cp as int, c), pat@, k as int),
{
    let ghost w = window(pat@, cp as int, c);
    let ghost tail = w.subrange(w.len() - k, w.len() as int);
    if pat[k - 1] != c {
        assert(tail[k - 1] != pat@.take(k as int)[k - 1]);
        return false;
    }
    let shift: usize = cp + 1 - k;
    let mut j: usize = 0;
    while j < k - 1
        invariant
            cp < pat.len(),
            1 <= k <= cp + 1,
            shift == cp + 1 - k,
            j <= k - 1,
            w == window(pat@, cp as int, c),
            tail == w.subrange(w.len() - k, w.len() as int),
            pat@[k - 1] == c,
            forall|i: int| 0 <= i < j ==> tail[i] == pat@[i],
        decreases k - 1 - j,
    {
        if pat[shift + j] != pat[j] {
            assert(tail[j as int] != pat@.take(k as int)[j as int]);
            return false;
        }
        j += 1;
    }
    assert(tail =~= pat@.take(k as int));
    true
}

/// The overlap after the byte `c`, given the overlap `cp` before it.
pub fn next_overlap(pat: &Vec<u8>, cp: usize, c: u8) -> (r: usize)
    requires
        cp < pat.len(),
    ensures
        r == overlap(window(pat@, cp as int, c), pat@),
        r <= cp + 1,
        r < pat.len(),
{
    let ghost w = window(pat@, cp as int, c);
    let mut k: usize = if cp + 1 < pat.len() {
        cp + 1
    } else {
        pat.len() - 1
    };
    proof {
        assert forall|j: int| k < j < pat.len() implies !ends_with_start(w, pat@, j) by {}
    }
    while k > 0
        invariant
            cp < pat.len(),
            k <= cp + 1,
            k < pat.len(),
            w == window(pat@, cp as int, c),
            forall|j: int| k < j < pat.len() ==> !ends_with_start(w, pat@, j),
        decreases k,
    {
        if window_ends_with_start(pat, cp, c, k) {
            proof {
                lemma_overlap_unique(w, pat@, k as int);
            }
            return k;
        }
        k -= 1;
    }
    proof {
        assert(w.subrange(w.len() - 0, w.len() as int) =~= pat@.take(0));
        lemma_overlap_unique(w, pat@, 0);
    }
    0
}

} // verus!

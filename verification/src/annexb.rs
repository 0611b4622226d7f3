//! Splitting an H.264 Annex-B byte stream at its start codes.
use vstd::prelude::*;

verus! {

/// A three-byte start code `00 00 01` begins at `p`.
pub open spec fn code3_at(d: Seq<u8>, p: int) -> bool {
    &&& 0 <= p
    &&& p + 3 <= d.len()
    &&& d[p] == 0
    &&& d[p + 1] == 0
    &&& d[p + 2] == 1
}

/// A four-byte start code `00 00 00 01` begins at `p`.
pub open spec fn code4_at(d: Seq<u8>, p: int) -> bool {
    &&& 0 <= p
    &&& p + 4 <= d.len()
    &&& d[p] == 0
    &&& d[p + 1] == 0
    &&& d[p + 2] == 0
    &&& d[p + 3] == 1
}

/// A NAL unit starts at `p`: a start code begins there, and `p` is not the
/// second byte of a four-byte start code (whose last three bytes also read
/// `00 00 01`).
pub open spec fn is_nal_start(d: Seq<u8>, p: int) -> bool {
    &&& code3_at(d, p) || code4_at(d, p)
    &&& !code4_at(d, p - 1)
}

/// The NAL start positions below `n`, in increasing order.
pub open spec fn nal_starts_below(d: Seq<u8>, n: int) -> Seq<int>
    decreases n,
{
    if n <= 0 {
        Seq::empty()
    } else if is_nal_start(d, n - 1) {
        nal_starts_below(d, n - 1).push(n - 1)
    } else {
        nal_starts_below(d, n - 1)
    }
}

/// All NAL start positions of `d`, in increasing order.
pub open spec fn nal_start_positions(d: Seq<u8>) -> Seq<int> {
    nal_starts_below(d, d.len() as int)
}

/// Positions in `[a, b)` that start no NAL unit leave the prefix list unchanged.
proof fn lemma_no_starts_between(d: Seq<u8>, a: int, b: int)
    requires
        0 <= a <= b,
        forall|p: int| a <= p < b ==> !is_nal_start(d, p),
    ensures
        nal_starts_below(d, b) == nal_starts_below(d, a),
    decreases b - a,
{
    if b > a {
        lemma_no_starts_between(d, a, b - 1);
    }
}

/// The prefix list holds exactly the NAL starts below `n`, in increasing order.
proof fn lemma_starts_below_exact(d: Seq<u8>, n: int)
    requires
        0 <= n,
    ensures
        forall|k: int|
            0 <= k < nal_starts_below(d, n).len() ==> 0 <= #[trigger] nal_starts_below(d, n)[k] < n
                && is_nal_start(d, nal_starts_below(d, n)[k]),
        forall|j: int, k: int|
            0 <= j < k < nal_starts_below(d, n).len() ==> nal_starts_below(d, n)[j]
                < nal_starts_below(d, n)[k],
        forall|p: int| 0 <= p < n && is_nal_start(d, p) ==> nal_starts_below(d, n).contains(p),
    decreases n,
{
    if n > 0 {
        lemma_starts_below_exact(d, n - 1);
        let prev = nal_starts_below(d, n - 1);
        if is_nal_start(d, n - 1) {
            assert(nal_starts_below(d, n)[prev.len() as int] == n - 1);
            assert forall|p: int| 0 <= p < n && is_nal_start(d, p) implies nal_starts_below(
                d,
                n,
            ).contains(p) by {
                if p < n - 1 {
                    let k = choose|k: int| 0 <= k < prev.len() && prev[k] == p;
                    assert(nal_starts_below(d, n)[k] == p);
                } else {
                    assert(nal_starts_below(d, n)[prev.len() as int] == p);
                }
            }
        }
    }
}

/// Law: the start positions are exactly the NAL starts of `d`, each within
/// bounds, strictly increasing, and none is missed.
pub proof fn lemma_nal_start_positions_exact(d: Seq<u8>)
    ensures
        forall|k: int|
            0 <= k < nal_start_positions(d).len() ==> 0 <= #[trigger] nal_start_positions(d)[k]
                < d.len() && is_nal_start(d, nal_start_positions(d)[k]),
        forall|j: int, k: int|
            0 <= j < k < nal_start_positions(d).len() ==> nal_start_positions(d)[j]
                < nal_start_positions(d)[k],
        forall|p: int| is_nal_start(d, p) ==> nal_start_positions(d).contains(p),
{
    lemma_starts_below_exact(d, d.len() as int);
}

/// Each position shifted by `k`.
pub open spec fn shifted(s: Seq<int>, k: int) -> Seq<int> {
    s.map_values(|p: int| p + k)
}

/// Through a window that runs from `k` to the end, starts are seen exactly
/// where `d` has them, provided `k` is not inside a four-byte code.
proof fn lemma_suffix_starts_agree(d: Seq<u8>, k: int, p: int)
    requires
        0 <= k <= d.len(),
        !code4_at(d, k - 1),
        0 <= p,
    ensures
        is_nal_start(d.subrange(k, d.len() as int), p) == is_nal_start(d, k + p),
{
    let t = d.subrange(k, d.len() as int);
    assert(code3_at(t, p) == code3_at(d, k + p));
    assert(code4_at(t, p) == code4_at(d, k + p));
    if p > 0 {
        assert(code4_at(t, p - 1) == code4_at(d, k + p - 1));
    }
}

proof fn lemma_suffix_below(d: Seq<u8>, k: int, q: int)
    requires
        0 <= k <= d.len(),
        !code4_at(d, k - 1),
        0 <= q,
    ensures
        nal_starts_below(d, k + q) == nal_starts_below(d, k) + shifted(
            nal_starts_below(d.subrange(k, d.len() as int), q),
            k,
        ),
    decreases q,
{
    let t = d.subrange(k, d.len() as int);
    if q == 0 {
        assert(shifted(nal_starts_below(t, 0), k) =~= Seq::<int>::empty());
        assert(nal_starts_below(d, k) + Seq::<int>::empty() =~= nal_starts_below(d, k));
    } else {
        lemma_suffix_below(d, k, q - 1);
        lemma_suffix_starts_agree(d, k, q - 1);
        if is_nal_start(t, q - 1) {
            assert(shifted(nal_starts_below(t, q), k) =~= shifted(nal_starts_below(t, q - 1), k).push(
                q - 1 + k,
            ));
            assert(nal_starts_below(d, k) + shifted(nal_starts_below(t, q), k) =~= (
            nal_starts_below(d, k) + shifted(nal_starts_below(t, q - 1), k)).push(k + q - 1));
        }
    }
}

/// Law: after dropping every byte before a start position, the remaining
/// bytes have exactly the later start positions, moved back by the number
/// of bytes dropped; in particular they begin with a start code.
pub proof fn lemma_starts_of_suffix(d: Seq<u8>, m: int)
    requires
        0 <= m < nal_start_positions(d).len(),
    ensures
        nal_start_positions(d.subrange(nal_start_positions(d)[m], d.len() as int)) == shifted(
            nal_start_positions(d).subrange(m, nal_start_positions(d).len() as int),
            -nal_start_positions(d)[m],
        ),
        nal_start_positions(d.subrange(nal_start_positions(d)[m], d.len() as int))[0] == 0,
{
    lemma_nal_start_positions_exact(d);
    let s = nal_start_positions(d);
    let k = s[m];
    let n = d.len() as int;
    let t = d.subrange(k, n);
    assert(is_nal_start(d, k));
    lemma_suffix_below(d, k, n - k);
    let below = nal_starts_below(d, k);
    let tail = shifted(nal_start_positions(t), k);
    assert(s =~= below + tail);
    lemma_starts_below_exact(d, k);
    lemma_suffix_starts_agree(d, k, 0);
    lemma_starts_below_exact(t, t.len() as int);
    assert(nal_start_positions(t).contains(0));
    // the first start of `t` is 0, so `k` sits at index `below.len()` of `s`
    let j = choose|j: int| 0 <= j < nal_start_positions(t).len() && nal_start_positions(t)[j] == 0;
    if j > 0 {
        assert(nal_start_positions(t)[0] < nal_start_positions(t)[j]);
    }
    assert(s[below.len() as int] == k);
    if m < below.len() {
        assert(s[m] < k);
    } else if m > below.len() {
        assert(s[below.len() as int] < s[m]);
    }
    assert(m == below.len());
    assert(shifted(s.subrange(m, s.len() as int), -k) =~= nal_start_positions(t));
}

proof fn lemma_below_is_prefix(d: Seq<u8>, q: int, q2: int)
    requires
        0 <= q <= q2,
    ensures
        nal_starts_below(d, q).len() <= nal_starts_below(d, q2).len(),
        nal_starts_below(d, q2).take(nal_starts_below(d, q).len() as int) == nal_starts_below(
            d,
            q,
        ),
    decreases q2 - q,
{
    if q < q2 {
        lemma_below_is_prefix(d, q, q2 - 1);
        assert(nal_starts_below(d, q2).take(nal_starts_below(d, q).len() as int) =~= nal_starts_below(
            d,
            q2 - 1,
        ).take(nal_starts_below(d, q).len() as int));
    } else {
        assert(nal_starts_below(d, q2).take(nal_starts_below(d, q).len() as int) =~= nal_starts_below(
            d,
            q,
        ));
    }
}

proof fn lemma_below_unaffected_by_append(a: Seq<u8>, b: Seq<u8>, q: int)
    requires
        0 <= q,
        q + 3 <= a.len(),
    ensures
        nal_starts_below(a + b, q) == nal_starts_below(a, q),
    decreases q,
{
    if q > 0 {
        lemma_below_unaffected_by_append(a, b, q - 1);
        let p = q - 1;
        assert(code3_at(a + b, p) == code3_at(a, p));
        assert(code4_at(a + b, p) == code4_at(a, p));
        assert(code4_at(a + b, p - 1) == code4_at(a, p - 1));
    }
}

/// Law: appending bytes never removes, moves or inserts a start before one
/// already found: the start positions of `a` are a prefix of those of
/// `a + b`, so a chunk boundary never moves a NAL boundary.
pub proof fn lemma_starts_stay_on_append(a: Seq<u8>, b: Seq<u8>)
    ensures
        nal_start_positions(a).len() <= nal_start_positions(a + b).len(),
        nal_start_positions(a + b).take(nal_start_positions(a).len() as int)
            == nal_start_positions(a),
{
    let n = a.len() as int;
    let ab = a + b;
    if n < 3 {
        lemma_no_starts_between(a, 0, n);
        assert(nal_starts_below(a, 0) == Seq::<int>::empty());
        assert(ab.take(0) =~= Seq::<u8>::empty());
        assert(nal_start_positions(ab).take(0) =~= Seq::<int>::empty());
    } else {
        let q = n - 3;
        lemma_below_unaffected_by_append(a, b, q);
        assert(!is_nal_start(a, n - 2));
        assert(!is_nal_start(a, n - 1));
        lemma_no_starts_between(a, n - 2, n);
        assert(code3_at(ab, q) == code3_at(a, q));
        assert(code4_at(ab, q - 1) == code4_at(a, q - 1));
        lemma_below_is_prefix(ab, n - 2, ab.len() as int);
        if is_nal_start(a, q) {
            assert(is_nal_start(ab, q));
        } else {
            lemma_below_is_prefix(ab, q, n - 2);
            lemma_below_is_prefix(ab, q, ab.len() as int);
        }
    }
}

/// Positions of Annex-B start codes (`00 00 01` / `00 00 00 01`), each
/// pointing at the first byte of the code, in increasing order.
pub fn nal_starts(data: &[u8]) -> (v: Vec<usize>)
    ensures
        v@.map_values(|p: usize| p as int) == nal_start_positions(data@),
{
    let mut v: Vec<usize> = Vec::new();
    let mut i: usize = 0;
    while i < data.len() && data.len() - i >= 3
        invariant
            i <= data.len(),
            !code4_at(data@, i - 1),
            v@.map_values(|p: usize| p as int) == nal_starts_below(data@, i as int),
        decreases data.len() - i,
    {
        let ghost d = data@;
        let ghost i0 = i as int;
        let ghost before = v@;
        if data[i] == 0 && data[i + 1] == 0 {
            if data[i + 2] == 1 {
                v.push(i);
                i += 3;
                proof {
                    assert(is_nal_start(d, i0));
                    assert(nal_starts_below(d, i0 + 1) == nal_starts_below(d, i0).push(i0));
                    lemma_no_starts_between(d, i0 + 1, i0 + 3);
                    assert(v@.map_values(|p: usize| p as int)
                        =~= before.map_values(|p: usize| p as int).push(i0));
                }
            } else if data.len() - i >= 4 && data[i + 2] == 0 && data[i + 3] == 1 {
                v.push(i);
                i += 4;
                proof {
                    assert(is_nal_start(d, i0));
                    assert(nal_starts_below(d, i0 + 1) == nal_starts_below(d, i0).push(i0));
                    assert(code4_at(d, i0));
                    assert(!is_nal_start(d, i0 + 1));
                    lemma_no_starts_between(d, i0 + 1, i0 + 4);
                    assert(v@.map_values(|p: usize| p as int)
                        =~= before.map_values(|p: usize| p as int).push(i0));
                }
            } else {
                i += 1;
                proof {
                    assert(!is_nal_start(d, i0));
                }
            }
        } else {
            i += 1;
            proof {
                assert(!is_nal_start(d, i0));
            }
        }
    }
    proof {
        lemma_no_starts_between(data@, i as int, data@.len() as int);
    }
    v
}

/// The complete NAL units of `b`: each runs from one start position up to
/// the next, start code included.
pub open spec fn complete_nals(b: Seq<u8>) -> Seq<Seq<u8>> {
    let s = nal_start_positions(b);
    if s.len() == 0 {
        Seq::empty()
    } else {
        Seq::new((s.len() - 1) as nat, |k: int| b.subrange(s[k], s[k + 1]))
    }
}

/// What stays buffered after the complete NAL units of `b` are taken: from
/// the last start position to the end, or all of `b` when it holds no start.
pub open spec fn trailing_partial(b: Seq<u8>) -> Seq<u8> {
    let s = nal_start_positions(b);
    if s.len() == 0 {
        b
    } else {
        b.subrange(s.last(), b.len() as int)
    }
}

/// Start codes seen through the window `b[a..e]` are start codes of `b`, and
/// those of `b` that fit inside the window are seen through it.
proof fn lemma_codes_in_window(b: Seq<u8>, a: int, e: int, p: int)
    requires
        0 <= a <= e <= b.len(),
    ensures
        code3_at(b.subrange(a, e), p) ==> code3_at(b, a + p),
        code4_at(b.subrange(a, e), p) ==> code4_at(b, a + p),
        0 <= p && a + p + 3 <= e && code3_at(b, a + p) ==> code3_at(b.subrange(a, e), p),
        0 <= p && a + p + 4 <= e && code4_at(b, a + p) ==> code4_at(b.subrange(a, e), p),
{
}

/// Two NAL starts never overlap: the next one comes after the whole code.
proof fn lemma_starts_apart(d: Seq<u8>, x: int, y: int)
    requires
        is_nal_start(d, x),
        is_nal_start(d, y),
        x < y,
    ensures
        code3_at(d, x) ==> x + 3 <= y,
        code4_at(d, x) ==> x + 4 <= y,
{
}

/// A sequence whose only NAL start is at 0 has start positions `[0]`.
proof fn lemma_single_start(d: Seq<u8>)
    requires
        is_nal_start(d, 0),
        forall|p: int| 0 < p && #[trigger] is_nal_start(d, p) ==> false,
    ensures
        nal_start_positions(d) == seq![0int],
{
    assert(nal_starts_below(d, 0) == Seq::<int>::empty());
    assert(nal_starts_below(d, 1) =~= seq![0int]);
    lemma_no_starts_between(d, 1, d.len() as int);
}

/// A NAL start of `d` that lies strictly between two consecutive start
/// positions does not exist.
proof fn lemma_no_start_between_consecutive(d: Seq<u8>, k: int, p: int)
    requires
        0 <= k < nal_start_positions(d).len() - 1,
        nal_start_positions(d)[k] < p < nal_start_positions(d)[k + 1],
    ensures
        !is_nal_start(d, p),
{
    lemma_nal_start_positions_exact(d);
    let s = nal_start_positions(d);
    if is_nal_start(d, p) {
        let j = choose|j: int| 0 <= j < s.len() && s[j] == p;
        if j <= k {
            if j < k {
                assert(s[j] < s[k]);
            }
        } else {
            if j > k + 1 {
                assert(s[k + 1] < s[j]);
            }
        }
    }
}

/// Law: after the complete units are taken, what stays buffered begins with
/// a start code and holds no other one.
pub proof fn lemma_trailing_starts_with_code(b: Seq<u8>)
    requires
        nal_start_positions(b).len() > 0,
    ensures
        nal_start_positions(trailing_partial(b)) == seq![0int],
        is_nal_start(trailing_partial(b), 0),
{
    lemma_nal_start_positions_exact(b);
    let s = nal_start_positions(b);
    let last = s.last();
    let n = b.len() as int;
    let t = trailing_partial(b);
    assert(t == b.subrange(last, n));
    assert(is_nal_start(b, last));
    lemma_codes_in_window(b, last, n, 0);
    assert forall|p: int| 0 < p && #[trigger] is_nal_start(t, p) implies false by {
        lemma_codes_in_window(b, last, n, p);
        lemma_codes_in_window(b, last, n, p - 1);
        assert(is_nal_start(b, last + p));
        let j = choose|j: int| 0 <= j < s.len() && s[j] == last + p;
        if j < s.len() - 1 {
            assert(s[j] < s[s.len() - 1]);
        }
    }
    lemma_single_start(t);
}

/// Law: a start code at the front survives appending more bytes, so the
/// next chunk is split against a buffer that still begins with a start code.
pub proof fn lemma_start_survives_append(t: Seq<u8>, data: Seq<u8>)
    requires
        is_nal_start(t, 0),
    ensures
        is_nal_start(t + data, 0),
{
    assert((t + data)[0] == t[0]);
    assert((t + data)[1] == t[1]);
    assert((t + data)[2] == t[2]);
    if code4_at(t, 0) {
        assert((t + data)[3] == t[3]);
    }
}

/// Law: every complete NAL unit holds exactly one start code, at its
/// beginning.
pub proof fn lemma_complete_nal_has_one_start(b: Seq<u8>, k: int)
    requires
        0 <= k < complete_nals(b).len(),
    ensures
        nal_start_positions(complete_nals(b)[k]) == seq![0int],
        is_nal_start(complete_nals(b)[k], 0),
{
    lemma_nal_start_positions_exact(b);
    let s = nal_start_positions(b);
    let a = s[k];
    let e = s[k + 1];
    assert(a < e);
    let c = complete_nals(b)[k];
    assert(c == b.subrange(a, e));
    lemma_starts_apart(b, a, e);
    lemma_codes_in_window(b, a, e, 0);
    assert forall|p: int| 0 < p && #[trigger] is_nal_start(c, p) implies false by {
        lemma_codes_in_window(b, a, e, p);
        lemma_codes_in_window(b, a, e, p - 1);
        assert(a + p < e);
        if code4_at(b, a + p - 1) {
            // such a code would overlap the next start
            assert(a + p - 1 + 4 > e);
            assert(!is_nal_start(b, e));
        }
        assert(is_nal_start(b, a + p));
        lemma_no_start_between_consecutive(b, k, a + p);
    }
    lemma_single_start(c);
}

/// Law: when the buffered bytes begin with a start code, splitting loses
/// nothing: the complete units followed by what stays buffered are exactly
/// the buffered bytes.
pub proof fn lemma_split_loses_nothing(b: Seq<u8>)
    requires
        is_nal_start(b, 0),
    ensures
        complete_nals(b).flatten() + trailing_partial(b) == b,
{
    lemma_nal_start_positions_exact(b);
    let s = nal_start_positions(b);
    let nals = complete_nals(b);
    let j0 = choose|j: int| 0 <= j < s.len() && s[j] == 0;
    if j0 > 0 {
        assert(s[0] < s[j0]);
    }
    assert(s[0] == 0);
    assert forall|k: int| 0 <= k <= nals.len() implies #[trigger] nals.take(k).flatten_alt()
        == b.subrange(0, s[k]) by {
        lemma_flatten_prefix(b, k);
    }
    nals.lemma_flatten_and_flatten_alt_are_equivalent();
    assert(nals.take(nals.len() as int) =~= nals);
    assert(nals.flatten() == b.subrange(0, s.last()));
    assert(b.subrange(0, s.last()) + b.subrange(s.last(), b.len() as int) =~= b);
}

proof fn lemma_flatten_prefix(b: Seq<u8>, k: int)
    requires
        nal_start_positions(b).len() > 0,
        nal_start_positions(b)[0] == 0,
        0 <= k <= complete_nals(b).len(),
        forall|j: int, l: int|
            0 <= j < l < nal_start_positions(b).len() ==> nal_start_positions(b)[j]
                < nal_start_positions(b)[l],
        forall|j: int|
            0 <= j < nal_start_positions(b).len() ==> 0 <= #[trigger] nal_start_positions(b)[j]
                < b.len(),
    ensures
        complete_nals(b).take(k).flatten_alt() == b.subrange(0, nal_start_positions(b)[k]),
    decreases k,
{
    let s = nal_start_positions(b);
    let nals = complete_nals(b);
    if k == 0 {
        assert(nals.take(0) =~= Seq::<Seq<u8>>::empty());
        assert(b.subrange(0, 0) =~= Seq::<u8>::empty());
    } else {
        lemma_flatten_prefix(b, k - 1);
        assert(nals.take(k).drop_last() =~= nals.take(k - 1));
        assert(nals.take(k).last() == b.subrange(s[k - 1], s[k]));
        if k - 1 > 0 {
            assert(s[0] < s[k - 1]);
        }
        assert(s[k - 1] < s[k]);
        assert(b.subrange(0, s[k - 1]) + b.subrange(s[k - 1], s[k]) =~= b.subrange(0, s[k]));
    }
}

/// Copies `src[a..b]` into a new vector.
fn copy_range(src: &[u8], a: usize, b: usize) -> (out: Vec<u8>)
    requires
        a <= b <= src@.len(),
    ensures
        out@ == src@.subrange(a as int, b as int),
{
    let mut out: Vec<u8> = Vec::new();
    let mut i: usize = a;
    while i < b
        invariant
            a <= i <= b <= src@.len(),
            out@ == src@.subrange(a as int, i as int),
        decreases b - i,
    {
        out.push(src[i]);
        i += 1;
        assert(out@ =~= src@.subrange(a as int, i as int));
    }
    out
}

/// An Annex-B accumulator: raw stream chunks go in, complete NAL units (each
/// with its start code) come out, and the trailing partial unit stays.
pub struct NalBuffer {
    pending: Vec<u8>,
}

impl View for NalBuffer {
    type V = Seq<u8>;

    closed spec fn view(&self) -> Seq<u8> {
        self.pending@
    }
}

impl NalBuffer {
    /// An empty accumulator.
    pub fn new() -> (r: NalBuffer)
        ensures
            r@ == Seq::<u8>::empty(),
    {
        NalBuffer { pending: Vec::new() }
    }

    /// Number of bytes held back.
    pub fn pending_len(&self) -> (n: usize)
        ensures
            n == self@.len(),
    {
        self.pending.len()
    }

    /// Appends a chunk and takes out every complete NAL unit, in stream
    /// order; only the trailing partial unit (from the last start code on)
    /// is kept. Without any start code nothing is taken and all is kept.
    pub fn push(&mut self, data: &[u8]) -> (nals: Vec<Vec<u8>>)
        requires
            old(self)@.len() + data@.len() <= usize::MAX,
        ensures
            nals@.map_values(|n: Vec<u8>| n@) == complete_nals(old(self)@ + data@),
            final(self)@ == trailing_partial(old(self)@ + data@),
    {
        let ghost buf = self.pending@ + data@;
        let mut i: usize = 0;
        while i < data.len()
            invariant
                i <= data@.len(),
                self.pending@ == old(self)@ + data@.subrange(0, i as int),
                buf == old(self)@ + data@,
                old(self)@.len() + data@.len() <= usize::MAX,
            decreases data@.len() - i,
        {
            self.pending.push(data[i]);
            i += 1;
            assert(self.pending@ =~= old(self)@ + data@.subrange(0, i as int));
        }
        assert(self.pending@ =~= buf);
        let starts = nal_starts(self.pending.as_slice());
        let ghost s = nal_start_positions(buf);
        proof {
            lemma_nal_start_positions_exact(buf);
            assert(starts@.len() == s.len());
            assert forall|k: int| 0 <= k < starts@.len() implies starts@[k] as int == s[k] by {
                assert(starts@.map_values(|p: usize| p as int)[k] == s[k]);
            }
        }
        let mut nals: Vec<Vec<u8>> = Vec::new();
        if starts.len() > 0 {
            let mut k: usize = 0;
            while k < starts.len() - 1
                invariant
                    0 < starts@.len() == s.len(),
                    s == nal_start_positions(buf),
                    k < starts@.len(),
                    self.pending@ == buf,
                    buf == old(self)@ + data@,
                    forall|j: int| 0 <= j < starts@.len() ==> starts@[j] as int == s[j],
                    forall|j: int| 0 <= j < s.len() ==> 0 <= #[trigger] s[j] < buf.len(),
                    forall|j: int, l: int| 0 <= j < l < s.len() ==> s[j] < s[l],
                    nals@.map_values(|n: Vec<u8>| n@) == complete_nals(buf).take(k as int),
                decreases starts@.len() - k,
            {
                assert(s[k as int] < s[k + 1]);
                assert(s[k + 1] < buf.len());
                let nal = copy_range(self.pending.as_slice(), starts[k], starts[k + 1]);
                assert(starts@[k as int] as int == s[k as int]);
                assert(starts@[k + 1] as int == s[k + 1]);
                assert(nal@ == buf.subrange(s[k as int], s[k + 1]));
                assert(complete_nals(buf)[k as int] == nal@);
                let ghost before = nals@.map_values(|n: Vec<u8>| n@);
                nals.push(nal);
                k += 1;
                assert(nals@.map_values(|n: Vec<u8>| n@) =~= before.push(complete_nals(buf)[k - 1]));
                assert(nals@.map_values(|n: Vec<u8>| n@) =~= complete_nals(buf).take(k as int));
            }
            assert(complete_nals(buf).take(k as int) =~= complete_nals(buf));
            assert(s[s.len() - 1] < buf.len());
            let keep = starts[starts.len() - 1];
            let tail = self.pending.split_off(keep);
            self.pending = tail;
        } else {
            assert(nals@.map_values(|n: Vec<u8>| n@) =~= complete_nals(buf));
        }
        nals
    }
}

} // verus!

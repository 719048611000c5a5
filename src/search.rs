use crate::dna::{is_dna, reports_unsupported_base, reverse_complement, reverse_complement_of};
use crate::model::{AmpliconError, AmpliconResult, PrimerPair};
use vstd::prelude::*;

verus! {

/// `p` occurs in `s` starting at offset `i`.
pub open spec fn is_match_at(s: Seq<u8>, p: Seq<u8>, i: int) -> bool {
    0 <= i && i + p.len() <= s.len() && s.subrange(i, i + p.len()) == p
}

/// The offsets below `n` at which `p` occurs in `s`, ascending.
pub open spec fn occurrences_below(s: Seq<u8>, p: Seq<u8>, n: int) -> Seq<int>
    decreases n,
{
    if n <= 0 {
        seq![]
    } else if is_match_at(s, p, n - 1) {
        occurrences_below(s, p, n - 1).push(n - 1)
    } else {
        occurrences_below(s, p, n - 1)
    }
}

/// Every offset at which `p` occurs in `s`, overlapping occurrences included,
/// ascending.
pub open spec fn occurrences(s: Seq<u8>, p: Seq<u8>) -> Seq<int> {
    occurrences_below(s, p, s.len() as int + 1)
}

/// Relies on memchr::memmem::find: the offset of the first occurrence of
/// `needle` in `haystack`, or `None` where it does not occur.
#[verifier::external_body]
fn first_occurrence(haystack: &[u8], needle: &[u8]) -> (r: Option<usize>)
    ensures
        match r {
            Some(i) => is_match_at(haystack@, needle@, i as int) && forall|j: int|
                0 <= j < i ==> !#[trigger] is_match_at(haystack@, needle@, j),
            None => forall|j: int| !#[trigger] is_match_at(haystack@, needle@, j),
        },
{
    memchr::memmem::find(haystack, needle)
}

/// No occurrence lies in `[a, b)`, so the occurrences below `b` are those below `a`.
proof fn lemma_no_occurrences_between(s: Seq<u8>, p: Seq<u8>, a: int, b: int)
    requires
        0 <= a <= b,
        forall|j: int| a <= j < b ==> !#[trigger] is_match_at(s, p, j),
    ensures
        occurrences_below(s, p, b) == occurrences_below(s, p, a),
    decreases b - a,
{
    if a < b {
        lemma_no_occurrences_between(s, p, a, b - 1);
    }
}

/// An occurrence starts at offset `j` of the tail of `s` from `pos` exactly
/// where one starts at offset `pos + j` of `s`.
proof fn lemma_match_in_tail(s: Seq<u8>, p: Seq<u8>, pos: int, j: int)
    requires
        0 <= pos <= s.len(),
        0 <= j,
    ensures
        is_match_at(s.subrange(pos, s.len() as int), p, j) == is_match_at(s, p, pos + j),
{
    let t = s.subrange(pos, s.len() as int);
    if j + p.len() <= t.len() {
        assert(t.subrange(j, j + p.len()) =~= s.subrange(pos + j, pos + j + p.len()));
    }
}

/// The offsets below `n` are ascending, in `[0, n)`, and each is an occurrence.
proof fn lemma_occurrences_below_facts(s: Seq<u8>, p: Seq<u8>, n: int)
    ensures
        forall|k: int|
            0 <= k < occurrences_below(s, p, n).len() ==> 0 <= #[trigger] occurrences_below(
                s,
                p,
                n,
            )[k] < n && is_match_at(s, p, occurrences_below(s, p, n)[k]),
        forall|k: int, l: int|
            0 <= k < l < occurrences_below(s, p, n).len() ==> #[trigger] occurrences_below(
                s,
                p,
                n,
            )[k] < #[trigger] occurrences_below(s, p, n)[l],
        forall|i: int| 0 <= i < n && is_match_at(s, p, i) ==> #[trigger] occurrences_below(
            s,
            p,
            n,
        ).contains(i),
    decreases n,
{
    if n > 0 {
        lemma_occurrences_below_facts(s, p, n - 1);
        let prev = occurrences_below(s, p, n - 1);
        assert(occurrences_below(s, p, n) == if is_match_at(s, p, n - 1) {
            prev.push(n - 1)
        } else {
            prev
        });
        assert forall|i: int| 0 <= i < n && is_match_at(s, p, i) implies #[trigger] occurrences_below(
            s,
            p,
            n,
        ).contains(i) by {
            if i < n - 1 {
                assert(prev.contains(i));
                let k = choose|k: int| 0 <= k < prev.len() && prev[k] == i;
                assert(occurrences_below(s, p, n)[k] == i);
            } else {
                assert(occurrences_below(s, p, n)[prev.len() as int] == i);
            }
        }
    }
}

/// Every offset at which `pattern` occurs in `haystack`, in ascending order,
/// overlapping occurrences included.
pub fn find_all(haystack: &[u8], pattern: &[u8]) -> (r: Vec<usize>)
    ensures
        r@.len() == occurrences(haystack@, pattern@).len(),
        forall|k: int|
            0 <= k < r@.len() ==> #[trigger] r@[k] as int == occurrences(haystack@, pattern@)[k],
{
    let ghost s = haystack@;
    let ghost p = pattern@;
    let mut out: Vec<usize> = Vec::new();
    let mut pos: usize = 0;
    loop
        invariant
            s == haystack@,
            p == pattern@,
            pos <= s.len(),
            out@.len() == occurrences_below(s, p, pos as int).len(),
            forall|k: int|
                0 <= k < out@.len() ==> out@[k] as int == #[trigger] occurrences_below(s, p, pos as int)[k],
        decreases s.len() - pos,
    {
        let tail = vstd::slice::slice_subrange(haystack, pos, haystack.len());
        match first_occurrence(tail, pattern) {
            Some(j) => {
                proof {
                    lemma_match_in_tail(s, p, pos as int, j as int);
                    assert forall|i: int| pos <= i < pos + j implies !#[trigger] is_match_at(s, p, i) by {
                        lemma_match_in_tail(s, p, pos as int, i - pos);
                        assert(!is_match_at(tail@, p, i - pos));
                    }
                    lemma_no_occurrences_between(s, p, pos as int, pos + j);
                }
                let hit: usize = pos + j;
                out.push(hit);
                if hit == haystack.len() {
                    proof {
                        lemma_no_occurrences_between(s, p, hit + 1, s.len() as int + 1);
                    }
                    return out;
                }
                pos = hit + 1;
            },
            None => {
                proof {
                    assert forall|i: int| pos <= i < s.len() as int + 1 implies !#[trigger] is_match_at(s, p, i) by {
                        lemma_match_in_tail(s, p, pos as int, i - pos);
                        assert(!is_match_at(tail@, p, i - pos));
                    }
                    lemma_no_occurrences_between(s, p, pos as int, s.len() as int + 1);
                }
                return out;
            },
        }
    }
}

/// `a - b` where `a > b`, else zero.
pub fn usize_sub(a: usize, b: usize) -> (r: usize)
    ensures
        r == if a > b { a - b } else { 0 },
{
    if a > b {
        a - b
    } else {
        0
    }
}

/// An insert from `f_end` to `r` is kept: the reverse match does not begin
/// before the forward match ends, and the insert length lies in `[min, max]`.
pub open spec fn accepts(f_end: int, r: int, min: int, max: int) -> bool {
    f_end <= r && min <= r - f_end <= max
}

/// The kept inserts `(start, end)` that begin at `f_end` and end at one of
/// the first `n` reverse hits, in the order of those hits.
pub open spec fn row_windows(f_end: int, rh: Seq<int>, n: int, min: int, max: int) -> Seq<(int, int)>
    decreases n,
{
    if n <= 0 {
        seq![]
    } else if accepts(f_end, rh[n - 1], min, max) {
        row_windows(f_end, rh, n - 1, min, max).push((f_end, rh[n - 1]))
    } else {
        row_windows(f_end, rh, n - 1, min, max)
    }
}

/// The kept inserts of the first `m` forward hits against all reverse hits:
/// forward hit by forward hit, each in the order of the reverse hits.
pub open spec fn all_windows(
    fh: Seq<int>,
    m: int,
    fwd_len: int,
    rh: Seq<int>,
    min: int,
    max: int,
) -> Seq<(int, int)>
    decreases m,
{
    if m <= 0 {
        seq![]
    } else {
        all_windows(fh, m - 1, fwd_len, rh, min, max) + row_windows(
            fh[m - 1] + fwd_len,
            rh,
            rh.len() as int,
            min,
            max,
        )
    }
}

/// The inserts `(start, end)` that a search of `seq` with this primer pair
/// reports, in order.
pub open spec fn amplicon_windows(
    seq: Seq<u8>,
    fwd: Seq<u8>,
    rev: Seq<u8>,
    min: int,
    max: int,
) -> Seq<(int, int)> {
    let fh = occurrences(seq, fwd);
    all_windows(fh, fh.len() as int, fwd.len() as int, occurrences(seq, reverse_complement_of(rev)), min, max)
}

/// `w` pairs `f_end` with one of the first `n` reverse hits, which it accepts.
pub open spec fn row_member(w: (int, int), f_end: int, rh: Seq<int>, n: int, min: int, max: int) -> bool {
    exists|b: int| 0 <= b < n && w == (f_end, #[trigger] rh[b]) && accepts(f_end, rh[b], min, max)
}

/// `w` pairs the end of one of the first `m` forward hits with a reverse hit,
/// which it accepts.
pub open spec fn all_member(
    w: (int, int),
    fh: Seq<int>,
    m: int,
    fwd_len: int,
    rh: Seq<int>,
    min: int,
    max: int,
) -> bool {
    exists|a: int, b: int|
        0 <= a < m && 0 <= b < rh.len() && w == (#[trigger] fh[a] + fwd_len, #[trigger] rh[b])
            && accepts(fh[a] + fwd_len, rh[b], min, max)
}

/// Each kept insert of a row pairs `f_end` with one of the first `n` reverse
/// hits that it accepts, and each such hit gives one.
proof fn lemma_row_windows_members(f_end: int, rh: Seq<int>, n: int, min: int, max: int)
    requires
        0 <= n <= rh.len(),
    ensures
        forall|k: int|
            0 <= k < row_windows(f_end, rh, n, min, max).len() ==> row_member(
                #[trigger] row_windows(f_end, rh, n, min, max)[k],
                f_end,
                rh,
                n,
                min,
                max,
            ),
        forall|b: int|
            0 <= b < n && accepts(f_end, rh[b], min, max) ==> #[trigger] row_windows(
                f_end,
                rh,
                n,
                min,
                max,
            ).contains((f_end, rh[b])),
    decreases n,
{
    if n > 0 {
        lemma_row_windows_members(f_end, rh, n - 1, min, max);
        let prev = row_windows(f_end, rh, n - 1, min, max);
        let cur = row_windows(f_end, rh, n, min, max);
        assert(cur == if accepts(f_end, rh[n - 1], min, max) {
            prev.push((f_end, rh[n - 1]))
        } else {
            prev
        });
        assert forall|k: int| 0 <= k < cur.len() implies row_member(#[trigger] cur[k], f_end, rh, n, min, max) by {
            if k < prev.len() {
                assert(cur[k] == prev[k]);
                assert(row_member(prev[k], f_end, rh, n - 1, min, max));
                let b = choose|b: int|
                    0 <= b < n - 1 && prev[k] == (f_end, #[trigger] rh[b]) && accepts(f_end, rh[b], min, max);
                assert(cur[k] == (f_end, rh[b]));
            } else {
                assert(cur[k] == (f_end, rh[n - 1]));
                assert(accepts(f_end, rh[n - 1], min, max));
            }
        }
        assert forall|b: int| 0 <= b < n && accepts(f_end, rh[b], min, max) implies #[trigger] cur.contains(
            (f_end, rh[b]),
        ) by {
            if b < n - 1 {
                assert(prev.contains((f_end, rh[b])));
                let k = choose|k: int| 0 <= k < prev.len() && prev[k] == (f_end, rh[b]);
                assert(cur[k] == prev[k]);
            } else {
                assert(cur[prev.len() as int] == (f_end, rh[b]));
            }
        }
    }
}

/// Each kept insert of the first `m` forward hits pairs one of them with a
/// reverse hit that it accepts, and each such pair gives one.
proof fn lemma_all_windows_members(fh: Seq<int>, m: int, fwd_len: int, rh: Seq<int>, min: int, max: int)
    requires
        0 <= m <= fh.len(),
    ensures
        forall|k: int|
            0 <= k < all_windows(fh, m, fwd_len, rh, min, max).len() ==> all_member(
                #[trigger] all_windows(fh, m, fwd_len, rh, min, max)[k],
                fh,
                m,
                fwd_len,
                rh,
                min,
                max,
            ),
        forall|a: int, b: int|
            0 <= a < m && 0 <= b < rh.len() && accepts(fh[a] + fwd_len, rh[b], min, max)
                ==> #[trigger] all_windows(fh, m, fwd_len, rh, min, max).contains((fh[a] + fwd_len, rh[b])),
    decreases m,
{
    if m > 0 {
        lemma_all_windows_members(fh, m - 1, fwd_len, rh, min, max);
        let f_end = fh[m - 1] + fwd_len;
        lemma_row_windows_members(f_end, rh, rh.len() as int, min, max);
        let prev = all_windows(fh, m - 1, fwd_len, rh, min, max);
        let row = row_windows(f_end, rh, rh.len() as int, min, max);
        let cur = all_windows(fh, m, fwd_len, rh, min, max);
        assert(cur == prev + row);
        assert forall|k: int| 0 <= k < cur.len() implies all_member(#[trigger] cur[k], fh, m, fwd_len, rh, min, max) by {
            if k < prev.len() {
                assert(cur[k] == prev[k]);
                assert(all_member(prev[k], fh, m - 1, fwd_len, rh, min, max));
                let (a, b) = choose|a: int, b: int|
                    0 <= a < m - 1 && 0 <= b < rh.len() && prev[k] == (#[trigger] fh[a] + fwd_len, #[trigger] rh[b])
                        && accepts(fh[a] + fwd_len, rh[b], min, max);
                assert(cur[k] == (fh[a] + fwd_len, rh[b]));
            } else {
                assert(cur[k] == row[k - prev.len()]);
                assert(row_member(row[k - prev.len()], f_end, rh, rh.len() as int, min, max));
                let b = choose|b: int|
                    0 <= b < rh.len() && row[k - prev.len()] == (f_end, #[trigger] rh[b]) && accepts(
                        f_end,
                        rh[b],
                        min,
                        max,
                    );
                assert(cur[k] == (fh[m - 1] + fwd_len, rh[b]));
            }
        }
        assert forall|a: int, b: int|
            0 <= a < m && 0 <= b < rh.len() && accepts(fh[a] + fwd_len, rh[b], min, max)
                implies #[trigger] cur.contains((fh[a] + fwd_len, rh[b])) by {
            if a < m - 1 {
                assert(prev.contains((fh[a] + fwd_len, rh[b])));
                let k = choose|k: int| 0 <= k < prev.len() && prev[k] == (fh[a] + fwd_len, rh[b]);
                assert(cur[k] == prev[k]);
            } else {
                assert(row.contains((f_end, rh[b])));
                let k = choose|k: int| 0 <= k < row.len() && row[k] == (f_end, rh[b]);
                assert(cur[prev.len() + k] == row[k]);
            }
        }
    }
}

/// Window filtering: an occurrence `f` of the forward primer and an
/// occurrence `r` of the reverse primer's reverse complement give a reported
/// insert exactly when `r` is not before the end of the forward match and the
/// insert length `r - (f + |forward|)` lies in `[min, max]`.
pub proof fn lemma_window_filter(seq: Seq<u8>, fwd: Seq<u8>, rev: Seq<u8>, min: usize, max: usize, f: int, r: int)
    requires
        is_match_at(seq, fwd, f),
        is_match_at(seq, reverse_complement_of(rev), r),
    ensures
        amplicon_windows(seq, fwd, rev, min as int, max as int).contains((f + fwd.len(), r))
            <==> (f + fwd.len() <= r && min <= r - (f + fwd.len()) <= max),
{
    let rc = reverse_complement_of(rev);
    let fh = occurrences(seq, fwd);
    let rh = occurrences(seq, rc);
    let w = amplicon_windows(seq, fwd, rev, min as int, max as int);
    lemma_occurrences_below_facts(seq, fwd, seq.len() as int + 1);
    lemma_occurrences_below_facts(seq, rc, seq.len() as int + 1);
    lemma_all_windows_members(fh, fh.len() as int, fwd.len() as int, rh, min as int, max as int);
    assert(fh.contains(f));
    assert(rh.contains(r));
    let a = choose|a: int| 0 <= a < fh.len() && fh[a] == f;
    let b = choose|b: int| 0 <= b < rh.len() && rh[b] == r;
    if w.contains((f + fwd.len(), r)) {
        let k = choose|k: int| 0 <= k < w.len() && w[k] == (f + fwd.len(), r);
        assert(all_member(w[k], fh, fh.len() as int, fwd.len() as int, rh, min as int, max as int));
    }
    if accepts(f + fwd.len(), r, min as int, max as int) {
        assert(fh[a] + fwd.len() == f + fwd.len());
        assert(w.contains((fh[a] + fwd.len(), rh[b])));
    }
}

/// A search with one primer pair reports only inserts that lie right after an
/// occurrence of that pair's own forward primer and right before an occurrence
/// of the reverse complement of its own reverse primer, with a length in the
/// pair's window.
pub proof fn lemma_windows_flanked_by_own_primers(seq: Seq<u8>, pp: PrimerPair)
    ensures
        forall|k: int|
            0 <= k < amplicon_windows(
                seq,
                pp.forward_primer@,
                pp.reverse_primer@,
                pp.min_len as int,
                pp.max_len as int,
            ).len() ==> {
                let w = #[trigger] amplicon_windows(
                    seq,
                    pp.forward_primer@,
                    pp.reverse_primer@,
                    pp.min_len as int,
                    pp.max_len as int,
                )[k];
                &&& is_match_at(seq, pp.forward_primer@, w.0 - pp.forward_primer@.len())
                &&& is_match_at(seq, reverse_complement_of(pp.reverse_primer@), w.1)
                &&& accepts(w.0, w.1, pp.min_len as int, pp.max_len as int)
            },
{
    let fwd = pp.forward_primer@;
    let rc = reverse_complement_of(pp.reverse_primer@);
    let fh = occurrences(seq, fwd);
    let rh = occurrences(seq, rc);
    let (lo, hi) = (pp.min_len as int, pp.max_len as int);
    let w = amplicon_windows(seq, fwd, pp.reverse_primer@, lo, hi);
    lemma_occurrences_below_facts(seq, fwd, seq.len() as int + 1);
    lemma_occurrences_below_facts(seq, rc, seq.len() as int + 1);
    lemma_all_windows_members(fh, fh.len() as int, fwd.len() as int, rh, lo, hi);
    assert forall|k: int| 0 <= k < w.len() implies {
        &&& is_match_at(seq, fwd, #[trigger] w[k].0 - fwd.len())
        &&& is_match_at(seq, rc, w[k].1)
        &&& accepts(w[k].0, w[k].1, lo, hi)
    } by {
        let (a, b) = choose|a: int, b: int|
            0 <= a < fh.len() && 0 <= b < rh.len() && #[trigger] w[k] == (fh[a] + fwd.len(), rh[b])
                && accepts(fh[a] + fwd.len(), rh[b], lo, hi);
        assert(is_match_at(seq, fwd, fh[a]));
        assert(is_match_at(seq, rc, rh[b]));
    }
}

/// `s` is strictly ascending.
pub open spec fn strictly_ascending(s: Seq<int>) -> bool {
    forall|k: int, l: int| 0 <= k < l < s.len() ==> #[trigger] s[k] < #[trigger] s[l]
}

/// With a window of `[0, 0]` a row keeps one insert where `f_end` is a reverse
/// hit, and none elsewhere.
proof fn lemma_zero_window_row_len(f_end: int, rh: Seq<int>, n: int)
    requires
        0 <= n <= rh.len(),
        strictly_ascending(rh),
    ensures
        row_windows(f_end, rh, n, 0, 0).len() == if exists|b: int| 0 <= b < n && #[trigger] rh[b] == f_end {
            1int
        } else {
            0int
        },
    decreases n,
{
    if n > 0 {
        lemma_zero_window_row_len(f_end, rh, n - 1);
        if rh[n - 1] == f_end {
            assert forall|b: int| 0 <= b < n - 1 implies #[trigger] rh[b] != f_end by {
                assert(rh[b] < rh[n - 1]);
            }
        } else {
            if exists|b: int| 0 <= b < n && #[trigger] rh[b] == f_end {
                let b = choose|b: int| 0 <= b < n && #[trigger] rh[b] == f_end;
                assert(b < n - 1);
            }
        }
    }
}

/// With a window of `[0, 0]`, where only the forward hit `k` ends at a reverse
/// hit, the first `m` forward hits keep one insert if `k` is among them and
/// that hit ends at a reverse hit, and none otherwise.
proof fn lemma_zero_window_len(fh: Seq<int>, m: int, fwd_len: int, rh: Seq<int>, k: int)
    requires
        0 <= m <= fh.len(),
        strictly_ascending(fh),
        strictly_ascending(rh),
        forall|a: int, b: int|
            0 <= a < fh.len() && 0 <= b < rh.len() && #[trigger] rh[b] == #[trigger] fh[a] + fwd_len ==> fh[a] == k,
    ensures
        all_windows(fh, m, fwd_len, rh, 0, 0).len() == if exists|a: int, b: int|
            0 <= a < m && 0 <= b < rh.len() && #[trigger] fh[a] == k && #[trigger] rh[b] == k + fwd_len {
            1int
        } else {
            0int
        },
    decreases m,
{
    if m > 0 {
        lemma_zero_window_len(fh, m - 1, fwd_len, rh, k);
        let f_end = fh[m - 1] + fwd_len;
        lemma_zero_window_row_len(f_end, rh, rh.len() as int);
        if exists|b: int| 0 <= b < rh.len() && #[trigger] rh[b] == f_end {
            let b = choose|b: int| 0 <= b < rh.len() && #[trigger] rh[b] == f_end;
            assert(fh[m - 1] == k);
            assert forall|a: int, c: int|
                0 <= a < m - 1 && 0 <= c < rh.len() implies !(#[trigger] fh[a] == k && #[trigger] rh[c] == k + fwd_len) by {
                assert(fh[a] < fh[m - 1]);
            }
        } else {
            if exists|a: int, b: int|
                0 <= a < m && 0 <= b < rh.len() && #[trigger] fh[a] == k && #[trigger] rh[b] == k + fwd_len {
                let (a, b) = choose|a: int, b: int|
                    0 <= a < m && 0 <= b < rh.len() && #[trigger] fh[a] == k && #[trigger] rh[b] == k + fwd_len;
                if a == m - 1 {
                    assert(rh[b] == f_end);
                }
            }
        }
    }
}

/// Zero-gap amplicon: where the forward primer is followed, with nothing
/// between, by the reverse complement of the reverse primer at exactly one
/// offset `k` of the sequence, and the pair's insert window is `[0, 0]`, the
/// search reports exactly one amplicon, of insert length zero, starting
/// right after the forward primer at `k`.
pub proof fn lemma_zero_gap_single_amplicon(
    seq: Seq<u8>,
    pp: PrimerPair,
    k: int,
    r: Result<Vec<AmpliconResult>, AmpliconError>,
)
    requires
        pp.min_len == 0,
        pp.max_len == 0,
        is_dna(pp.reverse_primer@),
        is_match_at(seq, pp.forward_primer@ + reverse_complement_of(pp.reverse_primer@), k),
        forall|j: int|
            j != k ==> !(#[trigger] is_match_at(seq, pp.forward_primer@, j) && is_match_at(
                seq,
                reverse_complement_of(pp.reverse_primer@),
                j + pp.forward_primer@.len(),
            )),
        search_outcome(seq, pp, r),
    ensures
        r is Ok,
        r->Ok_0@.len() == 1,
        r->Ok_0@[0].insert_length == 0,
        r->Ok_0@[0].start == k + pp.forward_primer@.len(),
{
    let fwd = pp.forward_primer@;
    let rc = reverse_complement_of(pp.reverse_primer@);
    let fh = occurrences(seq, fwd);
    let rh = occurrences(seq, rc);
    let p = k + fwd.len();
    let w = amplicon_windows(seq, fwd, pp.reverse_primer@, 0, 0);
    lemma_occurrences_below_facts(seq, fwd, seq.len() as int + 1);
    lemma_occurrences_below_facts(seq, rc, seq.len() as int + 1);
    let both = fwd + rc;
    let window = seq.subrange(k, k + both.len());
    assert(window == both);
    assert(seq.subrange(k, k + fwd.len()) =~= window.subrange(0, fwd.len() as int));
    assert(both.subrange(0, fwd.len() as int) =~= fwd);
    assert(seq.subrange(p, p + rc.len()) =~= window.subrange(fwd.len() as int, both.len() as int));
    assert(both.subrange(fwd.len() as int, both.len() as int) =~= rc);
    assert(is_match_at(seq, fwd, k));
    assert(is_match_at(seq, rc, p));
    assert forall|a: int, b: int|
        0 <= a < fh.len() && 0 <= b < rh.len() && #[trigger] rh[b] == #[trigger] fh[a] + fwd.len() implies fh[a] == k by {
        assert(is_match_at(seq, fwd, fh[a]));
        assert(is_match_at(seq, rc, rh[b]));
    }
    lemma_zero_window_len(fh, fh.len() as int, fwd.len() as int, rh, k);
    assert(fh.contains(k));
    assert(rh.contains(p));
    assert(w.len() == 1) by {
        let a = choose|a: int| 0 <= a < fh.len() && fh[a] == k;
        let b = choose|b: int| 0 <= b < rh.len() && rh[b] == p;
        assert(fh[a] == k && rh[b] == k + fwd.len());
    }
    lemma_window_filter(seq, fwd, pp.reverse_primer@, 0, 0, k, p);
    assert(w.contains((p, p)));
    assert(w[0] == (p, p));
    assert(describes(r->Ok_0@[0], seq, fwd.len() as int, pp.reverse_primer@.len() as int, w[0]));
}

/// `a` is the result for the insert `w` of `seq`.
pub open spec fn describes(a: AmpliconResult, seq: Seq<u8>, fwd_len: int, rev_len: int, w: (int, int)) -> bool {
    &&& a.start == w.0
    &&& a.end == w.1
    &&& a.insert_length == w.1 - w.0
    &&& a.total_length == fwd_len + (w.1 - w.0) + rev_len
    &&& a.amplicon@ == seq.subrange(w.0, w.1)
}

/// `rs` are the results for the inserts `ws` of `seq`, one for one, in order.
pub open spec fn describes_all(
    rs: Seq<AmpliconResult>,
    seq: Seq<u8>,
    fwd_len: int,
    rev_len: int,
    ws: Seq<(int, int)>,
) -> bool {
    &&& rs.len() == ws.len()
    &&& forall|k: int| 0 <= k < rs.len() ==> #[trigger] describes(rs[k], seq, fwd_len, rev_len, ws[k])
}

/// What a search of `seq` with `pp` returns: the error that complementing the
/// reverse primer gives, or one result for each kept insert.
pub open spec fn search_outcome(
    seq: Seq<u8>,
    pp: PrimerPair,
    r: Result<Vec<AmpliconResult>, AmpliconError>,
) -> bool {
    &&& is_dna(pp.reverse_primer@) <==> r is Ok
    &&& r is Err ==> reports_unsupported_base(pp.reverse_primer@, r->Err_0)
    &&& r is Ok ==> describes_all(
        r->Ok_0@,
        seq,
        pp.forward_primer@.len() as int,
        pp.reverse_primer@.len() as int,
        amplicon_windows(
            seq,
            pp.forward_primer@,
            pp.reverse_primer@,
            pp.min_len as int,
            pp.max_len as int,
        ),
    )
}

/// Every insert of `seq` between an occurrence of the forward primer and a
/// later occurrence of the reverse primer's reverse complement whose length
/// lies in `[min_len, max_len]`, for every such pair of occurrences: forward
/// occurrence by forward occurrence, each in the order of the reverse ones.
pub fn amplicon_search<'a>(seq: &'a [u8], primer_pair: &PrimerPair) -> (r: Result<
    Vec<AmpliconResult<'a>>,
    AmpliconError,
>)
    ensures
        search_outcome(seq@, *primer_pair, r),
{
    let forward_primer = primer_pair.forward_primer.as_slice();
    let forward_len: usize = forward_primer.len();
    let reverse_len: usize = primer_pair.reverse_primer.len();
    let min_len: usize = primer_pair.min_len;
    let max_len: usize = primer_pair.max_len;
    let reverse_complement_primer = match reverse_complement(primer_pair.reverse_primer.as_slice()) {
        Ok(v) => v,
        Err(e) => {
            return Err(e);
        },
    };
    let forward_hits = find_all(seq, forward_primer);
    let reverse_hits = find_all(seq, reverse_complement_primer.as_slice());
    let ghost s = seq@;
    let ghost fh = occurrences(s, forward_primer@);
    let ghost rh = occurrences(s, reverse_complement_primer@);
    let ghost lo = min_len as int;
    let ghost hi = max_len as int;
    let seq_len: usize = seq.len();
    proof {
        lemma_occurrences_below_facts(s, forward_primer@, s.len() as int + 1);
        lemma_occurrences_below_facts(s, reverse_complement_primer@, s.len() as int + 1);
    }
    let mut amplicons: Vec<AmpliconResult<'a>> = Vec::new();
    let mut i: usize = 0;
    while i < forward_hits.len()
        invariant
            s == seq@,
            seq_len == s.len(),
            lo == min_len as int,
            hi == max_len as int,
            forward_len == forward_primer@.len(),
            reverse_len == reverse_complement_primer@.len(),
            forward_hits@.len() == fh.len(),
            forall|k: int| 0 <= k < fh.len() ==> #[trigger] forward_hits@[k] as int == fh[k],
            forall|k: int| 0 <= k < fh.len() ==> is_match_at(s, forward_primer@, #[trigger] fh[k]),
            reverse_hits@.len() == rh.len(),
            forall|k: int| 0 <= k < rh.len() ==> #[trigger] reverse_hits@[k] as int == rh[k],
            forall|k: int| 0 <= k < rh.len() ==> is_match_at(s, reverse_complement_primer@, #[trigger] rh[k]),
            i <= fh.len(),
            describes_all(amplicons@, s, forward_len as int, reverse_len as int, all_windows(fh, i as int, forward_len as int, rh, lo, hi)),
        decreases fh.len() - i,
    {
        let f: usize = forward_hits[i];
        assert(f as int == fh[i as int]);
        assert(is_match_at(s, forward_primer@, fh[i as int]));
        let start: usize = f + forward_len;
        let ghost before = all_windows(fh, i as int, forward_len as int, rh, lo, hi);
        let mut j: usize = 0;
        while j < reverse_hits.len()
            invariant
                s == seq@,
                seq_len == s.len(),
                lo == min_len as int,
                hi == max_len as int,
                forward_len == forward_primer@.len(),
                reverse_len == reverse_complement_primer@.len(),
                reverse_hits@.len() == rh.len(),
                forall|k: int| 0 <= k < rh.len() ==> #[trigger] reverse_hits@[k] as int == rh[k],
                forall|k: int| 0 <= k < rh.len() ==> is_match_at(s, reverse_complement_primer@, #[trigger] rh[k]),
                f + forward_len <= s.len(),
                start == f + forward_len,
                j <= rh.len(),
                describes_all(amplicons@, s, forward_len as int, reverse_len as int, before + row_windows(start as int, rh, j as int, lo, hi)),
            decreases rh.len() - j,
        {
            let r: usize = reverse_hits[j];
            assert(r as int == rh[j as int]);
            assert(is_match_at(s, reverse_complement_primer@, rh[j as int]));
            let ghost prev = before + row_windows(start as int, rh, j as int, lo, hi);
            if start <= r {
                let insert_length: usize = usize_sub(r, start);
                if min_len <= insert_length && insert_length <= max_len {
                    let amplicon = vstd::slice::slice_subrange(seq, start, r);
                    let result = AmpliconResult {
                        amplicon: amplicon,
                        start: start,
                        end: r,
                        insert_length: insert_length,
                        total_length: forward_len + insert_length + reverse_len,
                    };
                    amplicons.push(result);
                    assert(before + row_windows(start as int, rh, j + 1, lo, hi) =~= prev.push((start as int, r as int)));
                    assert(describes(amplicons@[prev.len() as int], s, forward_len as int, reverse_len as int, (start as int, r as int)));
                } else {
                    assert(before + row_windows(start as int, rh, j + 1, lo, hi) =~= prev);
                }
            } else {
                assert(before + row_windows(start as int, rh, j + 1, lo, hi) =~= prev);
            }
            j = j + 1;
        }
        assert(all_windows(fh, i + 1, forward_len as int, rh, lo, hi) =~= before + row_windows(start as int, rh, rh.len() as int, lo, hi));
        i = i + 1;
    }
    Ok(amplicons)
}

} // verus!

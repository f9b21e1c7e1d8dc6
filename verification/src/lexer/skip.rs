//! The ranges of the source that earlier passes have claimed.

use super::token::{Range, Token};
use super::LexingError;
use vstd::prelude::*;
use vstd::slice::slice_to_vec;

verus! {

/// The ranges that the passes run so far have claimed, in the order of the
/// source and apart from one another.
pub type SkipRange = Vec<Range>;

/// Whether two ranges share a byte.
pub open spec fn overlaps(a: Range, b: Range) -> bool {
    a[0] < b[1] && b[0] < a[1]
}

/// Whether `r` shares a byte with one of the ranges of `s`.
pub open spec fn intersects_skip(r: Range, s: Seq<Range>) -> bool {
    exists|i: int| 0 <= i < s.len() && overlaps(r, #[trigger] s[i])
}

/// Whether the byte at `p` lies in one of the ranges of `s`.
pub open spec fn covered(s: Seq<Range>, p: int) -> bool {
    exists|i: int| 0 <= i < s.len() && (#[trigger] s[i])[0] <= p < s[i][1]
}

/// The invariant of a set of claimed ranges: none is empty, and each ends
/// before the next begins.
pub open spec fn skip_wf(s: Seq<Range>) -> bool {
    &&& forall|i: int| 0 <= i < s.len() ==> (#[trigger] s[i])[0] < s[i][1]
    &&& forall|i: int, j: int| 0 <= i < j < s.len() ==> (#[trigger] s[i])[1] <= (#[trigger] s[j])[0]
}

/// The first place at or after `k` whose range begins behind the start of
/// `r`, or the length of `s` where there is none.
pub open spec fn insert_point(s: Seq<Range>, r: Range, k: int) -> int
    decreases s.len() - k,
{
    if 0 <= k < s.len() && s[k][0] <= r[0] {
        insert_point(s, r, k + 1)
    } else {
        k
    }
}

/// `s` with `r` claimed as well, put where its start places it; nothing
/// where `r` is empty or shares a byte with a range of `s`.
pub open spec fn claim_range(s: Seq<Range>, r: Range) -> Option<Seq<Range>> {
    if r[0] >= r[1] || intersects_skip(r, s) {
        None
    } else {
        Some(s.insert(insert_point(s, r, 0), r))
    }
}

/// `s` with the first `n` of the ranges `rs` claimed one after another;
/// nothing where one of them cannot be claimed.
pub open spec fn extend_skip(s: Seq<Range>, rs: Seq<Range>, n: nat) -> Option<Seq<Range>>
    decreases n,
{
    if n == 0 || n > rs.len() {
        Some(s)
    } else {
        match extend_skip(s, rs, (n - 1) as nat) {
            None => None,
            Some(t) => claim_range(t, rs[n - 1]),
        }
    }
}

/// The ranges of a list of tokens, in the order of the list.
pub open spec fn token_ranges(tokens: Seq<Token>) -> Seq<Range> {
    Seq::new(tokens.len(), |i: int| tokens[i].range)
}

/// Whether `r` shares a byte with a range that is already claimed.
pub fn range_intersects_skip(r: Range, s: &SkipRange) -> (b: bool)
    ensures
        b == intersects_skip(r, s@),
{
    let mut i: usize = 0;
    while i < s.len()
        invariant
            0 <= i <= s@.len(),
            forall|j: int| 0 <= j < i ==> !overlaps(r, #[trigger] s@[j]),
        decreases s@.len() - i,
    {
        let rng = s[i];
        if r[0] < rng[1] && rng[0] < r[1] {
            return true;
        }
        i += 1;
    }
    false
}

fn find_insert_point(s: &SkipRange, r: Range) -> (k: usize)
    ensures
        k == insert_point(s@, r, 0),
        k <= s@.len(),
{
    let mut k: usize = 0;
    while k < s.len() && s[k][0] <= r[0]
        invariant
            0 <= k <= s@.len(),
            insert_point(s@, r, 0) == insert_point(s@, r, k as int),
        decreases s@.len() - k,
    {
        k += 1;
    }
    k
}

/// Claims the range of each new token, in the order of the list.
///
/// A token whose range is empty, or shares a byte with a range claimed
/// before it, breaks the bookkeeping: the answer is `UnevenRanges`, and
/// `skip` is left as it was.
pub fn update_skip(new_tokens: &Vec<Token>, skip: &mut SkipRange) -> (r: Option<LexingError>)
    ensures
        match extend_skip(old(skip)@, token_ranges(new_tokens@), new_tokens@.len()) {
            Some(s) => r is None && final(skip)@ == s,
            None => r == Some(LexingError::UnevenRanges) && final(skip)@ == old(skip)@,
        },
        skip_wf(old(skip)@) ==> skip_wf(final(skip)@),
{
    let mut next: Vec<Range> = slice_to_vec(skip.as_slice());
    let mut i: usize = 0;
    while i < new_tokens.len()
        invariant
            0 <= i <= new_tokens@.len(),
            *skip == *old(skip),
            extend_skip(skip@, token_ranges(new_tokens@), i as nat) == Some(next@),
        decreases new_tokens@.len() - i,
    {
        let r = new_tokens[i].range;
        if r[0] >= r[1] || range_intersects_skip(r, &next) {
            proof {
                lemma_extend_fails_on(skip@, token_ranges(new_tokens@), (i + 1) as nat);
            }
            return Some(LexingError::UnevenRanges);
        }
        let k = find_insert_point(&next, r);
        next.insert(k, r);
        i += 1;
    }
    proof {
        if skip_wf(skip@) {
            lemma_extend_skip(skip@, token_ranges(new_tokens@), new_tokens@.len());
        }
    }
    *skip = next;
    None
}

/// Once a range cannot be claimed, no longer list of ranges can.
pub proof fn lemma_extend_fails_on(s: Seq<Range>, rs: Seq<Range>, n: nat)
    requires
        n <= rs.len(),
        extend_skip(s, rs, n) is None,
    ensures
        extend_skip(s, rs, rs.len()) is None,
    decreases rs.len() - n,
{
    if n < rs.len() {
        lemma_extend_fails_on(s, rs, n + 1);
    }
}

/// What `insert_point` passes over begins at or before the start of `r`,
/// and where it stops a range begins behind it.
pub proof fn lemma_insert_point(s: Seq<Range>, r: Range, k: int)
    requires
        0 <= k <= s.len(),
    ensures
        k <= insert_point(s, r, k) <= s.len(),
        forall|j: int| k <= j < insert_point(s, r, k) ==> (#[trigger] s[j])[0] <= r[0],
        insert_point(s, r, k) < s.len() ==> s[insert_point(s, r, k)][0] > r[0],
    decreases s.len() - k,
{
    if k < s.len() && s[k][0] <= r[0] {
        lemma_insert_point(s, r, k + 1);
    }
}

/// Claiming a range keeps the invariant, and adds that range and no other.
#[verifier::rlimit(50)]
pub proof fn lemma_claim_range(s: Seq<Range>, r: Range)
    requires
        skip_wf(s),
        claim_range(s, r) is Some,
    ensures
        skip_wf(claim_range(s, r)->0),
        forall|x: Range| #[trigger] claim_range(s, r)->0.contains(x) <==> s.contains(x) || x == r,
{
    let p = insert_point(s, r, 0);
    let s2 = s.insert(p, r);
    lemma_insert_point(s, r, 0);
    assert forall|j: int| 0 <= j < s.len() implies !overlaps(r, #[trigger] s[j]) by {}
    assert forall|j: int| 0 <= j < p implies (#[trigger] s[j])[1] <= r[0] by {
        assert(!overlaps(r, s[j]));
    }
    assert forall|j: int| p <= j < s.len() implies r[1] <= (#[trigger] s[j])[0] by {
        assert(!overlaps(r, s[j]));
        if j > p {
            assert(s[p][1] <= s[j][0]);
        }
    }
    assert forall|i: int| 0 <= i < s2.len() implies (#[trigger] s2[i])[0] < s2[i][1] by {
        if i < p {
            assert(s2[i] == s[i]);
        } else if i > p {
            assert(s2[i] == s[i - 1]);
        }
    }
    assert forall|i: int, j: int| 0 <= i < j < s2.len() implies (#[trigger] s2[i])[1] <= (
    #[trigger] s2[j])[0] by {
        if j < p {
            assert(s2[i] == s[i] && s2[j] == s[j]);
        } else if j == p {
            assert(s2[i] == s[i]);
        } else if i < p {
            assert(s2[i] == s[i] && s2[j] == s[j - 1]);
        } else if i == p {
            assert(s2[j] == s[j - 1]);
        } else {
            assert(s2[i] == s[i - 1] && s2[j] == s[j - 1]);
        }
    }
    assert forall|x: Range| #[trigger] s2.contains(x) <==> s.contains(x) || x == r by {
        if s2.contains(x) {
            let i = choose|i: int| 0 <= i < s2.len() && s2[i] == x;
            if i < p {
                assert(s[i] == x);
            } else if i > p {
                assert(s[i - 1] == x);
            }
        }
        if s.contains(x) {
            let i = choose|i: int| 0 <= i < s.len() && s[i] == x;
            if i < p {
                assert(s2[i] == x);
            } else {
                assert(s2[i + 1] == x);
            }
        }
        if x == r {
            assert(s2[p] == x);
        }
    }
}

/// Claiming ranges one after another keeps the invariant and adds those
/// ranges and no others; and it succeeds only where none of them is
/// empty, none shares a byte with what was claimed before, and no two of
/// them share a byte.
#[verifier::rlimit(50)]
pub proof fn lemma_extend_skip(s: Seq<Range>, rs: Seq<Range>, n: nat)
    requires
        skip_wf(s),
        n <= rs.len(),
        extend_skip(s, rs, n) is Some,
    ensures
        skip_wf(extend_skip(s, rs, n)->0),
        forall|x: Range| #[trigger]
            extend_skip(s, rs, n)->0.contains(x) <==> s.contains(x) || exists|k: int|
                0 <= k < n && #[trigger] rs[k] == x,
        forall|k: int| 0 <= k < n ==> (#[trigger] rs[k])[0] < rs[k][1],
        forall|k: int, i: int|
            0 <= k < n && 0 <= i < s.len() ==> !overlaps(#[trigger] rs[k], #[trigger] s[i]),
        forall|j: int, k: int| 0 <= j < k < n ==> !overlaps(#[trigger] rs[j], #[trigger] rs[k]),
    decreases n,
{
    if n > 0 {
        let before = extend_skip(s, rs, (n - 1) as nat)->0;
        let r = rs[n - 1];
        lemma_extend_skip(s, rs, (n - 1) as nat);
        lemma_claim_range(before, r);
        let after = claim_range(before, r)->0;
        assert forall|j: int| 0 <= j < before.len() implies !overlaps(r, #[trigger] before[j]) by {}
        assert forall|x: Range| #[trigger]
            after.contains(x) <==> s.contains(x) || exists|k: int|
                0 <= k < n && #[trigger] rs[k] == x by {
            if after.contains(x) {
                if before.contains(x) {
                    if !s.contains(x) {
                        let k = choose|k: int| 0 <= k < n - 1 && #[trigger] rs[k] == x;
                        assert(0 <= k < n && rs[k] == x);
                    }
                } else {
                    assert(rs[n - 1] == x);
                }
            }
            if exists|k: int| 0 <= k < n && #[trigger] rs[k] == x {
                let k = choose|k: int| 0 <= k < n && #[trigger] rs[k] == x;
                if k < n - 1 {
                    assert(before.contains(x));
                }
            }
        }
        assert forall|k: int, i: int| 0 <= k < n && 0 <= i < s.len() implies !overlaps(
            #[trigger] rs[k],
            #[trigger] s[i],
        ) by {
            if k == n - 1 {
                assert(s.contains(s[i]));
                assert(before.contains(s[i]));
                let j = choose|j: int| 0 <= j < before.len() && before[j] == s[i];
                assert(!overlaps(r, before[j]));
            }
        }
        assert forall|j: int, k: int| 0 <= j < k < n implies !overlaps(
            #[trigger] rs[j],
            #[trigger] rs[k],
        ) by {
            if k == n - 1 {
                assert(before.contains(rs[j]));
                let i = choose|i: int| 0 <= i < before.len() && before[i] == rs[j];
                assert(!overlaps(r, before[i]));
            }
        }
    }
}

} // verus!

//! The keyframes before and after a timestamp (binary search over the
//! keyframe list) and what they are on an ascending list.
use vstd::prelude::*;
use crate::floatbits::{f64_eq, f64_le, f64_lt, is_nan, order_sign, strictly_increasing, bits_lt};

verus! {

/// The last element of `s` below `t`.
pub open spec fn last_below(s: Seq<u64>, t: u64) -> Option<u64>
    decreases s.len(),
{
    if s.len() == 0 {
        None
    } else if f64_lt(s.last(), t) {
        Some(s.last())
    } else {
        last_below(s.drop_last(), t)
    }
}

/// The first element of `s` above `t`.
pub open spec fn first_above(s: Seq<u64>, t: u64) -> Option<u64>
    decreases s.len(),
{
    if s.len() == 0 {
        None
    } else if f64_lt(t, s[0]) {
        Some(s[0])
    } else {
        first_above(s.drop_first(), t)
    }
}

} // verus!

verus! {

/// Keyframes in ascending order, repeats allowed, none of them NaN.
pub open spec fn non_decreasing(s: Seq<u64>) -> bool {
    &&& forall|i: int| 0 <= i < s.len() ==> !is_nan(#[trigger] s[i])
    &&& forall|i: int, j: int| 0 <= i < j < s.len() ==> f64_le(s[i], s[j])
}

/// `t` occurs at most once in `s`.
pub open spec fn at_most_once(s: Seq<u64>, t: u64) -> bool {
    forall|i: int, j: int| 0 <= i < j < s.len() ==> !(f64_eq(s[i], t) && f64_eq(s[j], t))
}

/// What the keyframe search before `t` may give on ascending keyframes:
/// the last keyframe below `t`; or, only when `t` occurs more than once,
/// a keyframe equal to `t` (the search may land on any of its copies).
pub open spec fn prev_admissible(s: Seq<u64>, t: u64, r: Option<u64>) -> bool {
    r == last_below(s, t) || (r matches Some(k) && f64_eq(k, t) && !at_most_once(s, t))
}

/// What the keyframe search after `t` may give on ascending keyframes: the
/// first keyframe above `t`; or, only when `t` occurs more than once, a
/// keyframe equal to `t`.
pub open spec fn next_admissible(s: Seq<u64>, t: u64, r: Option<u64>) -> bool {
    r == first_above(s, t) || (r matches Some(k) && f64_eq(k, t) && !at_most_once(s, t))
}

proof fn lemma_sorted_toward_nd(s: Seq<u64>, t: u64)
    requires
        non_decreasing(s),
        !is_nan(t),
    ensures
        crate::bisect::sorted_toward(s, t),
{
    assert forall|i: int, j: int| 0 <= i < j < s.len() implies order_sign(s[i], t) <= order_sign(s[j], t) by {
        assert(f64_le(s[i], s[j]));
        assert(!is_nan(s[i]) && !is_nan(s[j]));
    }
}

/// The comparison sign of element `i` of `s` against `t`.
pub open spec fn sign_at(s: Seq<u64>, i: usize, t: u64) -> int {
    order_sign(s[i as int], t)
}

proof fn lemma_last_below_split(s: Seq<u64>, t: u64, n: int)
    requires
        0 <= n <= s.len(),
        forall|j: int| 0 <= j < n ==> f64_lt(#[trigger] s[j], t),
        forall|j: int| n <= j < s.len() ==> !f64_lt(#[trigger] s[j], t),
    ensures
        last_below(s, t) == if n == 0 { None } else { Some(s[n - 1]) },
    decreases s.len(),
{
    if s.len() > 0 {
        if n < s.len() {
            assert(!f64_lt(s.last(), t));
            lemma_last_below_split(s.drop_last(), t, n);
            if n > 0 {
                assert(s.drop_last()[n - 1] == s[n - 1]);
            }
        }
    }
}

proof fn lemma_first_above_split(s: Seq<u64>, t: u64, n: int)
    requires
        0 <= n <= s.len(),
        forall|j: int| 0 <= j < n ==> !f64_lt(t, #[trigger] s[j]),
        forall|j: int| n <= j < s.len() ==> f64_lt(t, #[trigger] s[j]),
    ensures
        first_above(s, t) == if n == s.len() { None } else { Some(s[n]) },
    decreases s.len(),
{
    if s.len() > 0 {
        if n > 0 {
            assert(!f64_lt(t, s[0]));
            assert forall|j: int| 0 <= j < n - 1 implies !f64_lt(t, #[trigger] s.drop_first()[j]) by {
                assert(s.drop_first()[j] == s[j + 1]);
            }
            assert forall|j: int| n - 1 <= j < s.drop_first().len() implies f64_lt(t, #[trigger] s.drop_first()[j]) by {
                assert(s.drop_first()[j] == s[j + 1]);
            }
            lemma_first_above_split(s.drop_first(), t, n - 1);
        } else {
            assert(f64_lt(t, s[0]));
        }
    }
}

proof fn lemma_sorted_toward(s: Seq<u64>, t: u64)
    requires
        strictly_increasing(s),
        !is_nan(t),
    ensures
        crate::bisect::sorted_toward(s, t),
{
    assert forall|i: int, j: int| 0 <= i < j < s.len() implies order_sign(s[i], t) <= order_sign(s[j], t) by {
        assert(f64_lt(s[i], s[j]));
    }
}

/// The element before the search's index is an admissible keyframe before
/// `t`, whatever the search returned within its documented contract.
proof fn lemma_prev_admissible(s: Seq<u64>, t: u64, res: Result<usize, usize>, r: Option<u64>)
    requires
        non_decreasing(s),
        !is_nan(t),
        crate::bisect::sorted_toward(s, t) ==> match res {
            Ok(i) => i < s.len() && sign_at(s, i, t) == 0,
            Err(i) => i <= s.len() && (forall|j: int| 0 <= j < i ==> order_sign(s[j], t) == -1) && (forall|j: int|
                i <= j < s.len() ==> order_sign(s[j], t) == 1),
        },
        r == ({
            let idx = match res { Ok(i) => i, Err(i) => i };
            if idx >= 1 && idx - 1 < s.len() { Some(s[idx - 1]) } else { None::<u64> }
        }),
    ensures
        prev_admissible(s, t, r),
{
    lemma_sorted_toward_nd(s, t);
    match res {
        Err(i) => {
            assert forall|j: int| 0 <= j < i implies f64_lt(#[trigger] s[j], t) by {
                assert(order_sign(s[j], t) == -1);
            }
            assert forall|j: int| i <= j < s.len() implies !f64_lt(#[trigger] s[j], t) by {
                assert(order_sign(s[j], t) == 1);
            }
            lemma_last_below_split(s, t, i as int);
        },
        Ok(i) => {
            assert(order_sign(s[i as int], t) == 0);
            assert(f64_eq(s[i as int], t));
            assert forall|j: int| i <= j < s.len() implies !f64_lt(#[trigger] s[j], t) by {
                if j > i {
                    assert(order_sign(s[i as int], t) <= order_sign(s[j], t));
                }
            }
            if i == 0 {
                lemma_last_below_split(s, t, 0);
            } else if order_sign(s[i - 1], t) == -1 {
                assert forall|j: int| 0 <= j < i implies f64_lt(#[trigger] s[j], t) by {
                    if j < i - 1 {
                        assert(order_sign(s[j], t) <= order_sign(s[i - 1], t));
                    }
                }
                lemma_last_below_split(s, t, i as int);
            } else {
                assert(order_sign(s[i - 1], t) <= order_sign(s[i as int], t));
                assert(f64_eq(s[i - 1], t));
                assert(!at_most_once(s, t));
            }
        },
    }
}

/// The element at the search's index (after it, for a hit) is an admissible
/// keyframe after `t`, whatever the search returned within its documented
/// contract.
proof fn lemma_next_admissible(s: Seq<u64>, t: u64, res: Result<usize, usize>, r: Option<u64>)
    requires
        s.len() <= usize::MAX,
        non_decreasing(s),
        !is_nan(t),
        crate::bisect::sorted_toward(s, t) ==> match res {
            Ok(i) => i < s.len() && sign_at(s, i, t) == 0,
            Err(i) => i <= s.len() && (forall|j: int| 0 <= j < i ==> order_sign(s[j], t) == -1) && (forall|j: int|
                i <= j < s.len() ==> order_sign(s[j], t) == 1),
        },
        r == ({
            let idx = match res { Ok(i) => if i < usize::MAX { (i + 1) as usize } else { i }, Err(i) => i };
            if idx < s.len() { Some(s[idx as int]) } else { None::<u64> }
        }),
    ensures
        next_admissible(s, t, r),
{
    lemma_sorted_toward_nd(s, t);
    match res {
        Err(i) => {
            assert forall|j: int| 0 <= j < i implies !f64_lt(t, #[trigger] s[j]) by {
                assert(order_sign(s[j], t) == -1);
            }
            assert forall|j: int| i <= j < s.len() implies f64_lt(t, #[trigger] s[j]) by {
                assert(order_sign(s[j], t) == 1);
            }
            lemma_first_above_split(s, t, i as int);
        },
        Ok(i) => {
            assert(order_sign(s[i as int], t) == 0);
            assert(f64_eq(s[i as int], t));
            assert forall|j: int| 0 <= j <= i implies !f64_lt(t, #[trigger] s[j]) by {
                if j < i {
                    assert(order_sign(s[j], t) <= order_sign(s[i as int], t));
                }
            }
            if i + 1 == s.len() {
                lemma_first_above_split(s, t, s.len() as int);
            } else if order_sign(s[i + 1], t) == 1 {
                assert forall|j: int| i + 1 <= j < s.len() implies f64_lt(t, #[trigger] s[j]) by {
                    if j > i + 1 {
                        assert(order_sign(s[i + 1], t) <= order_sign(s[j], t));
                    }
                }
                lemma_first_above_split(s, t, i + 1);
            } else {
                assert(order_sign(s[i as int], t) <= order_sign(s[i + 1], t));
                assert(f64_eq(s[i + 1], t));
                assert(!at_most_once(s, t));
            }
        },
    }
}

/// The keyframe before `timestamp`: with `Ok(i)` from the search (a keyframe
/// equal to `timestamp`) or `Err(i)` (insertion point), the element at `i - 1`.
/// On strictly increasing keyframes and a timestamp that is not NaN this is
/// the last keyframe below `timestamp`.
pub fn find_prev_keyframe(timestamp: u64, keyframes: &[u64]) -> (r: Option<u64>)
    ensures
        r matches Some(k) ==> keyframes@.contains(k),
        strictly_increasing(keyframes@) && !is_nan(timestamp) ==> r == last_below(keyframes@, timestamp),
        non_decreasing(keyframes@) && !is_nan(timestamp) ==> prev_admissible(keyframes@, timestamp, r),
{
    let res: Result<usize, usize> = crate::bisect::binary_search_toward(keyframes, timestamp);
    let idx: usize = match res {
        Ok(i) => i,
        Err(i) => i,
    };
    let r: Option<u64> = if idx >= 1 && idx - 1 < keyframes.len() {
        Some(keyframes[idx - 1])
    } else {
        None
    };
    proof {
        if strictly_increasing(keyframes@) && !is_nan(timestamp) {
            lemma_sorted_toward(keyframes@, timestamp);
            let s = keyframes@;
            assert forall|j: int| 0 <= j < idx implies f64_lt(#[trigger] s[j], timestamp) by {
                assert(order_sign(s[j], timestamp) == -1 || f64_lt(s[j], s[idx as int]));
            }
            assert forall|j: int| idx <= j < s.len() implies !f64_lt(#[trigger] s[j], timestamp) by {
                assert(order_sign(s[j], timestamp) >= 0 || f64_lt(s[idx as int], s[j]));
            }
            lemma_last_below_split(s, timestamp, idx as int);
        }
        if non_decreasing(keyframes@) && !is_nan(timestamp) {
            lemma_prev_admissible(keyframes@, timestamp, res, r);
        }
        if let Some(k) = r {
            assert(keyframes@[idx - 1] == k);
        }
    }
    r
}

/// The keyframe after `timestamp`: with `Ok(i)` from the search the element
/// at `i + 1`, with `Err(i)` the element at `i`. On strictly increasing
/// keyframes and a timestamp that is not NaN this is the first keyframe above
/// `timestamp`.
pub fn find_next_keyframe(timestamp: u64, keyframes: &[u64]) -> (r: Option<u64>)
    ensures
        r matches Some(k) ==> keyframes@.contains(k),
        strictly_increasing(keyframes@) && !is_nan(timestamp) ==> r == first_above(keyframes@, timestamp),
        non_decreasing(keyframes@) && !is_nan(timestamp) ==> next_admissible(keyframes@, timestamp, r),
{
    let res: Result<usize, usize> = crate::bisect::binary_search_toward(keyframes, timestamp);
    let idx: usize = match res {
        Ok(i) => if i < usize::MAX { i + 1 } else { i },
        Err(i) => i,
    };
    let r: Option<u64> = if idx < keyframes.len() {
        Some(keyframes[idx])
    } else {
        None
    };
    proof {
        if strictly_increasing(keyframes@) && !is_nan(timestamp) {
            lemma_sorted_toward(keyframes@, timestamp);
            let s = keyframes@;
            assert forall|j: int| 0 <= j < idx implies !f64_lt(timestamp, #[trigger] s[j]) by {
                assert(order_sign(s[j], timestamp) <= 0 || j == idx - 1 || f64_lt(s[j], s[idx - 1]));
            }
            assert forall|j: int| idx <= j < s.len() implies f64_lt(timestamp, #[trigger] s[j]) by {
                assert(order_sign(s[j], timestamp) == 1 || f64_lt(s[idx - 1], s[j]));
            }
            lemma_first_above_split(s, timestamp, idx as int);
        }
        if non_decreasing(keyframes@) && !is_nan(timestamp) {
            lemma_next_admissible(keyframes@, timestamp, res, r);
        }
        if let Some(k) = r {
            assert(keyframes@[idx as int] == k);
        }
    }
    r
}

/// On strictly increasing keyframes, the keyframe before a timestamp is the
/// nearest one below it: a keyframe of the list, below the timestamp, and no
/// keyframe lies between the two; none exists when no keyframe is below.
pub proof fn lemma_prev_keyframe_is_nearest(s: Seq<u64>, t: u64)
    requires
        strictly_increasing(s),
    ensures
        match last_below(s, t) {
            Some(k) => s.contains(k) && f64_lt(k, t) && forall|j: int| 0 <= j < s.len() && f64_lt(#[trigger] s[j], t) ==> !f64_lt(k, s[j]),
            None => forall|j: int| 0 <= j < s.len() ==> !f64_lt(#[trigger] s[j], t),
        },
    decreases s.len(),
{
    if s.len() > 0 {
        let init = s.drop_last();
        assert(strictly_increasing(init)) by {
            assert forall|i: int, j: int| 0 <= i < j < init.len() implies f64_lt(init[i], init[j]) by {
                assert(init[i] == s[i] && init[j] == s[j]);
            }
        }
        lemma_prev_keyframe_is_nearest(init, t);
        if f64_lt(s.last(), t) {
            assert(s[s.len() - 1] == s.last());
            assert forall|j: int| 0 <= j < s.len() && f64_lt(#[trigger] s[j], t) implies !f64_lt(s.last(), s[j]) by {
                if j < s.len() - 1 {
                    assert(f64_lt(s[j], s[s.len() - 1]));
                }
            }
        } else {
            match last_below(init, t) {
                Some(k) => {
                    let i = choose|i: int| 0 <= i < init.len() && init[i] == k;
                    assert(s[i] == k);
                    assert forall|j: int| 0 <= j < s.len() && f64_lt(#[trigger] s[j], t) implies !f64_lt(k, s[j]) by {
                        if j < s.len() - 1 {
                            assert(init[j] == s[j]);
                        }
                    }
                },
                None => {
                    assert forall|j: int| 0 <= j < s.len() implies !f64_lt(#[trigger] s[j], t) by {
                        if j < s.len() - 1 {
                            assert(init[j] == s[j]);
                        }
                    }
                },
            }
        }
    }
}

/// On strictly increasing keyframes, the keyframe after a timestamp is the
/// nearest one above it: a keyframe of the list, above the timestamp, and
/// no keyframe lies between the two; none exists when no keyframe is above.
pub proof fn lemma_next_keyframe_is_nearest(s: Seq<u64>, t: u64)
    requires
        strictly_increasing(s),
    ensures
        match first_above(s, t) {
            Some(k) => s.contains(k) && f64_lt(t, k) && forall|j: int| 0 <= j < s.len() && f64_lt(t, #[trigger] s[j]) ==> !f64_lt(s[j], k),
            None => forall|j: int| 0 <= j < s.len() ==> !f64_lt(t, #[trigger] s[j]),
        },
    decreases s.len(),
{
    if s.len() > 0 {
        let rest = s.drop_first();
        assert(strictly_increasing(rest)) by {
            assert forall|i: int, j: int| 0 <= i < j < rest.len() implies f64_lt(rest[i], rest[j]) by {
                assert(rest[i] == s[i + 1] && rest[j] == s[j + 1]);
            }
        }
        lemma_next_keyframe_is_nearest(rest, t);
        if f64_lt(t, s[0]) {
            assert forall|j: int| 0 <= j < s.len() && f64_lt(t, #[trigger] s[j]) implies !f64_lt(s[j], s[0]) by {
                if j > 0 {
                    assert(f64_lt(s[0], s[j]));
                }
            }
        } else {
            match first_above(rest, t) {
                Some(k) => {
                    let i = choose|i: int| 0 <= i < rest.len() && rest[i] == k;
                    assert(s[i + 1] == k);
                    assert forall|j: int| 0 <= j < s.len() && f64_lt(t, #[trigger] s[j]) implies !f64_lt(s[j], k) by {
                        if j > 0 {
                            assert(rest[j - 1] == s[j]);
                        }
                    }
                },
                None => {
                    assert forall|j: int| 0 <= j < s.len() implies !f64_lt(t, #[trigger] s[j]) by {
                        if j > 0 {
                            assert(rest[j - 1] == s[j]);
                        }
                    }
                },
            }
        }
    }
}

} // verus!

use vstd::prelude::*;

verus! {

/// Sum of the first `n` elements of `s`, as an unbounded integer.
pub open spec fn sum_prefix(s: Seq<u32>, n: int) -> int
    decreases n,
{
    if n <= 0 {
        0
    } else {
        sum_prefix(s, n - 1) + s[n - 1]
    }
}

/// Sum of all elements of `s`.
pub open spec fn sum_u32(s: Seq<u32>) -> int {
    sum_prefix(s, s.len() as int)
}

/// A longer prefix never sums to less: every element is nonnegative.
pub proof fn lemma_sum_prefix_monotonic(s: Seq<u32>, i: int, j: int)
    requires
        0 <= i <= j <= s.len(),
    ensures
        sum_prefix(s, i) <= sum_prefix(s, j),
    decreases j - i,
{
    if i < j {
        lemma_sum_prefix_monotonic(s, i, j - 1);
    }
}

/// Checked sum of a nonempty slice.
///
/// Returns the sum of all elements when the slice is nonempty and the sum
/// fits in a `u32`; returns `None` for an empty slice or when the sum
/// overflows.
pub fn sum_u32_set(t: &[u32]) -> (r: Option<u32>)
    ensures
        match r {
            Some(sum) => t@.len() > 0 && sum == sum_u32(t@) && sum_u32(t@) <= u32::MAX,
            None => t@.len() == 0 || sum_u32(t@) > u32::MAX,
        },
{
    if t.len() > 0 {
        let mut sum: u32 = 0;
        let mut i: usize = 0;
        while i < t.len()
            invariant
                0 <= i as int <= t@.len(),
                sum == sum_prefix(t@, i as int),
            decreases t@.len() - i as int,
        {
            let x = *vstd::slice::slice_index_get(t, i);
            match sum.checked_add(x) {
                Some(s) => {
                    sum = s;
                },
                None => {
                    proof {
                        lemma_sum_prefix_monotonic(t@, i as int + 1, t@.len() as int);
                    }
                    return None;
                },
            }
            i = i + 1;
        }
        Some(sum)
    } else {
        None
    }
}

} // verus!

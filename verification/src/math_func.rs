//! Discrete numerical kernels shared by the solvers.
//!
//! A coefficient vector enters this module as a sequence of flags: entry
//! `i` is `true` when the caller found `|x_i|` above its numerical
//! tolerance.  Everything downstream of that comparison — which indices
//! form the support, how two supports relate, how a sub-solution on a
//! support scatters back into a full-length vector — is exact index
//! arithmetic and is specified and verified here.

use vstd::prelude::*;

use crate::errors::SolverError;

verus! {

/// The set of indices of `s` whose flag is raised: the support of the
/// vector that `s` was read from.
pub open spec fn support_set(s: Seq<bool>) -> Set<int> {
    Set::new(|i: int| 0 <= i < s.len() && s[i])
}

/// Extending a prefix by one entry adds its index to the prefix's
/// support exactly when the entry's flag is raised.
proof fn lemma_support_set_take_step(s: Seq<bool>, i: int)
    requires
        0 <= i < s.len(),
    ensures
        s[i] ==> support_set(s.take(i + 1)) == support_set(s.take(i)).insert(i),
        !s[i] ==> support_set(s.take(i + 1)) == support_set(s.take(i)),
{
    if s[i] {
        assert(support_set(s.take(i + 1)) =~= support_set(s.take(i)).insert(i));
    } else {
        assert(support_set(s.take(i + 1)) =~= support_set(s.take(i)));
    }
}

/// Accept `(A, y)` only when the system is underdetermined: the matrix
/// has as many rows as `y` has entries, and no more rows than columns.
/// Every solver runs this check before iterating.
pub fn is_underestimated_sys(rows: usize, cols: usize, y_len: usize) -> (r: Result<
    (),
    SolverError,
>)
    ensures
        r is Ok <==> (rows == y_len && rows <= cols),
        r is Err ==> r == Result::<(), SolverError>::Err(
            SolverError::NotUnderdetermined { rows, cols, y_len },
        ),
{
    if rows != y_len || rows > cols {
        Err(SolverError::NotUnderdetermined { rows, cols, y_len })
    } else {
        Ok(())
    }
}

/// Collect the support of a flag vector as a strictly increasing list
/// of indices: exactly those `i` with `flags[i]` raised.
pub fn support(flags: &Vec<bool>) -> (r: Vec<usize>)
    ensures
        forall|k: int| 0 <= k < r@.len() ==> #[trigger] r@[k] < flags@.len() && flags@[r@[k] as int],
        forall|k1: int, k2: int| 0 <= k1 < k2 < r@.len() ==> r@[k1] < r@[k2],
        forall|i: int| 0 <= i < flags@.len() ==> (flags@[i] <==> r@.contains(i as usize)),
{
    let mut r: Vec<usize> = Vec::new();
    let mut i: usize = 0;
    while i < flags.len()
        invariant
            i <= flags@.len(),
            forall|k: int| 0 <= k < r@.len() ==> #[trigger] r@[k] < i && flags@[r@[k] as int],
            forall|k1: int, k2: int| 0 <= k1 < k2 < r@.len() ==> r@[k1] < r@[k2],
            forall|j: int| 0 <= j < i ==> (flags@[j] <==> r@.contains(j as usize)),
        decreases flags@.len() - i,
    {
        let ghost prev = r@;
        if flags[i] {
            r.push(i);
        }
        proof {
            assert forall|j: int| 0 <= j <= i as int implies (flags@[j] <==> r@.contains(
                j as usize,
            )) by {
                if flags@[i as int] {
                    vstd::seq_lib::lemma_seq_contains_after_push(prev, i, j as usize);
                }
            }
        }
        i = i + 1;
    }
    r
}

/// Compare the supports of two flag vectors of equal length.
///
/// Returns the pair `(intersection, larger)`: how many indices the two
/// supports share, and the size of the larger support.  The support
/// distance of the two vectors is `1 - intersection / larger`, taken as
/// `0` when both supports are empty; the caller forms that quotient.
/// Vectors of different lengths are rejected.
pub fn support_distance(flags1: &Vec<bool>, flags2: &Vec<bool>) -> (r: Result<
    (usize, usize),
    SolverError,
>)
    ensures
        r is Ok <==> flags1@.len() == flags2@.len(),
        r is Err ==> r == Result::<(usize, usize), SolverError>::Err(
            SolverError::SizeMismatch {
                left_len: flags1.len(),
                right_len: flags2.len(),
            },
        ),
        r matches Ok(c) ==> c.0 == support_set(flags1@).intersect(support_set(flags2@)).len(),
        r matches Ok(c) ==> c.1 == if support_set(flags1@).len() >= support_set(flags2@).len() {
            support_set(flags1@).len()
        } else {
            support_set(flags2@).len()
        },
        r matches Ok(c) ==> c.0 <= c.1 <= flags1@.len(),
{
    if flags1.len() != flags2.len() {
        return Err(SolverError::SizeMismatch { left_len: flags1.len(), right_len: flags2.len() });
    }
    let n = flags1.len();
    let mut count1: usize = 0;
    let mut count2: usize = 0;
    let mut inter: usize = 0;
    let mut i: usize = 0;
    proof {
        assert(support_set(flags1@.take(0)) =~= Set::<int>::empty());
        assert(support_set(flags2@.take(0)) =~= Set::<int>::empty());
        assert(support_set(flags1@.take(0)).intersect(support_set(flags2@.take(0)))
            =~= Set::<int>::empty());
    }
    while i < n
        invariant
            i <= n,
            n == flags1@.len() == flags2@.len(),
            count1 == support_set(flags1@.take(i as int)).len(),
            count2 == support_set(flags2@.take(i as int)).len(),
            inter == support_set(flags1@.take(i as int)).intersect(
                support_set(flags2@.take(i as int)),
            ).len(),
            support_set(flags1@.take(i as int)).finite(),
            support_set(flags2@.take(i as int)).finite(),
            support_set(flags1@.take(i as int)).intersect(
                support_set(flags2@.take(i as int)),
            ).finite(),
            count1 <= i,
            count2 <= i,
            inter <= count1,
            inter <= count2,
        decreases n - i,
    {
        proof {
            lemma_support_set_take_step(flags1@, i as int);
            lemma_support_set_take_step(flags2@, i as int);
            let s1 = support_set(flags1@.take(i as int));
            let s2 = support_set(flags2@.take(i as int));
            let s1n = support_set(flags1@.take(i + 1 as int));
            let s2n = support_set(flags2@.take(i + 1 as int));
            assert(!s1.contains(i as int));
            assert(!s2.contains(i as int));
            if flags1@[i as int] && flags2@[i as int] {
                assert(s1n.intersect(s2n) =~= s1.intersect(s2).insert(i as int));
            } else {
                assert(s1n.intersect(s2n) =~= s1.intersect(s2));
            }
        }
        if flags1[i] {
            count1 = count1 + 1;
        }
        if flags2[i] {
            count2 = count2 + 1;
        }
        if flags1[i] && flags2[i] {
            inter = inter + 1;
        }
        i = i + 1;
    }
    proof {
        assert(flags1@.take(n as int) =~= flags1@);
        assert(flags2@.take(n as int) =~= flags2@);
    }
    let larger = if count1 >= count2 {
        count1
    } else {
        count2
    };
    Ok((inter, larger))
}

/// Assemble a matrix from its columns: `size` rows, one column per
/// entry of `columns`, in order.  The result is stored row by row, so
/// entry `(i, j)` of the result is entry `i` of column `j`.
pub fn columns_to_2darray<T: Copy>(size: usize, columns: &Vec<Vec<T>>) -> (r: Vec<Vec<T>>)
    requires
        forall|j: int| 0 <= j < columns@.len() ==> (#[trigger] columns@[j])@.len() == size,
    ensures
        r@.len() == size,
        forall|i: int| 0 <= i < size ==> (#[trigger] r@[i])@.len() == columns@.len(),
        forall|i: int, j: int|
            #![trigger r@[i]@[j]]
            0 <= i < size && 0 <= j < columns@.len() ==> r@[i]@[j] == columns@[j]@[i],
{
    let mut r: Vec<Vec<T>> = Vec::new();
    let mut i: usize = 0;
    while i < size
        invariant
            i <= size,
            r@.len() == i,
            forall|j: int| 0 <= j < columns@.len() ==> (#[trigger] columns@[j])@.len() == size,
            forall|i2: int| 0 <= i2 < i ==> (#[trigger] r@[i2])@.len() == columns@.len(),
            forall|i2: int, j: int|
                #![trigger r@[i2]@[j]]
                0 <= i2 < i && 0 <= j < columns@.len() ==> r@[i2]@[j] == columns@[j]@[i2],
        decreases size - i,
    {
        let mut row: Vec<T> = Vec::new();
        let mut j: usize = 0;
        while j < columns.len()
            invariant
                j <= columns@.len(),
                row@.len() == j,
                i < size,
                forall|j2: int| 0 <= j2 < columns@.len() ==> (#[trigger] columns@[j2])@.len()
                    == size,
                forall|j2: int| 0 <= j2 < j ==> #[trigger] row@[j2] == columns@[j2]@[i as int],
            decreases columns@.len() - j,
        {
            row.push(columns[j][i]);
            j = j + 1;
        }
        r.push(row);
        i = i + 1;
    }
    r
}

/// Scatter a sub-solution computed on a support back into a full-length
/// vector: entry `support[k]` of the result is `sub[k]`, and every index
/// outside the support holds `zero`.  This is the final step of a
/// least-squares solve restricted to a support, and the reason every
/// such solve returns a vector of the full column count.
pub fn scatter_with_support<T: Copy>(sub: &Vec<T>, support: &Vec<usize>, len: usize, zero: T) -> (r:
    Vec<T>)
    requires
        sub@.len() == support@.len(),
        forall|k: int| 0 <= k < support@.len() ==> #[trigger] support@[k] < len,
        forall|k1: int, k2: int| 0 <= k1 < k2 < support@.len() ==> support@[k1] != support@[k2],
    ensures
        r@.len() == len,
        forall|k: int| 0 <= k < support@.len() ==> r@[#[trigger] support@[k] as int] == sub@[k],
        forall|i: int|
            0 <= i < len && !support@.contains(i as usize) ==> #[trigger] r@[i] == zero,
{
    let mut r: Vec<T> = Vec::new();
    let mut i: usize = 0;
    while i < len
        invariant
            i <= len,
            r@.len() == i,
            forall|j: int| 0 <= j < i ==> #[trigger] r@[j] == zero,
        decreases len - i,
    {
        r.push(zero);
        i = i + 1;
    }
    let mut k: usize = 0;
    while k < support.len()
        invariant
            k <= support@.len(),
            r@.len() == len,
            sub@.len() == support@.len(),
            forall|k2: int| 0 <= k2 < support@.len() ==> #[trigger] support@[k2] < len,
            forall|k1: int, k2: int| 0 <= k1 < k2 < support@.len() ==> support@[k1] != support@[k2],
            forall|k2: int| 0 <= k2 < k ==> r@[#[trigger] support@[k2] as int] == sub@[k2],
            forall|i2: int|
                0 <= i2 < len && !support@.take(k as int).contains(i2 as usize)
                    ==> #[trigger] r@[i2] == zero,
        decreases support@.len() - k,
    {
        let ghost prev_taken = support@.take(k as int);
        let idx = support[k];
        r.set(idx, sub[k]);
        k = k + 1;
        proof {
            assert(support@.take(k as int) =~= prev_taken.push(idx));
            assert forall|i2: int|
                0 <= i2 < len && !support@.take(k as int).contains(i2 as usize) implies r@[i2]
                == zero by {
                vstd::seq_lib::lemma_seq_contains_after_push(prev_taken, idx, i2 as usize);
            }
        }
    }
    proof {
        assert(support@.take(support@.len() as int) =~= support@);
    }
    r
}

} // verus!

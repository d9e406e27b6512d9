//! Construction of special matrices.
//!
//! The discrete Fourier transform matrix of order `n` has entry
//! `(i, j)` equal to `exp(-2*pi*sqrt(-1)*i*j/n)`.  Because that entry
//! only depends on `i*j` modulo `n`, the matrix is fully described by
//! the table of exponents `(i*j) % n`, which is exact integer data and
//! is built and proved here.  Turning an exponent `e` into the complex
//! value `cos(-2*pi*e/n) + sqrt(-1)*sin(-2*pi*e/n)` is the caller's
//! one remaining step.

use vstd::prelude::*;
use vstd::arithmetic::div_mod::lemma_add_mod_noop;
use vstd::arithmetic::div_mod::lemma_mod_multiples_vanish;
use vstd::arithmetic::div_mod::lemma_small_mod;
use vstd::arithmetic::mul::lemma_mul_is_distributive_add;

verus! {

/// Build the exponent table of the discrete Fourier transform matrix
/// of order `n`: entry `(i, j)` is `(i * j) % n`.
///
/// The table is computed by running sums, so no intermediate product
/// is ever formed and no size bound on `n` is needed.
pub fn mk_dft_mat(n: usize) -> (r: Vec<Vec<usize>>)
    ensures
        r@.len() == n,
        forall|i: int| 0 <= i < n ==> (#[trigger] r@[i])@.len() == n,
        forall|i: int, j: int|
            #![trigger r@[i]@[j]]
            0 <= i < n && 0 <= j < n ==> r@[i]@[j] == (i * j) % (n as int),
{
    let mut r: Vec<Vec<usize>> = Vec::new();
    let mut i: usize = 0;
    while i < n
        invariant
            i <= n,
            r@.len() == i,
            forall|i2: int| 0 <= i2 < i ==> (#[trigger] r@[i2])@.len() == n,
            forall|i2: int, j: int|
                #![trigger r@[i2]@[j]]
                0 <= i2 < i && 0 <= j < n ==> r@[i2]@[j] == (i2 * j) % (n as int),
        decreases n - i,
    {
        let i_mod = i % n;
        let mut row: Vec<usize> = Vec::new();
        let mut e: usize = 0;
        let mut j: usize = 0;
        proof {
            lemma_small_mod(0, n as nat);
        }
        while j < n
            invariant
                j <= n,
                n > 0,
                row@.len() == j,
                i_mod == (i as int) % (n as int),
                i_mod < n,
                e == ((i as int) * (j as int)) % (n as int),
                e < n,
                forall|j2: int| 0 <= j2 < j ==> #[trigger] row@[j2] == (i as int) * j2 % (n as int),
            decreases n - j,
        {
            row.push(e);
            proof {
                let ni = n as int;
                let ii = i as int;
                let ji = j as int;
                lemma_mul_is_distributive_add(ii, ji, 1);
                lemma_add_mod_noop(ii * ji, ii, ni);
                if e + i_mod < n {
                    lemma_small_mod((e + i_mod) as nat, n as nat);
                } else {
                    lemma_mod_multiples_vanish(1, e + i_mod - ni, ni);
                    lemma_small_mod((e + i_mod - ni) as nat, n as nat);
                }
            }
            if i_mod != 0 && e >= n - i_mod {
                e = e - (n - i_mod);
            } else {
                e = e + i_mod;
            }
            j = j + 1;
        }
        r.push(row);
        i = i + 1;
    }
    r
}

} // verus!

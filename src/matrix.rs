use crate::field::{modulus, Fe};
use ark_bls12_381::Fq;
use ark_ff::{BigInt, PrimeField};
use nalgebra::{DMatrix, DVector};
use vstd::arithmetic::div_mod::{lemma_add_mod_noop, lemma_mod_twice, lemma_mul_mod_noop};
use vstd::prelude::*;

verus! {

/// The integers that a sequence of field elements stands for.
pub open spec fn values(s: Seq<Fe>) -> Seq<int> {
    s.map_values(|e: Fe| e.value())
}

/// Sum of the products of corresponding entries, over the integers.
pub open spec fn dot(u: Seq<int>, v: Seq<int>) -> int
    decreases u.len(),
{
    if u.len() == 0 {
        0
    } else {
        dot(u.drop_last(), v.drop_last()) + u.last() * v.last()
    }
}

/// Column `k` of a matrix given by its rows.
pub open spec fn column(m: Seq<Seq<int>>, k: int) -> Seq<int> {
    Seq::new(m.len(), |j: int| m[j][k])
}

/// Matrix times vector in the field: entry `i` is row `i` dotted with `x`, reduced.
pub open spec fn mat_vec(m: Seq<Seq<int>>, x: Seq<int>) -> Seq<int> {
    Seq::new(m.len(), |i: int| dot(m[i], x) % modulus())
}

/// Product of two square matrices of one size in the field.
pub open spec fn square_product(a: Seq<Seq<int>>, b: Seq<Seq<int>>) -> Seq<Seq<int>> {
    Seq::new(a.len(), |i: int| Seq::new(b.len(), |k: int| dot(a[i], column(b, k)) % modulus()))
}

/// Entries that agree modulo the prime give dot products that agree modulo the prime.
pub proof fn lemma_dot_mod(u: Seq<int>, v: Seq<int>, u2: Seq<int>, v2: Seq<int>)
    requires
        u.len() == v.len() == u2.len() == v2.len(),
        forall|j: int| 0 <= j < u.len() ==> u[j] % modulus() == u2[j] % modulus(),
        forall|j: int| 0 <= j < v.len() ==> v[j] % modulus() == v2[j] % modulus(),
    ensures
        dot(u, v) % modulus() == dot(u2, v2) % modulus(),
    decreases u.len(),
{
    if u.len() > 0 {
        let p = modulus();
        let n = u.len() - 1;
        lemma_dot_mod(u.drop_last(), v.drop_last(), u2.drop_last(), v2.drop_last());
        lemma_add_mod_noop(dot(u.drop_last(), v.drop_last()), u.last() * v.last(), p);
        lemma_add_mod_noop(dot(u2.drop_last(), v2.drop_last()), u2.last() * v2.last(), p);
        lemma_mul_mod_noop(u.last(), v.last(), p);
        lemma_mul_mod_noop(u2.last(), v2.last(), p);
        assert(u[n] % p == u2[n] % p);
        assert(v[n] % p == v2[n] % p);
    }
}

/// The dot product is additive in its first argument.
pub proof fn lemma_dot_add(u: Seq<int>, w: Seq<int>, x: Seq<int>)
    requires
        u.len() == w.len() == x.len(),
    ensures
        dot(Seq::new(u.len(), |k: int| u[k] + w[k]), x) == dot(u, x) + dot(w, x),
    decreases u.len(),
{
    let s = Seq::new(u.len(), |k: int| u[k] + w[k]);
    if u.len() > 0 {
        lemma_dot_add(u.drop_last(), w.drop_last(), x.drop_last());
        let t = Seq::new(u.drop_last().len(), |k: int| u.drop_last()[k] + w.drop_last()[k]);
        assert(s.drop_last() =~= t);
        assert(u.last() * x.last() + w.last() * x.last() == (u.last() + w.last()) * x.last())
            by (nonlinear_arith);
    }
}

/// The dot product scales with its first argument.
pub proof fn lemma_dot_scale(c: int, u: Seq<int>, x: Seq<int>)
    requires
        u.len() == x.len(),
    ensures
        dot(Seq::new(u.len(), |k: int| c * u[k]), x) == c * dot(u, x),
    decreases u.len(),
{
    let s = Seq::new(u.len(), |k: int| c * u[k]);
    if u.len() > 0 {
        lemma_dot_scale(c, u.drop_last(), x.drop_last());
        let t = Seq::new(u.drop_last().len(), |k: int| c * u.drop_last()[k]);
        assert(s.drop_last() =~= t);
        let d = dot(u.drop_last(), x.drop_last());
        assert(c * d + (c * u.last()) * x.last() == c * (d + u.last() * x.last()))
            by (nonlinear_arith);
    }
}

/// Summing over rows then columns equals summing over columns then rows:
/// `a · (B x) == (a B) · x` over the integers.
pub proof fn lemma_dot_exchange(a: Seq<int>, b: Seq<Seq<int>>, x: Seq<int>)
    requires
        a.len() == b.len(),
        forall|j: int| 0 <= j < b.len() ==> (#[trigger] b[j]).len() == x.len(),
    ensures
        dot(a, Seq::new(b.len(), |j: int| dot(b[j], x)))
            == dot(Seq::new(x.len(), |k: int| dot(a, column(b, k))), x),
    decreases a.len(),
{
    let bx = Seq::new(b.len(), |j: int| dot(b[j], x));
    let ab = Seq::new(x.len(), |k: int| dot(a, column(b, k)));
    if a.len() == 0 {
        lemma_dot_zero(ab, x);
    } else {
        let a1 = a.drop_last();
        let b1 = b.drop_last();
        lemma_dot_exchange(a1, b1, x);
        let bx1 = Seq::new(b1.len(), |j: int| dot(b1[j], x));
        let ab1 = Seq::new(x.len(), |k: int| dot(a1, column(b1, k)));
        assert(bx.drop_last() =~= bx1);
        let last = b.last();
        let scaled = Seq::new(last.len(), |k: int| a.last() * last[k]);
        lemma_dot_scale(a.last(), last, x);
        lemma_dot_add(ab1, scaled, x);
        assert forall|k: int| 0 <= k < x.len() implies ab[k] == ab1[k] + scaled[k] by {
            assert(column(b, k).drop_last() =~= column(b1, k));
        }
        assert(ab =~= Seq::new(ab1.len(), |k: int| ab1[k] + scaled[k]));
    }
}

/// The dot product of anything with zero entries is zero.
proof fn lemma_dot_zero(u: Seq<int>, x: Seq<int>)
    requires
        forall|k: int| 0 <= k < u.len() ==> u[k] == 0,
    ensures
        dot(u, x) == 0,
    decreases u.len(),
{
    if u.len() > 0 {
        lemma_dot_zero(u.drop_last(), x.drop_last());
    }
}

/// For square matrices of one size, `a (b x) == (a b) x` in the field.
pub proof fn lemma_mat_vec_assoc(a: Seq<Seq<int>>, b: Seq<Seq<int>>, x: Seq<int>)
    requires
        a.len() == b.len() == x.len(),
        forall|i: int| 0 <= i < a.len() ==> (#[trigger] a[i]).len() == x.len(),
        forall|i: int| 0 <= i < b.len() ==> (#[trigger] b[i]).len() == x.len(),
    ensures
        mat_vec(a, mat_vec(b, x)) == mat_vec(square_product(a, b), x),
{
    let p = modulus();
    let bx = mat_vec(b, x);
    let c = square_product(a, b);
    assert forall|i: int| 0 <= i < a.len() implies mat_vec(a, bx)[i] == mat_vec(c, x)[i] by {
        let raw = Seq::new(b.len(), |j: int| dot(b[j], x));
        let ab = Seq::new(x.len(), |k: int| dot(a[i], column(b, k)));
        assert forall|j: int| 0 <= j < bx.len() implies bx[j] % p == raw[j] % p by {
            lemma_mod_twice(raw[j], p);
        }
        lemma_dot_mod(a[i], bx, a[i], raw);
        lemma_dot_exchange(a[i], b, x);
        assert forall|k: int| 0 <= k < ab.len() implies c[i][k] % p == ab[k] % p by {
            lemma_mod_twice(ab[k], p);
        }
        lemma_dot_mod(c[i], x, ab, x);
    }
    assert(mat_vec(a, bx) =~= mat_vec(c, x));
}

/// A dense matrix over the base field, its entries held row by row.
#[derive(Debug)]
pub struct Matrix {
    nrows: usize,
    ncols: usize,
    data: Vec<Fe>,
}

/// The entries of a `nrows` by `ncols` matrix laid out row by row in `flat`.
pub open spec fn rows_of(flat: Seq<int>, nrows: nat, ncols: nat) -> Seq<Seq<int>> {
    Seq::new(nrows, |i: int| Seq::new(ncols, |j: int| flat[i * ncols + j]))
}

impl View for Matrix {
    type V = Seq<Seq<int>>;

    /// The matrix as its rows of integers.
    closed spec fn view(&self) -> Seq<Seq<int>> {
        rows_of(values(self.data@), self.nrows as nat, self.ncols as nat)
    }
}

proof fn lemma_flat_index(i: int, j: int, nrows: int, ncols: int)
    requires
        0 <= i < nrows,
        0 <= j < ncols,
    ensures
        0 <= i * ncols + j < nrows * ncols,
{
    assert(0 <= i * ncols + j < nrows * ncols) by (nonlinear_arith)
        requires
            0 <= i < nrows,
            0 <= j < ncols,
    ;
}

impl Matrix {
    pub closed spec fn rows(self) -> nat {
        self.nrows as nat
    }

    pub closed spec fn cols(self) -> nat {
        self.ncols as nat
    }

    pub closed spec fn wf(self) -> bool {
        &&& self.data@.len() == self.nrows * self.ncols
        &&& forall|k: int| 0 <= k < self.data@.len() ==> (#[trigger] self.data@[k]).wf()
    }

    /// The view has `rows()` rows of `cols()` entries each.
    pub proof fn lemma_shape(&self)
        ensures
            self@.len() == self.rows(),
            forall|i: int| 0 <= i < self.rows() ==> (#[trigger] self@[i]).len() == self.cols(),
    {
    }

    /// A `nrows` by `ncols` matrix from its entries listed row by row; `None` where
    /// the number of entries is not `nrows * ncols`.
    pub fn from_row_major(nrows: usize, ncols: usize, data: Vec<Fe>) -> (r: Option<Matrix>)
        requires
            forall|k: int| 0 <= k < data@.len() ==> (#[trigger] data@[k]).wf(),
        ensures
            r is Some <==> nrows * ncols == data@.len(),
            r matches Some(m) ==> m.wf() && m.rows() == nrows && m.cols() == ncols
                && m@ == rows_of(values(data@), nrows as nat, ncols as nat),
    {
        let len_data = data.len();
        match nrows.checked_mul(ncols) {
            Some(len) => {
                if len == len_data {
                    Some(Matrix { nrows, ncols, data })
                } else {
                    None
                }
            },
            None => {
                assert(nrows * ncols > usize::MAX);
                None
            },
        }
    }

    pub fn nrows(&self) -> (r: usize)
        ensures
            r == self.rows(),
    {
        self.nrows
    }

    pub fn ncols(&self) -> (r: usize)
        ensures
            r == self.cols(),
    {
        self.ncols
    }

    /// Whether the matrix has as many rows as columns.
    pub fn is_square(&self) -> (r: bool)
        ensures
            r == (self.rows() == self.cols()),
    {
        self.nrows == self.ncols
    }

    /// The entry in row `i` and column `j`.
    pub fn get(&self, i: usize, j: usize) -> (r: Fe)
        requires
            self.wf(),
            i < self.rows(),
            j < self.cols(),
        ensures
            r.wf(),
            r.value() == self@[i as int][j as int],
    {
        let len_data = self.data.len();
        proof {
            lemma_flat_index(i as int, j as int, self.nrows as int, self.ncols as int);
            assert((i as int) * (self.ncols as int) + (j as int) < len_data);
        }
        self.data[i * self.ncols + j]
    }

    /// The matrix applied to the vector `x`.
    pub fn mul_vec(&self, x: &Vec<Fe>) -> (r: Vec<Fe>)
        requires
            self.wf(),
            x@.len() == self.cols(),
            forall|k: int| 0 <= k < x@.len() ==> (#[trigger] x@[k]).wf(),
        ensures
            r@.len() == self.rows(),
            forall|k: int| 0 <= k < r@.len() ==> (#[trigger] r@[k]).wf(),
            values(r@) == mat_vec(self@, values(x@)),
    {
        nalgebra_mul_vec(self, x)
    }
}

/// Relies on nalgebra's `Mul` of a `DMatrix<Fq>` by a `DVector<Fq>`: entry `i` of the
/// result is the field sum over `j` of `m[i][j] * x[j]`, with ark-ff's field operations,
/// and on `PrimeField::{from_bigint, into_bigint}` for moving to and from canonical limbs.
#[verifier::external_body]
fn nalgebra_mul_vec(m: &Matrix, x: &Vec<Fe>) -> (r: Vec<Fe>)
    requires
        m.wf(),
        x@.len() == m.cols(),
        forall|k: int| 0 <= k < x@.len() ==> (#[trigger] x@[k]).wf(),
    ensures
        r@.len() == m.rows(),
        forall|k: int| 0 <= k < r@.len() ==> (#[trigger] r@[k]).wf(),
        values(r@) == mat_vec(m@, values(x@)),
{
    let to_fq = |e: &Fe| Fq::from_bigint(BigInt::new(e.limbs)).unwrap();
    let a = DMatrix::from_row_iterator(m.nrows, m.ncols, m.data.iter().map(to_fq));
    let v = DVector::from_iterator(x.len(), x.iter().map(to_fq));
    (a * v).iter().map(|f| Fe { limbs: f.into_bigint().0 }).collect()
}

} // verus!

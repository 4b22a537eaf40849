use crate::field::{modulus, Fe};
use crate::matrix::{lemma_mat_vec_assoc, mat_vec, square_product, values, Matrix};
use vstd::arithmetic::div_mod::{lemma_mul_mod_noop_right, lemma_small_mod};
use vstd::arithmetic::power::pow;
use vstd::prelude::*;

verus! {

/// Number of random rounds a verifier made by `Freivald::new` runs.
pub const ROUNDS: usize = 5;

/// `1, r, r^2, ..., r^(n-1)` in the field.
pub open spec fn powers(r: int, n: nat) -> Seq<int> {
    Seq::new(n, |i: int| pow(r, i as nat) % modulus())
}

/// All three matrices are square and of one shape.
pub open spec fn dims_agree(a: Matrix, b: Matrix, c: Matrix) -> bool {
    &&& a.rows() == a.cols()
    &&& b.rows() == b.cols()
    &&& c.rows() == c.cols()
    &&& a.rows() == b.rows()
    &&& b.rows() == c.rows()
}

/// One round of the check with the vector `x`: `a (b x) == c x`.
pub open spec fn round_passes(a: Seq<Seq<int>>, b: Seq<Seq<int>>, c: Seq<Seq<int>>, x: Seq<int>) -> bool {
    mat_vec(a, mat_vec(b, x)) == mat_vec(c, x)
}

/// Conjunction of a sequence of verdicts.
pub open spec fn all_true(s: Seq<bool>) -> bool
    decreases s.len(),
{
    if s.len() == 0 {
        true
    } else {
        all_true(s.drop_last()) && s.last()
    }
}

/// Whether the three matrices are square and of one shape; a mismatch alone shows that
/// `c` is not the product of `a` and `b`.
pub fn check_matrix_dimensions(matrix_a: &Matrix, matrix_b: &Matrix, supposed_ab: &Matrix) -> (r: bool)
    ensures
        r == dims_agree(*matrix_a, *matrix_b, *supposed_ab),
{
    if matrix_a.is_square() && matrix_b.is_square() && supposed_ab.is_square() {
        if matrix_a.nrows() == matrix_b.nrows() && matrix_b.nrows() == supposed_ab.nrows() {
            return true;
        }
    }
    false
}

/// A probabilistic checker of claimed matrix products, holding for each round the
/// vector of powers of one random field element.
#[derive(Debug)]
pub struct Freivald {
    size: usize,
    points: Vec<Fe>,
    x: Vec<Vec<Fe>>,
}

impl Freivald {
    /// The matrix size the verifier was built for.
    pub closed spec fn dim(self) -> nat {
        self.size as nat
    }

    /// The random element behind each round.
    pub closed spec fn points(self) -> Seq<int> {
        values(self.points@)
    }

    /// The vector used in each round.
    pub closed spec fn vectors(self) -> Seq<Seq<int>> {
        Seq::new(self.x@.len(), |i: int| values(self.x@[i]@))
    }

    pub closed spec fn wf(self) -> bool {
        &&& self.x@.len() == self.points@.len()
        &&& forall|i: int| 0 <= i < self.points@.len() ==> (#[trigger] self.points@[i]).wf()
        &&& forall|i: int| 0 <= i < self.x@.len() ==> (#[trigger] self.x@[i])@.len() == self.size
        &&& forall|i: int, k: int|
            0 <= i < self.x@.len() && 0 <= k < self.x@[i]@.len() ==> (#[trigger] self.x@[i]@[k]).wf()
        &&& forall|i: int|
            0 <= i < self.x@.len() ==> values(#[trigger] self.x@[i]@) == powers(
                values(self.points@)[i],
                self.size as nat,
            )
    }

    /// Each round's vector is the powers of that round's point, one per matrix row.
    pub proof fn lemma_vectors(&self)
        requires
            self.wf(),
        ensures
            self.vectors().len() == self.points().len(),
            forall|i: int|
                0 <= i < self.vectors().len() ==> #[trigger] self.vectors()[i] == powers(
                    self.points()[i],
                    self.dim(),
                ),
    {
    }

    /// The verdicts of the rounds, in order.
    pub open spec fn round_results(self, a: Matrix, b: Matrix, c: Matrix) -> Seq<bool> {
        Seq::new(self.vectors().len(), |i: int| round_passes(a@, b@, c@, self.vectors()[i]))
    }

    /// The verdict on `a`, `b` and `c`: shapes agree and every round passes.
    pub open spec fn accepts(self, a: Matrix, b: Matrix, c: Matrix) -> bool {
        &&& dims_agree(a, b, c)
        &&& forall|i: int| 0 <= i < self.vectors().len() ==> #[trigger] round_passes(a@, b@, c@, self.vectors()[i])
    }
}

impl Freivald {
    /// A verifier for `array_size` by `array_size` matrices with one round per element
    /// of `points`, the round for `r` using the vector `1, r, ..., r^(array_size-1)`.
    pub fn with_points(points: &Vec<Fe>, array_size: usize) -> (r: Freivald)
        requires
            forall|i: int| 0 <= i < points@.len() ==> (#[trigger] points@[i]).wf(),
        ensures
            r.wf(),
            r.dim() == array_size,
            r.points() == values(points@),
    {
        let mut pts: Vec<Fe> = Vec::new();
        let mut x: Vec<Vec<Fe>> = Vec::new();
        let mut i: usize = 0;
        while i < points.len()
            invariant
                i <= points@.len(),
                forall|j: int| 0 <= j < points@.len() ==> (#[trigger] points@[j]).wf(),
                pts@ == points@.subrange(0, i as int),
                x@.len() == i,
                forall|j: int| 0 <= j < i ==> (#[trigger] x@[j])@.len() == array_size,
                forall|j: int, k: int| 0 <= j < i && 0 <= k < x@[j]@.len() ==> (#[trigger] x@[j]@[k]).wf(),
                forall|j: int|
                    0 <= j < i ==> values(#[trigger] x@[j]@) == powers(
                        values(pts@)[j],
                        array_size as nat,
                    ),
            decreases points@.len() - i,
        {
            let r = points[i];
            let xn = geometric(&r, array_size);
            let ghost x_before = x@;
            pts.push(r);
            x.push(xn);
            assert forall|j: int| 0 <= j < i + 1 implies values(#[trigger] x@[j]@) == powers(
                values(pts@)[j],
                array_size as nat,
            ) by {
                if j < i {
                    assert(x@[j] == x_before[j]);
                }
            }
            assert(pts@ =~= points@.subrange(0, i + 1));
            i = i + 1;
        }
        assert(pts@ =~= points@);
        Freivald { size: array_size, points: pts, x }
    }

    /// A verifier for `array_size` by `array_size` matrices with `ROUNDS` rounds, each
    /// on a freshly drawn random field element.
    pub fn new(array_size: usize) -> (r: Freivald)
        ensures
            r.wf(),
            r.dim() == array_size,
            r.points().len() == ROUNDS,
    {
        let mut points: Vec<Fe> = Vec::new();
        let mut i: usize = 0;
        while i < ROUNDS
            invariant
                i <= ROUNDS,
                points@.len() == i,
                forall|j: int| 0 <= j < i ==> (#[trigger] points@[j]).wf(),
            decreases ROUNDS - i,
        {
            points.push(Fe::random());
            i = i + 1;
        }
        Freivald::with_points(&points, array_size)
    }

    /// Checks the claim `supposed_ab == matrix_a * matrix_b`: false at once where the
    /// shapes disagree, else false at the first round whose vector `x` gives
    /// `matrix_a (matrix_b x) != supposed_ab x`, and true where every round agrees.
    pub fn verify(&self, matrix_a: &Matrix, matrix_b: &Matrix, supposed_ab: &Matrix) -> (r: bool)
        requires
            self.wf(),
            matrix_a.wf(),
            matrix_b.wf(),
            supposed_ab.wf(),
            supposed_ab.rows() == self.dim(),
        ensures
            r == self.accepts(*matrix_a, *matrix_b, *supposed_ab),
    {
        if !check_matrix_dimensions(matrix_a, matrix_b, supposed_ab) {
            return false;
        }
        let mut i: usize = 0;
        while i < self.x.len()
            invariant
                self.wf(),
                matrix_a.wf(),
                matrix_b.wf(),
                supposed_ab.wf(),
                dims_agree(*matrix_a, *matrix_b, *supposed_ab),
                supposed_ab.rows() == self.dim(),
                i <= self.x@.len(),
                forall|j: int| 0 <= j < i ==> #[trigger] round_passes(
                    matrix_a@,
                    matrix_b@,
                    supposed_ab@,
                    self.vectors()[j],
                ),
            decreases self.x@.len() - i,
        {
            let xi = &self.x[i];
            assert(forall|k: int| 0 <= k < xi@.len() ==> (#[trigger] xi@[k]).wf());
            let y = supposed_ab.mul_vec(xi);
            let bx = matrix_b.mul_vec(xi);
            let z = matrix_a.mul_vec(&bx);
            assert(values(xi@) == self.vectors()[i as int]);
            if !same_values(&z, &y) {
                assert(!round_passes(matrix_a@, matrix_b@, supposed_ab@, self.vectors()[i as int]));
                return false;
            }
            i = i + 1;
        }
        true
    }

    /// Builds a verifier sized to `supposed_ab`'s rows and runs it once. Whatever
    /// elements are drawn, a true product of square matrices is accepted and
    /// mismatched shapes are rejected.
    pub fn verify_once(matrix_a: &Matrix, matrix_b: &Matrix, supposed_ab: &Matrix) -> (r: bool)
        requires
            matrix_a.wf(),
            matrix_b.wf(),
            supposed_ab.wf(),
        ensures
            r ==> dims_agree(*matrix_a, *matrix_b, *supposed_ab),
            dims_agree(*matrix_a, *matrix_b, *supposed_ab) && supposed_ab@ == square_product(
                matrix_a@,
                matrix_b@,
            ) ==> r,
    {
        let freivald = Freivald::new(supposed_ab.nrows());
        proof {
            if dims_agree(*matrix_a, *matrix_b, *supposed_ab) && supposed_ab@ == square_product(
                matrix_a@,
                matrix_b@,
            ) {
                lemma_true_product_accepted(freivald, *matrix_a, *matrix_b, *supposed_ab);
            }
        }
        freivald.verify(matrix_a, matrix_b, supposed_ab)
    }
}

/// Whether two vectors hold the same field elements.
fn same_values(u: &Vec<Fe>, v: &Vec<Fe>) -> (r: bool)
    requires
        u@.len() == v@.len(),
    ensures
        r == (values(u@) == values(v@)),
{
    let mut i: usize = 0;
    while i < u.len()
        invariant
            u@.len() == v@.len(),
            i <= u@.len(),
            forall|j: int| 0 <= j < i ==> values(u@)[j] == values(v@)[j],
        decreases u@.len() - i,
    {
        if !u[i].equals(&v[i]) {
            assert(values(u@)[i as int] != values(v@)[i as int]);
            return false;
        }
        i = i + 1;
    }
    assert(values(u@) =~= values(v@));
    true
}

/// Whatever its random points, a verifier accepts a true product of square matrices of
/// the size it was built for.
pub proof fn lemma_true_product_accepted(v: Freivald, a: Matrix, b: Matrix, c: Matrix)
    requires
        v.wf(),
        dims_agree(a, b, c),
        a.rows() == v.dim(),
        c@ == square_product(a@, b@),
    ensures
        v.accepts(a, b, c),
{
    v.lemma_vectors();
    a.lemma_shape();
    b.lemma_shape();
    assert forall|i: int| 0 <= i < v.vectors().len() implies #[trigger] round_passes(
        a@,
        b@,
        c@,
        v.vectors()[i],
    ) by {
        lemma_mat_vec_assoc(a@, b@, v.vectors()[i]);
    }
}

/// The shape check accepts any square matrix against itself, and rejects any triple
/// whose first and last matrices differ in their number of rows.
pub proof fn lemma_dimension_guard(a: Matrix, b: Matrix, c: Matrix)
    ensures
        a.rows() == a.cols() ==> dims_agree(a, a, a),
        a.rows() != c.rows() ==> !dims_agree(a, b, c),
        dims_agree(a, b, c) <==> a.rows() == a.cols() && b.rows() == a.rows() && b.cols()
            == a.rows() && c.rows() == a.rows() && c.cols() == a.rows(),
{
}

/// The conjunction of a sequence of verdicts is true exactly when each verdict is.
pub proof fn lemma_all_true(s: Seq<bool>)
    ensures
        all_true(s) <==> forall|i: int| 0 <= i < s.len() ==> s[i],
    decreases s.len(),
{
    if s.len() > 0 {
        lemma_all_true(s.drop_last());
        if all_true(s) {
            assert forall|i: int| 0 <= i < s.len() implies s[i] by {
                if i < s.len() - 1 {
                    assert(s[i] == s.drop_last()[i]);
                }
            }
        }
        if forall|i: int| 0 <= i < s.len() ==> s[i] {
            assert forall|i: int| 0 <= i < s.drop_last().len() implies s.drop_last()[i] by {
                assert(s[i] == s.drop_last()[i]);
            }
        }
    }
}

/// Stopping at the first failed round gives the verdict of running every round and
/// taking the conjunction of their results.
pub proof fn lemma_short_circuit_matches_conjunction(v: Freivald, a: Matrix, b: Matrix, c: Matrix)
    ensures
        v.accepts(a, b, c) == (dims_agree(a, b, c) && all_true(v.round_results(a, b, c))),
{
    let s = v.round_results(a, b, c);
    lemma_all_true(s);
    if forall|i: int| 0 <= i < s.len() ==> s[i] {
        assert forall|i: int| 0 <= i < v.vectors().len() implies #[trigger] round_passes(
            a@,
            b@,
            c@,
            v.vectors()[i],
        ) by {
            assert(s[i]);
        }
    }
}

/// The powers `1, r, ..., r^(n-1)` of `r` in the field.
fn geometric(r: &Fe, n: usize) -> (v: Vec<Fe>)
    requires
        r.wf(),
    ensures
        v@.len() == n,
        forall|k: int| 0 <= k < n ==> (#[trigger] v@[k]).wf(),
        values(v@) == powers(r.value(), n as nat),
{
    let mut v: Vec<Fe> = Vec::new();
    let mut cur = Fe::from_u64(1);
    let mut i: usize = 0;
    proof {
        reveal(pow);
        lemma_small_mod(1, modulus() as nat);
    }
    while i < n
        invariant
            i <= n,
            r.wf(),
            cur.wf(),
            cur.value() == pow(r.value(), i as nat) % modulus(),
            v@.len() == i,
            forall|k: int| 0 <= k < i ==> (#[trigger] v@[k]).wf(),
            values(v@) == powers(r.value(), i as nat),
        decreases n - i,
    {
        let ghost before = v@;
        v.push(cur);
        assert forall|k: int| 0 <= k < i + 1 implies values(v@)[k] == powers(r.value(), (i + 1) as nat)[k] by {
            if k < i {
                assert(v@[k] == before[k]);
                assert(values(before)[k] == powers(r.value(), i as nat)[k]);
            }
        }
        assert(values(v@) =~= powers(r.value(), (i + 1) as nat));
        let next = r.mul(&cur);
        proof {
            lemma_mul_mod_noop_right(r.value(), pow(r.value(), i as nat), modulus());
            reveal(pow);
            assert(pow(r.value(), (i + 1) as nat) == r.value() * pow(r.value(), i as nat));
        }
        cur = next;
        i = i + 1;
    }
    v
}

} // verus!

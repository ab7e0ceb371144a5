//! A dense row-major matrix.

use num_traits::One;
use vstd::prelude::*;

verus! {

/// A `rows` x `cols` matrix stored row by row in one vector.
#[derive(Debug, Clone, PartialEq)]
pub struct Matrix<T> {
    data: Vec<T>,
    rows: usize,
    cols: usize,
}

/// A type with a multiplicative identity, the value that fills the diagonal
/// of an identity matrix.
pub trait UnitElement: Sized {
    /// The multiplicative identity of the type.
    spec fn unit_spec() -> Self;

    fn unit() -> (r: Self)
        ensures
            r == Self::unit_spec(),
    ;
}

/// `<i32 as num_traits::One>::one`, which `num_traits` defines as the literal `1`.
#[verifier::external_body]
fn one_i32() -> (r: i32)
    ensures
        r == 1,
{
    <i32 as One>::one()
}

/// `<i64 as num_traits::One>::one`, which `num_traits` defines as the literal `1`.
#[verifier::external_body]
fn one_i64() -> (r: i64)
    ensures
        r == 1,
{
    <i64 as One>::one()
}

/// `<u32 as num_traits::One>::one`, which `num_traits` defines as the literal `1`.
#[verifier::external_body]
fn one_u32() -> (r: u32)
    ensures
        r == 1,
{
    <u32 as One>::one()
}

/// `<u64 as num_traits::One>::one`, which `num_traits` defines as the literal `1`.
#[verifier::external_body]
fn one_u64() -> (r: u64)
    ensures
        r == 1,
{
    <u64 as One>::one()
}

/// `<usize as num_traits::One>::one`, which `num_traits` defines as the literal `1`.
#[verifier::external_body]
fn one_usize() -> (r: usize)
    ensures
        r == 1,
{
    <usize as One>::one()
}

impl UnitElement for i32 {
    open spec fn unit_spec() -> i32 {
        1
    }

    fn unit() -> (r: i32) {
        one_i32()
    }
}

impl UnitElement for i64 {
    open spec fn unit_spec() -> i64 {
        1
    }

    fn unit() -> (r: i64) {
        one_i64()
    }
}

impl UnitElement for u32 {
    open spec fn unit_spec() -> u32 {
        1
    }

    fn unit() -> (r: u32) {
        one_u32()
    }
}

impl UnitElement for u64 {
    open spec fn unit_spec() -> u64 {
        1
    }

    fn unit() -> (r: u64) {
        one_u64()
    }
}

impl UnitElement for usize {
    open spec fn unit_spec() -> usize {
        1
    }

    fn unit() -> (r: usize) {
        one_usize()
    }
}

/// Whether `x` is what cloning a value returned by `T::default()` may give.
pub open spec fn is_default_value<T: Default + Clone>(x: T) -> bool {
    exists|d: T| call_ensures(T::default, (), d) && cloned(d, x)
}

impl<T> Matrix<T> {
    /// The elements, row after row.
    pub closed spec fn view(&self) -> Seq<T> {
        self.data@
    }

    pub closed spec fn spec_rows(&self) -> usize {
        self.rows
    }

    pub closed spec fn spec_cols(&self) -> usize {
        self.cols
    }

    /// The vector holds exactly `rows * cols` elements.
    pub open spec fn wf(&self) -> bool {
        self@.len() == self.spec_rows() * self.spec_cols()
    }

    /// The position of cell `(row, col)` in the row-major sequence.
    pub open spec fn offset(&self, row: int, col: int) -> int {
        row * self.spec_cols() + col
    }

    /// The element at `(row, col)`.
    pub open spec fn at(&self, row: int, col: int) -> T {
        self@[self.offset(row, col)]
    }

    /// The number of elements fits a machine word.
    pub proof fn lemma_len_fits(&self)
        ensures
            self@.len() <= usize::MAX,
    {
        assert(self.data@.len() == self.data.len());
    }

    /// A matrix of `rows * cols` default elements.
    pub fn new(rows: usize, cols: usize) -> (m: Self) where T: Default + Clone
        requires
            rows * cols <= usize::MAX,
        ensures
            m.wf(),
            m.spec_rows() == rows,
            m.spec_cols() == cols,
            forall|i: int| 0 <= i < rows * cols ==> is_default_value(#[trigger] m@[i]),
    {
        let d = T::default();
        let data = vec![d; rows * cols];
        Matrix { data, rows, cols }
    }

    /// A shared reference to the element at `(row, col)`.
    pub fn get(&self, row: usize, col: usize) -> (r: &T)
        requires
            0 <= self.offset(row as int, col as int) < self@.len(),
        ensures
            *r == self.at(row as int, col as int),
    {
        proof {
            assert(self.data@.len() == self.data.len());
            assert(row * self.cols >= 0) by (nonlinear_arith);
        }
        &self.data[row * self.cols + col]
    }

    /// A mutable reference to the element at `(row, col)`; whatever is
    /// written through it lands in that cell and in no other.
    pub fn get_mut(&mut self, row: usize, col: usize) -> (r: &mut T)
        requires
            0 <= old(self).offset(row as int, col as int) < old(self)@.len(),
        ensures
            *r == old(self).at(row as int, col as int),
            final(self)@ == old(self)@.update(old(self).offset(row as int, col as int), *final(r)),
            final(self).spec_rows() == old(self).spec_rows(),
            final(self).spec_cols() == old(self).spec_cols(),
    {
        proof {
            assert(self.data@.len() == self.data.len());
            assert(row * self.cols >= 0) by (nonlinear_arith);
        }
        &mut self.data[row * self.cols + col]
    }

    /// Stores `value` at `(row, col)`.
    pub fn set(&mut self, row: usize, col: usize, value: T)
        requires
            0 <= old(self).offset(row as int, col as int) < old(self)@.len(),
        ensures
            final(self)@ == old(self)@.update(old(self).offset(row as int, col as int), value),
            final(self).spec_rows() == old(self).spec_rows(),
            final(self).spec_cols() == old(self).spec_cols(),
    {
        proof {
            assert(self.data@.len() == self.data.len());
            assert(row * self.cols >= 0) by (nonlinear_arith);
        }
        self.data[row * self.cols + col] = value;
    }

    /// The number of rows.
    pub fn rows(&self) -> (r: usize)
        ensures
            r == self.spec_rows(),
    {
        self.rows
    }

    /// The number of columns.
    pub fn cols(&self) -> (c: usize)
        ensures
            c == self.spec_cols(),
    {
        self.cols
    }

    /// The pair `(rows, cols)`.
    pub fn dimensions(&self) -> (d: (usize, usize))
        ensures
            d == (self.spec_rows(), self.spec_cols()),
    {
        (self.rows, self.cols)
    }

    /// A matrix over the given row-major data.
    pub fn from_vec(data: Vec<T>, rows: usize, cols: usize) -> (m: Self)
        requires
            data@.len() == rows * cols,
        ensures
            m.wf(),
            m@ == data@,
            m.spec_rows() == rows,
            m.spec_cols() == cols,
    {
        Matrix { data, rows, cols }
    }

    /// The elements as one row-major slice.
    pub fn as_slice(&self) -> (s: &[T])
        ensures
            s@ == self@,
    {
        self.data.as_slice()
    }

    /// The elements as one mutable row-major slice; what is written through
    /// it is what the matrix holds afterwards.
    pub fn as_mut_slice(&mut self) -> (s: &mut [T])
        ensures
            s@ == old(self)@,
            final(self)@ == final(s)@,
            final(self).spec_rows() == old(self).spec_rows(),
            final(self).spec_cols() == old(self).spec_cols(),
    {
        self.data.as_mut_slice()
    }

    /// A matrix of `rows * cols` default elements.
    pub fn zeros(rows: usize, cols: usize) -> (m: Self) where T: Default + Clone
        requires
            rows * cols <= usize::MAX,
        ensures
            m.wf(),
            m.spec_rows() == rows,
            m.spec_cols() == cols,
            forall|i: int| 0 <= i < rows * cols ==> is_default_value(#[trigger] m@[i]),
    {
        Self::new(rows, cols)
    }

    /// The square matrix with the unit element on the diagonal and default
    /// elements everywhere else.
    pub fn identity(size: usize) -> (m: Self) where T: Default + Clone + UnitElement
        requires
            size * size <= usize::MAX,
        ensures
            m.wf(),
            m.spec_rows() == size,
            m.spec_cols() == size,
            forall|r: int, c: int|
                0 <= r < size && 0 <= c < size ==> if r == c {
                    #[trigger] m.at(r, c) == T::unit_spec()
                } else {
                    is_default_value(m.at(r, c))
                },
    {
        let mut mat = Self::zeros(size, size);
        proof {
            assert forall|r: int, c: int| 0 <= r < size && 0 <= c < size implies is_default_value(
                #[trigger] mat.at(r, c),
            ) by {
                lemma_offset_in_range(size as int, size as int, r, c);
            }
        }
        let mut i: usize = 0;
        while i < size
            invariant
                i <= size,
                mat.wf(),
                mat.spec_rows() == size,
                mat.spec_cols() == size,
                forall|r: int, c: int|
                    0 <= r < size && 0 <= c < size ==> if r == c && r < i {
                        #[trigger] mat.at(r, c) == T::unit_spec()
                    } else {
                        is_default_value(mat.at(r, c))
                    },
            decreases size - i,
        {
            proof {
                lemma_offset_in_range(size as int, size as int, i as int, i as int);
            }
            let ghost before = mat;
            mat.set(i, i, T::unit());
            proof {
                assert forall|r: int, c: int| 0 <= r < size && 0 <= c < size implies if r == c && r
                    < i + 1 {
                    #[trigger] mat.at(r, c) == T::unit_spec()
                } else {
                    is_default_value(mat.at(r, c))
                } by {
                    lemma_offset_in_range(size as int, size as int, r, c);
                    if r * size + c == i * size + i {
                        lemma_offset_injective(size as int, r, c, i as int, i as int);
                    }
                    assert(before.at(r, c) == before@[before.offset(r, c)]);
                }
            }
            i += 1;
        }
        mat
    }
}

/// After cell `(row, col)` of `before` was replaced by `value`, that cell
/// holds `value` and every other cell of the grid what it held.
pub proof fn lemma_update_at<T>(before: Matrix<T>, after: Matrix<T>, row: int, col: int, value: T)
    requires
        before.wf(),
        0 <= row < before.spec_rows(),
        0 <= col < before.spec_cols(),
        after@ == before@.update(before.offset(row, col), value),
        after.spec_rows() == before.spec_rows(),
        after.spec_cols() == before.spec_cols(),
    ensures
        after.wf(),
        after.at(row, col) == value,
        forall|r: int, c: int|
            0 <= r < before.spec_rows() && 0 <= c < before.spec_cols() && !(r == row && c == col)
                ==> #[trigger] after.at(r, c) == before.at(r, c),
{
    let rows = before.spec_rows() as int;
    let cols = before.spec_cols() as int;
    lemma_offset_in_range(rows, cols, row, col);
    assert forall|r: int, c: int|
        0 <= r < rows && 0 <= c < cols && !(r == row && c == col) implies #[trigger] after.at(r, c)
        == before.at(r, c) by {
        lemma_offset_in_range(rows, cols, r, c);
        if r * cols + c == row * cols + col {
            lemma_offset_injective(cols, r, c, row, col);
        }
    }
}

/// A cell inside a `rows` x `cols` grid has its offset inside the row-major sequence.
pub proof fn lemma_offset_in_range(rows: int, cols: int, row: int, col: int)
    requires
        0 <= row < rows,
        0 <= col < cols,
    ensures
        0 <= row * cols + col < rows * cols,
{
    assert(row * cols + cols <= rows * cols) by (nonlinear_arith)
        requires
            row + 1 <= rows,
            cols > 0,
    ;
    assert(0 <= row * cols) by (nonlinear_arith)
        requires
            0 <= row,
            0 < cols,
    ;
}

/// Two cells of a grid with `cols` columns share an offset only if they are the same cell.
pub proof fn lemma_offset_injective(cols: int, r1: int, c1: int, r2: int, c2: int)
    requires
        0 <= c1 < cols,
        0 <= c2 < cols,
        r1 * cols + c1 == r2 * cols + c2,
    ensures
        r1 == r2,
        c1 == c2,
{
    assert(r1 == r2) by (nonlinear_arith)
        requires
            0 <= c1 < cols,
            0 <= c2 < cols,
            r1 * cols + c1 == r2 * cols + c2,
    ;
}

} // verus!

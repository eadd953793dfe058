//! Named tensors of a checkpoint, and how weights are read from them.

use crate::error::{first, Fault, LoadError};
use crate::scalar::{Data, Scalar};
use std::sync::Arc;
use vstd::prelude::*;
use vstd::string::*;

verus! {

/// The character of a decimal digit.
pub open spec fn digit(n: int) -> char {
    if n == 0 {
        '0'
    } else if n == 1 {
        '1'
    } else if n == 2 {
        '2'
    } else if n == 3 {
        '3'
    } else if n == 4 {
        '4'
    } else if n == 5 {
        '5'
    } else if n == 6 {
        '6'
    } else if n == 7 {
        '7'
    } else if n == 8 {
        '8'
    } else {
        '9'
    }
}

/// A number in decimal notation, without leading zeros.
pub open spec fn decimal(n: int) -> Seq<char>
    decreases n,
{
    if n < 10 {
        seq![digit(n)]
    } else {
        decimal(n / 10).push(digit(n % 10))
    }
}

fn digit_str(n: usize) -> (r: &'static str)
    requires
        n < 10,
    ensures
        r@ == seq![digit(n as int)],
{
    proof {
        reveal_strlit("0");
        reveal_strlit("1");
        reveal_strlit("2");
        reveal_strlit("3");
        reveal_strlit("4");
        reveal_strlit("5");
        reveal_strlit("6");
        reveal_strlit("7");
        reveal_strlit("8");
        reveal_strlit("9");
    }
    let s = if n == 0 {
        "0"
    } else if n == 1 {
        "1"
    } else if n == 2 {
        "2"
    } else if n == 3 {
        "3"
    } else if n == 4 {
        "4"
    } else if n == 5 {
        "5"
    } else if n == 6 {
        "6"
    } else if n == 7 {
        "7"
    } else if n == 8 {
        "8"
    } else {
        "9"
    };
    assert(s@ =~= seq![digit(n as int)]);
    s
}

/// A number in decimal notation.
pub fn decimal_string(n: usize) -> (r: String)
    ensures
        r@ == decimal(n as int),
    decreases n,
{
    if n < 10 {
        String::from_str(digit_str(n))
    } else {
        let mut s = decimal_string(n / 10);
        s.append(digit_str(n % 10));
        assert(s@ =~= decimal(n as int));
        s
    }
}

/// One string after another.
pub fn join(a: &str, b: &str) -> (r: String)
    ensures
        r@ == a@ + b@,
{
    let mut s = String::from_str(a);
    s.append(b);
    s
}

/// A string followed by a number in decimal notation.
pub fn numbered(a: &str, n: usize) -> (r: String)
    ensures
        r@ == a@ + decimal(n as int),
{
    join(a, decimal_string(n).as_str())
}

/// One tensor of a checkpoint: its name and its elements in row-major order.
pub struct Entry {
    pub name: String,
    pub data: Data,
}

/// The tensors of a checkpoint.
pub struct Checkpoint {
    pub entries: Vec<Entry>,
}

/// The elements of the first of the entries from `i` on that has this name.
pub open spec fn lookup_from(entries: Seq<Entry>, name: Seq<char>, i: int) -> Option<Seq<Scalar>>
    decreases entries.len() - i,
{
    if i < 0 || i >= entries.len() {
        None
    } else if entries[i].name@ == name {
        Some(entries[i].data@)
    } else {
        lookup_from(entries, name, i + 1)
    }
}

impl Checkpoint {
    /// The elements of the tensor of this name.
    pub open spec fn lookup(&self, name: Seq<char>) -> Option<Seq<Scalar>> {
        lookup_from(self.entries@, name, 0)
    }

    /// The elements of the tensor of this name, none where it is absent.
    pub open spec fn data(&self, name: Seq<char>) -> Seq<Scalar> {
        match self.lookup(name) {
            None => seq![],
            Some(d) => d,
        }
    }

    /// The failure, after an earlier one, to find a tensor of this name.
    pub open spec fn need(&self, e: Option<Fault>, name: Seq<char>) -> Option<Fault> {
        first(
            e,
            match self.lookup(name) {
                None => Some(Fault::MissingTensor { name }),
                Some(d) => None,
            },
        )
    }

    /// The failure, after an earlier one, to find a tensor of this name with
    /// `len` elements.
    pub open spec fn need_len(&self, e: Option<Fault>, name: Seq<char>, len: int) -> Option<Fault> {
        first(
            e,
            match self.lookup(name) {
                None => Some(Fault::MissingTensor { name }),
                Some(d) => if d.len() == len {
                    None
                } else {
                    Some(Fault::TensorLength { name, expected: len, found: d.len() as int })
                },
            },
        )
    }

    /// The tensor of this name.
    pub fn get(&self, name: &str) -> (r: Option<Data>)
        ensures
            r is Some <==> self.lookup(name@) is Some,
            r matches Some(d) ==> self.lookup(name@) == Some(d@),
    {
        let key = String::from_str(name);
        let mut i: usize = 0;
        while i < self.entries.len()
            invariant
                i <= self.entries@.len(),
                key@ == name@,
                self.lookup(name@) == lookup_from(self.entries@, name@, i as int),
            decreases self.entries@.len() - i,
        {
            if self.entries[i].name == key {
                return Some(self.entries[i].data.clone());
            }
            i = i + 1;
        }
        None
    }

    /// Whether there is a tensor of this name.
    pub fn contains(&self, name: &str) -> (r: bool)
        ensures
            r <==> self.lookup(name@) is Some,
    {
        self.get(name).is_some()
    }
}

/// The matrix with `rows` rows of `cols` elements, columns first:
/// element `(j, i)` of the result is element `(i, j)` of `m`.
pub open spec fn transposed(m: Seq<Scalar>, rows: int, cols: int) -> Seq<Scalar> {
    Seq::new((rows * cols) as nat, |k: int| m[(k % rows) * cols + k / rows])
}

/// Transposes a matrix.
pub fn transpose_matrix(m: &Vec<Scalar>, rows: usize, cols: usize) -> (r: Vec<Scalar>)
    requires
        m@.len() == rows * cols,
    ensures
        r@ == transposed(m@, rows as int, cols as int),
{
    let n: usize = m.len();
    let mut out: Vec<Scalar> = Vec::new();
    let mut k: usize = 0;
    while k < n
        invariant
            k <= n,
            n == m@.len() == rows * cols,
            out@.len() == k,
            forall|j: int| 0 <= j < k ==> out@[j] == transposed(m@, rows as int, cols as int)[j],
        decreases n - k,
    {
        proof {
            transpose_index(rows as int, cols as int, k as int);
        }
        let i: usize = k % rows;
        let j: usize = k / rows;
        out.push(m[i * cols + j].clone());
        k = k + 1;
    }
    assert(out@ =~= transposed(m@, rows as int, cols as int));
    out
}

/// The index that transposition reads lies inside the matrix.
pub proof fn transpose_index(rows: int, cols: int, k: int)
    requires
        0 <= rows,
        0 <= cols,
        0 <= k < rows * cols,
    ensures
        rows > 0,
        0 <= k % rows < rows,
        0 <= k / rows < cols,
        0 <= (k % rows) * cols,
        0 <= (k % rows) * cols + k / rows < rows * cols,
{
    assert(rows > 0) by (nonlinear_arith)
        requires
            0 <= rows,
            0 <= cols,
            0 <= k < rows * cols,
    ;
    let i = k % rows;
    let j = k / rows;
    assert(k == j * rows + i && 0 <= i < rows) by (nonlinear_arith)
        requires
            rows > 0,
            i == k % rows,
            j == k / rows,
    ;
    assert(0 <= j < cols) by (nonlinear_arith)
        requires
            k == j * rows + i,
            0 <= i < rows,
            0 <= k < rows * cols,
    ;
    assert(0 <= i * cols && i * cols + j < rows * cols) by (nonlinear_arith)
        requires
            0 <= i < rows,
            0 <= j < cols,
    ;
}

/// Reads weights from a checkpoint and remembers the first failure.
pub struct Loader<'a> {
    pub st: &'a Checkpoint,
    pub error: Option<LoadError>,
}

impl<'a> Loader<'a> {
    /// The failure that is remembered.
    pub open spec fn fault(&self) -> Option<Fault> {
        match self.error {
            None => None,
            Some(e) => Some(e@),
        }
    }
}

/// A matrix stored as `(fan_out, fan_in)`, laid out as `(fan_in, fan_out)`;
/// nothing where the stored tensor does not have that many elements.
pub open spec fn loaded_matrix(st: &Checkpoint, name: Seq<char>, fan_out: int, fan_in: int) -> Seq<Scalar> {
    if st.data(name).len() == fan_out * fan_in {
        transposed(st.data(name), fan_out, fan_in)
    } else {
        seq![]
    }
}

/// Rows `row .. row + rows` of a matrix stored as `(total, cols)`, laid out as
/// `(cols, rows)`; nothing where the stored tensor does not have that many
/// elements.
pub open spec fn loaded_rows(
    st: &Checkpoint,
    name: Seq<char>,
    row: int,
    rows: int,
    total: int,
    cols: int,
) -> Seq<Scalar> {
    if st.data(name).len() == total * cols {
        transposed(st.data(name).subrange(row * cols, (row + rows) * cols), rows, cols)
    } else {
        seq![]
    }
}

/// The failure of a tensor that has another length than expected.
pub open spec fn wrong_len(e: Option<Fault>, name: Seq<char>, data: Seq<Scalar>, len: int) -> Option<Fault> {
    first(
        e,
        if data.len() == len {
            None
        } else {
            Some(Fault::TensorLength { name, expected: len, found: data.len() as int })
        },
    )
}

/// The elements `from .. to` of a list.
pub fn copy_range(m: &Vec<Scalar>, from: usize, to: usize) -> (r: Vec<Scalar>)
    requires
        from <= to <= m@.len(),
    ensures
        r@ == m@.subrange(from as int, to as int),
{
    let mut out: Vec<Scalar> = Vec::new();
    let mut k: usize = from;
    while k < to
        invariant
            from <= k <= to <= m@.len(),
            out@ == m@.subrange(from as int, k as int),
        decreases to - k,
    {
        out.push(m[k].clone());
        k = k + 1;
        assert(out@ =~= m@.subrange(from as int, k as int));
    }
    out
}

/// Rows `row .. row + rows` of a matrix with `total` rows of `cols` elements,
/// transposed.
pub fn transpose_rows(m: &Vec<Scalar>, row: usize, rows: usize, total: usize, cols: usize) -> (r: Vec<
    Scalar,
>)
    requires
        row + rows <= total,
        m@.len() >= total * cols,
    ensures
        r@ == transposed(
            m@.subrange(row * cols, (row + rows) * cols),
            rows as int,
            cols as int,
        ),
{
    assert(m.len() == m@.len());
    proof {
        rows_inside(row as int, rows as int, total as int, cols as int);
    }
    let part = copy_range(m, row * cols, (row + rows) * cols);
    transpose_matrix(&part, rows, cols)
}

/// A block of rows lies inside its matrix.
pub proof fn rows_inside(row: int, rows: int, total: int, cols: int)
    requires
        0 <= row,
        0 <= rows,
        row + rows <= total,
        0 <= cols,
    ensures
        0 <= row * cols <= (row + rows) * cols <= total * cols,
        (row + rows) * cols - row * cols == rows * cols,
{
    assert(0 <= row * cols <= (row + rows) * cols && (row + rows) * cols <= total * cols && (row + rows)
        * cols - row * cols == rows * cols) by (nonlinear_arith)
        requires
            0 <= row,
            0 <= rows,
            row + rows <= total,
            0 <= cols,
    ;
}

impl<'a> Loader<'a> {
    /// Starts to read.
    pub fn new(st: &'a Checkpoint) -> (r: Loader<'a>)
        ensures
            r.st == st,
            r.fault() is None,
    {
        Loader { st, error: None }
    }

    /// Remembers a failure, unless there was one before.
    pub fn fail(&mut self, e: LoadError)
        ensures
            final(self).st == old(self).st,
            final(self).fault() == first(old(self).fault(), Some(e@)),
    {
        if self.error.is_none() {
            self.error = Some(e);
        }
    }

    /// Remembers a wrong length of the tensor of this name.
    pub fn expect_len(&mut self, name: &str, data: &Data, len: usize)
        ensures
            final(self).st == old(self).st,
            final(self).fault() == wrong_len(old(self).fault(), name@, data@, len as int),
    {
        if data.len() != len {
            let name = String::from_str(name);
            self.fail(LoadError::TensorLength { name, expected: len, found: data.len() });
        }
    }

    /// Reads a tensor of any length.
    pub fn take(&mut self, name: &str) -> (r: Data)
        ensures
            final(self).st == old(self).st,
            final(self).fault() == old(self).st.need(old(self).fault(), name@),
            r@ == old(self).st.data(name@),
    {
        match self.st.get(name) {
            None => {
                self.fail(LoadError::MissingTensor { name: String::from_str(name) });
                let v: Vec<Scalar> = Vec::new();
                Arc::new(v)
            },
            Some(d) => d,
        }
    }

    /// Reads a tensor of `len` elements.
    pub fn take_len(&mut self, name: &str, len: usize) -> (r: Data)
        ensures
            final(self).st == old(self).st,
            final(self).fault() == old(self).st.need_len(old(self).fault(), name@, len as int),
            r@ == old(self).st.data(name@),
    {
        match self.st.get(name) {
            None => {
                self.fail(LoadError::MissingTensor { name: String::from_str(name) });
                let v: Vec<Scalar> = Vec::new();
                Arc::new(v)
            },
            Some(d) => {
                if d.len() != len {
                    let name = String::from_str(name);
                    self.fail(LoadError::TensorLength { name, expected: len, found: d.len() });
                }
                d
            },
        }
    }

    /// Reads a matrix stored as `(fan_out, fan_in)` and lays it out as
    /// `(fan_in, fan_out)`.
    pub fn take_matrix(&mut self, name: &str, fan_out: usize, fan_in: usize) -> (r: Data)
        requires
            fan_out * fan_in <= usize::MAX,
        ensures
            final(self).st == old(self).st,
            final(self).fault() == old(self).st.need_len(old(self).fault(), name@, fan_out * fan_in),
            r@ == loaded_matrix(old(self).st, name@, fan_out as int, fan_in as int),
    {
        let d = self.take_len(name, fan_out * fan_in);
        if d.len() == fan_out * fan_in {
            Arc::new(transpose_matrix(&d, fan_out, fan_in))
        } else {
            let v: Vec<Scalar> = Vec::new();
            Arc::new(v)
        }
    }
}

} // verus!

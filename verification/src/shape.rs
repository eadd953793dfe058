//! How each operation derives the extents of its result.
//!
//! A rule is a spec function from the extents of the operands to the extents
//! of the result, or `None` where the operands do not fit the operation. The
//! executable function beside it computes the same thing.

use vstd::prelude::*;

verus! {

/// Extents as mathematical integers.
pub open spec fn ints(d: Seq<usize>) -> Seq<int> {
    d.map_values(|x: usize| x as int)
}

/// The mathematical reading of an executable rule's answer.
pub open spec fn ints_opt(d: Option<Vec<usize>>) -> Option<Seq<int>> {
    match d {
        None => None,
        Some(v) => Some(ints(v@)),
    }
}

/// Copies extents.
pub fn copy_dims(d: &Vec<usize>) -> (r: Vec<usize>)
    ensures
        r@ == d@,
{
    slice_dims(d.as_slice())
}

/// Copies extents out of a slice.
pub fn slice_dims(d: &[usize]) -> (r: Vec<usize>)
    ensures
        r@ == d@,
{
    let mut v: Vec<usize> = Vec::new();
    let mut i: usize = 0;
    while i < d.len()
        invariant
            i <= d@.len(),
            v@ == d@.subrange(0, i as int),
        decreases d@.len() - i,
    {
        v.push(d[i]);
        i = i + 1;
    }
    assert(d@.subrange(0, d@.len() as int) =~= d@);
    v
}

/// Number of elements of a tensor with these extents.
pub open spec fn product(d: Seq<int>) -> int
    decreases d.len(),
{
    if d.len() == 0 {
        1
    } else {
        product(d.drop_last()) * d.last()
    }
}

/// Whether multiplying the extents from the left stays within `usize`.
pub open spec fn fits(d: Seq<int>) -> bool
    decreases d.len(),
{
    d.len() == 0 || (fits(d.drop_last()) && product(d) <= usize::MAX)
}

/// The number of elements, where it can be counted.
pub fn numel(d: &[usize]) -> (r: Option<usize>)
    ensures
        r is Some <==> fits(ints(d@)),
        r is Some ==> r->Some_0 == product(ints(d@)),
{
    let mut n: usize = 1;
    let mut i: usize = 0;
    while i < d.len()
        invariant
            i <= d@.len(),
            fits(ints(d@.subrange(0, i as int))),
            n == product(ints(d@.subrange(0, i as int))),
        decreases d@.len() - i,
    {
        let ghost p = ints(d@.subrange(0, i as int));
        let ghost q = ints(d@.subrange(0, i + 1));
        assert(q.drop_last() =~= p);
        assert(q.last() == d@[i as int]);
        match n.checked_mul(d[i]) {
            None => {
                proof {
                    assert(ints(d@).subrange(0, i + 1) =~= q);
                    unfit_prefix(ints(d@), i + 1);
                }
                return None;
            },
            Some(m) => {
                n = m;
            },
        }
        i = i + 1;
    }
    assert(d@.subrange(0, d@.len() as int) =~= d@);
    Some(n)
}

proof fn unfit_prefix(d: Seq<int>, k: int)
    requires
        0 <= k <= d.len(),
        !fits(d.subrange(0, k)),
    ensures
        !fits(d),
    decreases d.len() - k,
{
    if k == d.len() {
        assert(d.subrange(0, k) =~= d);
    } else {
        assert(d.subrange(0, k + 1).drop_last() =~= d.subrange(0, k));
        unfit_prefix(d, k + 1);
    }
}

/// A tensor keeps its elements, in order, under new extents.
pub open spec fn reshape_rule(d: Seq<int>, to: Seq<int>) -> Option<Seq<int>> {
    if fits(d) && fits(to) && product(d) == product(to) {
        Some(to)
    } else {
        None
    }
}

pub fn reshape_dims(d: &Vec<usize>, to: &[usize]) -> (r: Option<Vec<usize>>)
    ensures
        ints_opt(r) == reshape_rule(ints(d@), ints(to@)),
{
    match (numel(d.as_slice()), numel(to)) {
        (Some(m), Some(n)) => {
            if m == n {
                Some(slice_dims(to))
            } else {
                None
            }
        },
        _ => None,
    }
}

/// `len` elements laid out under the given extents.
pub open spec fn const_rule(len: int, to: Seq<int>) -> Option<Seq<int>> {
    if fits(to) && product(to) == len {
        Some(to)
    } else {
        None
    }
}

pub fn const_dims(len: usize, to: &[usize]) -> (r: Option<Vec<usize>>)
    ensures
        ints_opt(r) == const_rule(len as int, ints(to@)),
{
    match numel(to) {
        Some(n) => if n == len {
            Some(slice_dims(to))
        } else {
            None
        },
        None => None,
    }
}

/// Whether extent `a` can be stretched to extent `b`.
pub open spec fn stretches(a: int, b: int) -> bool {
    a == b || a == 1
}

/// Trailing extents agree or are one.
pub open spec fn broadcast_to_rule(d: Seq<int>, to: Seq<int>) -> Option<Seq<int>> {
    if d.len() <= to.len() && forall|i: int|
        0 <= i < d.len() ==> stretches(#[trigger] d[i], to[to.len() - d.len() + i]) {
        Some(to)
    } else {
        None
    }
}

pub fn broadcast_to_dims(d: &Vec<usize>, to: &[usize]) -> (r: Option<Vec<usize>>)
    ensures
        ints_opt(r) == broadcast_to_rule(ints(d@), ints(to@)),
{
    if d.len() > to.len() {
        return None;
    }
    let n: usize = to.len();
    let off: usize = n - d.len();
    let ghost a = ints(d@);
    let ghost b = ints(to@);
    let mut i: usize = 0;
    while i < d.len()
        invariant
            i <= d@.len() <= to@.len() == n,
            off == n - d@.len(),
            a == ints(d@),
            b == ints(to@),
            forall|j: int| 0 <= j < i ==> stretches(#[trigger] a[j], b[off + j]),
        decreases d@.len() - i,
    {
        if d[i] != to[off + i] && d[i] != 1 {
            assert(!stretches(a[i as int], b[off + i]));
            return None;
        }
        i = i + 1;
    }
    Some(slice_dims(to))
}

/// Extent of position `i`, counted from the right of a rank-`n` result.
pub open spec fn aligned(d: Seq<int>, n: int, i: int) -> int {
    if i < n - d.len() {
        1
    } else {
        d[i - (n - d.len())]
    }
}

/// Rank of the result of a broadcasting operation.
pub open spec fn max_rank(a: Seq<int>, b: Seq<int>) -> int {
    if a.len() < b.len() {
        b.len() as int
    } else {
        a.len() as int
    }
}

/// Operands stretch to a common shape, aligned at the trailing extent.
pub open spec fn broadcast_rule(a: Seq<int>, b: Seq<int>) -> Option<Seq<int>> {
    let n = max_rank(a, b);
    if forall|i: int| #![trigger aligned(a, n, i)]
        0 <= i < n ==> (stretches(aligned(a, n, i), aligned(b, n, i)) || aligned(b, n, i) == 1) {
        Some(Seq::new(n as nat, |i: int|
            if aligned(a, n, i) == 1 { aligned(b, n, i) } else { aligned(a, n, i) }))
    } else {
        None
    }
}

pub fn broadcast_dims(a: &Vec<usize>, b: &Vec<usize>) -> (r: Option<Vec<usize>>)
    ensures
        ints_opt(r) == broadcast_rule(ints(a@), ints(b@)),
{
    let n: usize = if a.len() < b.len() { b.len() } else { a.len() };
    let ghost x = ints(a@);
    let ghost y = ints(b@);
    let ghost f = |i: int| if aligned(x, n as int, i) == 1 { aligned(y, n as int, i) } else { aligned(x, n as int, i) };
    let mut out: Vec<usize> = Vec::new();
    let mut i: usize = 0;
    while i < n
        invariant
            i <= n,
            n == max_rank(x, y),
            x == ints(a@),
            y == ints(b@),
            f == |i: int| if aligned(x, n as int, i) == 1 { aligned(y, n as int, i) } else { aligned(x, n as int, i) },
            out@.len() == i,
            forall|j: int| #![trigger out@[j]] 0 <= j < i ==> out@[j] as int == f(j),
            forall|j: int| #![trigger aligned(x, n as int, j)] 0 <= j < i ==>
                (stretches(aligned(x, n as int, j), aligned(y, n as int, j)) || aligned(y, n as int, j) == 1),
        decreases n - i,
    {
        let p: usize = if i < n - a.len() { 1 } else { a[i - (n - a.len())] };
        let q: usize = if i < n - b.len() { 1 } else { b[i - (n - b.len())] };
        assert(p == aligned(x, n as int, i as int));
        assert(q == aligned(y, n as int, i as int));
        if p != q && p != 1 && q != 1 {
            return None;
        }
        out.push(if p == 1 { q } else { p });
        i = i + 1;
    }
    assert(ints(out@) =~= Seq::new(n as nat, f));
    Some(out)
}

/// Equal extents, as the elementwise operations of two tensors ask.
pub open spec fn same_rule(a: Seq<int>, b: Seq<int>) -> Option<Seq<int>> {
    if a == b {
        Some(a)
    } else {
        None
    }
}

pub fn dims_equal(a: &Vec<usize>, b: &Vec<usize>) -> (r: bool)
    ensures
        r <==> ints(a@) == ints(b@),
{
    if a.len() != b.len() {
        assert(ints(a@).len() != ints(b@).len());
        return false;
    }
    let mut i: usize = 0;
    while i < a.len()
        invariant
            i <= a@.len() == b@.len(),
            forall|j: int| 0 <= j < i ==> a@[j] == b@[j],
        decreases a@.len() - i,
    {
        if a[i] != b[i] {
            assert(ints(a@)[i as int] != ints(b@)[i as int]);
            return false;
        }
        i = i + 1;
    }
    assert(ints(a@) =~= ints(b@));
    true
}

pub fn same_dims(a: &Vec<usize>, b: &Vec<usize>) -> (r: Option<Vec<usize>>)
    ensures
        ints_opt(r) == same_rule(ints(a@), ints(b@)),
{
    if dims_equal(a, b) {
        Some(copy_dims(a))
    } else {
        None
    }
}

/// Axes in a new order: axis `i` of the result is axis `ax[i]` of the operand.
pub open spec fn permute_rule(d: Seq<int>, ax: Seq<int>) -> Option<Seq<int>> {
    if ax.len() == d.len() && (forall|i: int| 0 <= i < ax.len() ==> 0 <= #[trigger] ax[i] < d.len())
        && (forall|i: int, j: int| 0 <= i < j < ax.len() ==> #[trigger] ax[i] != #[trigger] ax[j]) {
        Some(Seq::new(d.len(), |i: int| d[ax[i]]))
    } else {
        None
    }
}

pub fn permute_dims(d: &Vec<usize>, ax: &[usize]) -> (r: Option<Vec<usize>>)
    ensures
        ints_opt(r) == permute_rule(ints(d@), ints(ax@)),
{
    if ax.len() != d.len() {
        return None;
    }
    let ghost x = ints(ax@);
    let mut out: Vec<usize> = Vec::new();
    let mut i: usize = 0;
    while i < ax.len()
        invariant
            i <= ax@.len() == d@.len(),
            x == ints(ax@),
            out@.len() == i,
            forall|j: int| 0 <= j < i ==> 0 <= #[trigger] x[j] < d@.len(),
            forall|j: int| 0 <= j < i ==> #[trigger] out@[j] == d@[x[j]],
            forall|j: int, k: int| 0 <= j < k < i ==> #[trigger] x[j] != #[trigger] x[k],
        decreases ax@.len() - i,
    {
        if ax[i] >= d.len() {
            assert(x[i as int] >= d@.len());
            return None;
        }
        let mut j: usize = 0;
        while j < i
            invariant
                j <= i < ax@.len() == d@.len(),
                x == ints(ax@),
                forall|k: int| 0 <= k < j ==> #[trigger] x[k] != x[i as int],
            decreases i - j,
        {
            if ax[j] == ax[i] {
                assert(x[j as int] == x[i as int]);
                return None;
            }
            j = j + 1;
        }
        out.push(d[ax[i]]);
        i = i + 1;
    }
    assert(ints(out@) =~= Seq::new(d@.len(), |i: int| ints(d@)[x[i]]));
    Some(out)
}

/// Two axes exchanged.
pub open spec fn swap_rule(d: Seq<int>, i: int, j: int) -> Option<Seq<int>> {
    if 0 <= i < d.len() && 0 <= j < d.len() {
        Some(d.update(i, d[j]).update(j, d[i]))
    } else {
        None
    }
}

pub fn swap_dims(d: &Vec<usize>, i: usize, j: usize) -> (r: Option<Vec<usize>>)
    ensures
        ints_opt(r) == swap_rule(ints(d@), i as int, j as int),
{
    if i >= d.len() || j >= d.len() {
        return None;
    }
    let mut out = copy_dims(d);
    out.set(i, d[j]);
    out.set(j, d[i]);
    assert(ints(out@) =~= ints(d@).update(i as int, ints(d@)[j as int]).update(j as int, ints(d@)[i as int]));
    Some(out)
}

/// The last two axes exchanged.
pub open spec fn transpose_rule(d: Seq<int>) -> Option<Seq<int>> {
    if d.len() < 2 {
        None
    } else {
        swap_rule(d, d.len() - 2, d.len() - 1)
    }
}

pub fn transpose_dims(d: &Vec<usize>) -> (r: Option<Vec<usize>>)
    ensures
        ints_opt(r) == transpose_rule(ints(d@)),
{
    if d.len() < 2 {
        None
    } else {
        swap_dims(d, d.len() - 2, d.len() - 1)
    }
}

/// `len` positions of one axis, from `start` on.
pub open spec fn narrow_rule(d: Seq<int>, axis: int, start: int, len: int) -> Option<Seq<int>> {
    if 0 <= axis < d.len() && start + len <= d[axis] {
        Some(d.update(axis, len))
    } else {
        None
    }
}

pub fn narrow_dims(d: &Vec<usize>, axis: usize, start: usize, len: usize) -> (r: Option<Vec<usize>>)
    ensures
        ints_opt(r) == narrow_rule(ints(d@), axis as int, start as int, len as int),
{
    if axis >= d.len() || start > d[axis] || len > d[axis] - start {
        return None;
    }
    let mut out = copy_dims(d);
    out.set(axis, len);
    assert(ints(out@) =~= ints(d@).update(axis as int, len as int));
    Some(out)
}

/// One of `n` equal pieces of an axis.
pub open spec fn chunk_rule(d: Seq<int>, axis: int, n: int) -> Option<Seq<int>> {
    if 0 <= axis < d.len() && n > 0 && d[axis] % n == 0 {
        Some(d.update(axis, d[axis] / n))
    } else {
        None
    }
}

pub fn chunk_dims(d: &Vec<usize>, axis: usize, n: usize) -> (r: Option<Vec<usize>>)
    ensures
        ints_opt(r) == chunk_rule(ints(d@), axis as int, n as int),
{
    if axis >= d.len() || n == 0 || d[axis] % n != 0 {
        return None;
    }
    let mut out = copy_dims(d);
    out.set(axis, d[axis] / n);
    assert(ints(out@) =~= ints(d@).update(axis as int, d@[axis as int] as int / n as int));
    Some(out)
}

/// Two tensors one after the other along an axis.
pub open spec fn concat_rule(a: Seq<int>, b: Seq<int>, axis: int) -> Option<Seq<int>> {
    if 0 <= axis < a.len() && a.len() == b.len() && a.update(axis, 0) == b.update(axis, 0)
        && a[axis] + b[axis] <= usize::MAX {
        Some(a.update(axis, a[axis] + b[axis]))
    } else {
        None
    }
}

pub fn concat_dims(a: &Vec<usize>, b: &Vec<usize>, axis: usize) -> (r: Option<Vec<usize>>)
    ensures
        ints_opt(r) == concat_rule(ints(a@), ints(b@), axis as int),
{
    if axis >= a.len() || a.len() != b.len() {
        return None;
    }
    let mut x = copy_dims(a);
    let mut y = copy_dims(b);
    x.set(axis, 0);
    y.set(axis, 0);
    assert(ints(x@) =~= ints(a@).update(axis as int, 0));
    assert(ints(y@) =~= ints(b@).update(axis as int, 0));
    if !dims_equal(&x, &y) {
        return None;
    }
    match a[axis].checked_add(b[axis]) {
        None => None,
        Some(n) => {
            x.set(axis, n);
            assert(ints(x@) =~= ints(a@).update(axis as int, n as int));
            Some(x)
        },
    }
}

/// Matrix product over the last two axes, with equal leading axes or with one
/// matrix on the right.
pub open spec fn matmul_rule(a: Seq<int>, b: Seq<int>) -> Option<Seq<int>> {
    let n = a.len() as int;
    if n >= 2 && b.len() == 2 && a[n - 1] == b[0] {
        Some(a.update(n - 1, b[1]))
    } else if n >= 2 && b.len() == n && a.take(n - 2) == b.take(n - 2) && a[n - 1] == b[n - 2] {
        Some(a.update(n - 1, b[n - 1]))
    } else {
        None
    }
}

pub fn matmul_dims(a: &Vec<usize>, b: &Vec<usize>) -> (r: Option<Vec<usize>>)
    ensures
        ints_opt(r) == matmul_rule(ints(a@), ints(b@)),
{
    let n: usize = a.len();
    if n >= 2 && b.len() == 2 && a[n - 1] == b[0] {
        let mut out = copy_dims(a);
        out.set(n - 1, b[1]);
        assert(ints(out@) =~= ints(a@).update(n - 1, ints(b@)[1]));
        return Some(out);
    }
    if n < 2 || b.len() != n {
        return None;
    }
    let ghost x = ints(a@);
    let ghost y = ints(b@);
    let mut i: usize = 0;
    while i < n - 2
        invariant
            2 <= n == a@.len() == b@.len(),
            i <= n - 2,
            x == ints(a@),
            y == ints(b@),
            forall|j: int| 0 <= j < i ==> x[j] == y[j],
        decreases n - i,
    {
        if a[i] != b[i] {
            assert(x.take(n - 2)[i as int] != y.take(n - 2)[i as int]);
            return None;
        }
        i = i + 1;
    }
    assert(x.take(n - 2) =~= y.take(n - 2));
    if a[n - 1] != b[n - 2] {
        return None;
    }
    let mut out = copy_dims(a);
    out.set(n - 1, b[n - 1]);
    assert(ints(out@) =~= x.update(n - 1, y[n - 1]));
    Some(out)
}

/// The last axis mapped from `fan_in` to `fan_out` features.
pub open spec fn linear_rule(d: Seq<int>, fan_in: int, fan_out: int) -> Option<Seq<int>> {
    if d.len() >= 1 && d.last() == fan_in {
        Some(d.update(d.len() - 1, fan_out))
    } else {
        None
    }
}

pub fn linear_dims(d: &Vec<usize>, fan_in: usize, fan_out: usize) -> (r: Option<Vec<usize>>)
    ensures
        ints_opt(r) == linear_rule(ints(d@), fan_in as int, fan_out as int),
{
    let n: usize = d.len();
    if n < 1 || d[n - 1] != fan_in {
        return None;
    }
    let mut out = copy_dims(d);
    out.set(n - 1, fan_out);
    assert(ints(out@) =~= ints(d@).update(n - 1, fan_out as int));
    Some(out)
}

/// An axis grown by `left` and `right` positions.
pub open spec fn pad_rule(d: Seq<int>, axis: int, left: int, right: int) -> Option<Seq<int>> {
    if 0 <= axis < d.len() && d[axis] + left + right <= usize::MAX {
        Some(d.update(axis, d[axis] + left + right))
    } else {
        None
    }
}

pub fn pad_dims(d: &Vec<usize>, axis: usize, left: usize, right: usize) -> (r: Option<Vec<usize>>)
    ensures
        ints_opt(r) == pad_rule(ints(d@), axis as int, left as int, right as int),
{
    if axis >= d.len() {
        return None;
    }
    match d[axis].checked_add(left) {
        None => None,
        Some(m) => match m.checked_add(right) {
            None => None,
            Some(n) => {
                let mut out = copy_dims(d);
                out.set(axis, n);
                assert(ints(out@) =~= ints(d@).update(axis as int, n as int));
                Some(out)
            },
        },
    }
}

/// An axis whose positions are each repeated `n` times.
pub open spec fn repeat_rule(d: Seq<int>, axis: int, n: int) -> Option<Seq<int>> {
    if 0 <= axis < d.len() && d[axis] * n <= usize::MAX {
        Some(d.update(axis, d[axis] * n))
    } else {
        None
    }
}

pub fn repeat_dims(d: &Vec<usize>, axis: usize, n: usize) -> (r: Option<Vec<usize>>)
    ensures
        ints_opt(r) == repeat_rule(ints(d@), axis as int, n as int),
{
    if axis >= d.len() {
        return None;
    }
    match d[axis].checked_mul(n) {
        None => None,
        Some(m) => {
            let mut out = copy_dims(d);
            out.set(axis, m);
            assert(ints(out@) =~= ints(d@).update(axis as int, m as int));
            Some(out)
        },
    }
}

/// An axis reduced to one position and kept.
pub open spec fn keep_rule(d: Seq<int>, axis: int) -> Option<Seq<int>> {
    if 0 <= axis < d.len() {
        Some(d.update(axis, 1))
    } else {
        None
    }
}

pub fn keep_dims(d: &Vec<usize>, axis: usize) -> (r: Option<Vec<usize>>)
    ensures
        ints_opt(r) == keep_rule(ints(d@), axis as int),
{
    if axis >= d.len() {
        return None;
    }
    let mut out = copy_dims(d);
    out.set(axis, 1);
    assert(ints(out@) =~= ints(d@).update(axis as int, 1));
    Some(out)
}

/// An axis reduced away.
pub open spec fn drop_rule(d: Seq<int>, axis: int) -> Option<Seq<int>> {
    if 0 <= axis < d.len() {
        Some(d.remove(axis))
    } else {
        None
    }
}

pub fn drop_dims(d: &Vec<usize>, axis: usize) -> (r: Option<Vec<usize>>)
    ensures
        ints_opt(r) == drop_rule(ints(d@), axis as int),
{
    if axis >= d.len() {
        return None;
    }
    let mut out = copy_dims(d);
    out.remove(axis);
    assert(ints(out@) =~= ints(d@).remove(axis as int));
    Some(out)
}

/// An axis of one position taken away.
pub open spec fn squeeze_rule(d: Seq<int>, axis: int) -> Option<Seq<int>> {
    if 0 <= axis < d.len() && d[axis] == 1 {
        Some(d.remove(axis))
    } else {
        None
    }
}

pub fn squeeze_dims(d: &Vec<usize>, axis: usize) -> (r: Option<Vec<usize>>)
    ensures
        ints_opt(r) == squeeze_rule(ints(d@), axis as int),
{
    if axis >= d.len() || d[axis] != 1 {
        return None;
    }
    drop_dims(d, axis)
}

/// An axis of one position put in.
pub open spec fn unsqueeze_rule(d: Seq<int>, axis: int) -> Option<Seq<int>> {
    if 0 <= axis <= d.len() {
        Some(d.insert(axis, 1))
    } else {
        None
    }
}

pub fn unsqueeze_dims(d: &Vec<usize>, axis: usize) -> (r: Option<Vec<usize>>)
    ensures
        ints_opt(r) == unsqueeze_rule(ints(d@), axis as int),
{
    if axis > d.len() {
        return None;
    }
    let mut out = copy_dims(d);
    out.insert(axis, 1);
    assert(ints(out@) =~= ints(d@).insert(axis as int, 1));
    Some(out)
}

/// One extent.
pub fn dims1(d0: usize) -> (r: Vec<usize>)
    ensures
        ints(r@) == seq![d0 as int],
{
    let v = vec![d0];
    assert(ints(v@) =~= seq![d0 as int]);
    v
}

/// Two extents.
pub fn dims2(d0: usize, d1: usize) -> (r: Vec<usize>)
    ensures
        ints(r@) == seq![d0 as int, d1 as int],
{
    let v = vec![d0, d1];
    assert(ints(v@) =~= seq![d0 as int, d1 as int]);
    v
}

/// Three extents.
pub fn dims3(d0: usize, d1: usize, d2: usize) -> (r: Vec<usize>)
    ensures
        ints(r@) == seq![d0 as int, d1 as int, d2 as int],
{
    let v = vec![d0, d1, d2];
    assert(ints(v@) =~= seq![d0 as int, d1 as int, d2 as int]);
    v
}

/// Four extents.
pub fn dims4(d0: usize, d1: usize, d2: usize, d3: usize) -> (r: Vec<usize>)
    ensures
        ints(r@) == seq![d0 as int, d1 as int, d2 as int, d3 as int],
{
    let v = vec![d0, d1, d2, d3];
    assert(ints(v@) =~= seq![d0 as int, d1 as int, d2 as int, d3 as int]);
    v
}

/// Five extents.
pub fn dims5(d0: usize, d1: usize, d2: usize, d3: usize, d4: usize) -> (r: Vec<usize>)
    ensures
        ints(r@) == seq![d0 as int, d1 as int, d2 as int, d3 as int, d4 as int],
{
    let v = vec![d0, d1, d2, d3, d4];
    assert(ints(v@) =~= seq![d0 as int, d1 as int, d2 as int, d3 as int, d4 as int]);
    v
}

/// Six extents.
pub fn dims6(d0: usize, d1: usize, d2: usize, d3: usize, d4: usize, d5: usize) -> (r: Vec<usize>)
    ensures
        ints(r@) == seq![d0 as int, d1 as int, d2 as int, d3 as int, d4 as int, d5 as int],
{
    let v = vec![d0, d1, d2, d3, d4, d5];
    assert(ints(v@) =~= seq![d0 as int, d1 as int, d2 as int, d3 as int, d4 as int, d5 as int]);
    v
}

/// Number of windows of `k` positions, `stride` apart, in `l` positions padded
/// by `pad` on both sides.
pub open spec fn windows(l: int, k: int, stride: int, pad: int) -> int {
    (l + 2 * pad - k) / stride + 1
}

/// Whether such windows exist.
pub open spec fn has_windows(l: int, k: int, stride: int, pad: int) -> bool {
    stride > 0 && l + 2 * pad <= usize::MAX && k <= l + 2 * pad && windows(l, k, stride, pad) <= usize::MAX
}

fn count_windows(l: usize, k: usize, stride: usize, pad: usize) -> (r: Option<usize>)
    ensures
        r is Some <==> has_windows(l as int, k as int, stride as int, pad as int),
        r is Some ==> r->Some_0 == windows(l as int, k as int, stride as int, pad as int),
{
    if stride == 0 {
        return None;
    }
    match l.checked_add(pad) {
        None => None,
        Some(m) => match m.checked_add(pad) {
            None => None,
            Some(n) => {
                if k > n {
                    None
                } else {
                    ((n - k) / stride).checked_add(1)
                }
            },
        },
    }
}

/// Whether a kernel for `groups` groups maps `c_in` channels to `c_out`:
/// each group of outputs reads its own `per_group` inputs.
pub open spec fn grouped(c_in: int, per_group: int, c_out: int, groups: int) -> bool {
    groups > 0 && c_in == per_group * groups && c_out % groups == 0
}

fn is_grouped(c_in: usize, per_group: usize, c_out: usize, groups: usize) -> (r: bool)
    ensures
        r <==> grouped(c_in as int, per_group as int, c_out as int, groups as int),
{
    if groups == 0 || c_out % groups != 0 {
        return false;
    }
    match per_group.checked_mul(groups) {
        None => false,
        Some(n) => n == c_in,
    }
}

/// `(batch, c_in, l)` under a kernel `(c_out, c_in / groups, k)`.
pub open spec fn conv1d_rule(d: Seq<int>, w: Seq<int>, stride: int, pad: int, groups: int) -> Option<
    Seq<int>,
> {
    if d.len() == 3 && w.len() == 3 && grouped(d[1], w[1], w[0], groups) && has_windows(
        d[2],
        w[2],
        stride,
        pad,
    ) {
        Some(seq![d[0], w[0], windows(d[2], w[2], stride, pad)])
    } else {
        None
    }
}

pub fn conv1d_dims(d: &Vec<usize>, w: &Vec<usize>, stride: usize, pad: usize, groups: usize) -> (r:
    Option<Vec<usize>>)
    ensures
        ints_opt(r) == conv1d_rule(ints(d@), ints(w@), stride as int, pad as int, groups as int),
{
    if d.len() != 3 || w.len() != 3 || !is_grouped(d[1], w[1], w[0], groups) {
        return None;
    }
    match count_windows(d[2], w[2], stride, pad) {
        None => None,
        Some(n) => Some(dims3(d[0], w[0], n)),
    }
}

/// `(batch, c_in, h, w)` under a kernel `(c_out, c_in / groups, k, k)`.
pub open spec fn conv2d_rule(d: Seq<int>, w: Seq<int>, stride: int, pad: int, groups: int) -> Option<
    Seq<int>,
> {
    if d.len() == 4 && w.len() == 4 && grouped(d[1], w[1], w[0], groups) && has_windows(
        d[2],
        w[2],
        stride,
        pad,
    ) && has_windows(d[3], w[3], stride, pad) {
        Some(
            seq![
                d[0],
                w[0],
                windows(d[2], w[2], stride, pad),
                windows(d[3], w[3], stride, pad),
            ],
        )
    } else {
        None
    }
}

pub fn conv2d_dims(d: &Vec<usize>, w: &Vec<usize>, stride: usize, pad: usize, groups: usize) -> (r:
    Option<Vec<usize>>)
    ensures
        ints_opt(r) == conv2d_rule(ints(d@), ints(w@), stride as int, pad as int, groups as int),
{
    if d.len() != 4 || w.len() != 4 || !is_grouped(d[1], w[1], w[0], groups) {
        return None;
    }
    match (count_windows(d[2], w[2], stride, pad), count_windows(d[3], w[3], stride, pad)) {
        (Some(m), Some(n)) => Some(dims4(d[0], w[0], m, n)),
        _ => None,
    }
}

/// `(batch, c_in, l)` under a kernel `(c_in, c_out / groups, k)`: position `t`
/// of the operand reaches the positions `t * stride .. t * stride + k` of the
/// result.
pub open spec fn conv_transpose1d_rule(d: Seq<int>, w: Seq<int>, stride: int, groups: int) -> Option<
    Seq<int>,
> {
    if d.len() == 3 && w.len() == 3 && groups > 0 && d[1] == w[0] && d[1] % groups == 0 && d[2] > 0
        && w[2] > 0 && stride > 0 && w[1] * groups <= usize::MAX && (d[2] - 1) * stride + w[2]
        <= usize::MAX {
        Some(seq![d[0], w[1] * groups, (d[2] - 1) * stride + w[2]])
    } else {
        None
    }
}

pub fn conv_transpose1d_dims(d: &Vec<usize>, w: &Vec<usize>, stride: usize, groups: usize) -> (r:
    Option<Vec<usize>>)
    ensures
        ints_opt(r) == conv_transpose1d_rule(ints(d@), ints(w@), stride as int, groups as int),
{
    if d.len() != 3 || w.len() != 3 || groups == 0 || d[1] != w[0] || d[1] % groups != 0 || d[2] == 0
        || w[2] == 0 || stride == 0 {
        return None;
    }
    match (w[1].checked_mul(groups), (d[2] - 1).checked_mul(stride)) {
        (Some(c), Some(m)) => match m.checked_add(w[2]) {
            None => None,
            Some(n) => Some(dims3(d[0], c, n)),
        },
        _ => None,
    }
}

/// `(batch, seq, heads * width)` seen as `(batch, heads, seq, width)`.
pub open spec fn split_heads_rule(d: Seq<int>, heads: int, width: int) -> Option<Seq<int>> {
    if d.len() == 3 && d[2] == heads * width {
        Some(seq![d[0], heads, d[1], width])
    } else {
        None
    }
}

pub fn split_heads_dims(d: &Vec<usize>, heads: usize, width: usize) -> (r: Option<Vec<usize>>)
    ensures
        ints_opt(r) == split_heads_rule(ints(d@), heads as int, width as int),
{
    if d.len() != 3 {
        return None;
    }
    match heads.checked_mul(width) {
        None => None,
        Some(n) => if n == d[2] {
            Some(dims4(d[0], heads, d[1], width))
        } else {
            None
        },
    }
}

/// `(batch, heads, seq, width)` seen as `(batch, seq, heads * width)`.
pub open spec fn merge_heads_rule(d: Seq<int>) -> Option<Seq<int>> {
    if d.len() == 4 && d[1] * d[3] <= usize::MAX {
        Some(seq![d[0], d[2], d[1] * d[3]])
    } else {
        None
    }
}

pub fn merge_heads_dims(d: &Vec<usize>) -> (r: Option<Vec<usize>>)
    ensures
        ints_opt(r) == merge_heads_rule(ints(d@)),
{
    if d.len() != 4 {
        return None;
    }
    match d[1].checked_mul(d[3]) {
        None => None,
        Some(n) => Some(dims3(d[0], d[2], n)),
    }
}

/// `(batch, c, h, w)` averaged to `(batch, c)`.
pub open spec fn pool_rule(d: Seq<int>) -> Option<Seq<int>> {
    if d.len() == 4 {
        Some(seq![d[0], d[1]])
    } else {
        None
    }
}

pub fn pool_dims(d: &Vec<usize>) -> (r: Option<Vec<usize>>)
    ensures
        ints_opt(r) == pool_rule(ints(d@)),
{
    if d.len() == 4 {
        Some(dims2(d[0], d[1]))
    } else {
        None
    }
}

/// Positions of one axis picked by a list of indices.
pub open spec fn select_rule(d: Seq<int>, axis: int, ids: Seq<int>) -> Option<Seq<int>> {
    if 0 <= axis < d.len() && ids.len() == 1 {
        Some(d.update(axis, ids[0]))
    } else {
        None
    }
}

pub fn select_dims(d: &Vec<usize>, axis: usize, ids: &Vec<usize>) -> (r: Option<Vec<usize>>)
    ensures
        ints_opt(r) == select_rule(ints(d@), axis as int, ints(ids@)),
{
    if axis >= d.len() || ids.len() != 1 {
        return None;
    }
    let mut out = copy_dims(d);
    out.set(axis, ids[0]);
    assert(ints(out@) =~= ints(d@).update(axis as int, ids@[0] as int));
    Some(out)
}

/// Rotation of `(batch, heads, seq, width)` by tables `(seq, width)`.
pub open spec fn rope_rule(d: Seq<int>, c: Seq<int>, s: Seq<int>) -> Option<Seq<int>> {
    if d.len() == 4 && d[3] % 2 == 0 && c == seq![d[2], d[3]] && s == c {
        Some(d)
    } else {
        None
    }
}

pub fn rope_dims(d: &Vec<usize>, c: &Vec<usize>, s: &Vec<usize>) -> (r: Option<Vec<usize>>)
    ensures
        ints_opt(r) == rope_rule(ints(d@), ints(c@), ints(s@)),
{
    if d.len() != 4 || d[3] % 2 != 0 {
        return None;
    }
    let t = dims2(d[2], d[3]);
    if dims_equal(c, &t) && dims_equal(s, c) {
        Some(copy_dims(d))
    } else {
        None
    }
}

/// Depthwise convolution of an operand already padded on the left:
/// `(batch, c, l + k - 1)` under a kernel `(c, 1, k)` with a bias `(c)`.
pub open spec fn causal_conv_rule(d: Seq<int>, w: Seq<int>, b: Seq<int>) -> Option<Seq<int>> {
    if d.len() == 3 && w.len() == 3 && w[0] == d[1] && w[1] == 1 && 1 <= w[2] <= d[2] && b
        == seq![d[1]] {
        Some(seq![d[0], d[1], d[2] - w[2] + 1])
    } else {
        None
    }
}

pub fn causal_conv_dims(d: &Vec<usize>, w: &Vec<usize>, b: &Vec<usize>) -> (r: Option<Vec<usize>>)
    ensures
        ints_opt(r) == causal_conv_rule(ints(d@), ints(w@), ints(b@)),
{
    if d.len() != 3 || w.len() != 3 || w[0] != d[1] || w[1] != 1 || w[2] < 1 || w[2] > d[2] {
        return None;
    }
    let t = dims1(d[1]);
    if dims_equal(b, &t) {
        Some(dims3(d[0], d[1], d[2] - w[2] + 1))
    } else {
        None
    }
}

/// Selective scan of `u (batch, seq, d)` with steps `delta` of the same shape,
/// `a (d, n)` and `b`, `c (batch, seq, n)`.
pub open spec fn scan_rule(u: Seq<int>, delta: Seq<int>, a: Seq<int>, b: Seq<int>, c: Seq<int>) -> Option<
    Seq<int>,
> {
    if u.len() == 3 && delta == u && a.len() == 2 && a[0] == u[2] && b == seq![u[0], u[1], a[1]] && c
        == b {
        Some(u)
    } else {
        None
    }
}

pub fn scan_dims(
    u: &Vec<usize>,
    delta: &Vec<usize>,
    a: &Vec<usize>,
    b: &Vec<usize>,
    c: &Vec<usize>,
) -> (r: Option<Vec<usize>>)
    ensures
        ints_opt(r) == scan_rule(ints(u@), ints(delta@), ints(a@), ints(b@), ints(c@)),
{
    if u.len() != 3 || !dims_equal(delta, u) || a.len() != 2 || a[0] != u[2] {
        return None;
    }
    let t = dims3(u[0], u[1], a[1]);
    if dims_equal(b, &t) && dims_equal(c, b) {
        Some(copy_dims(u))
    } else {
        None
    }
}

/// Chunked state-space scan of `x (batch, seq, heads, width)` with steps
/// `dt (batch, seq, heads)`, `a (heads)` and `b`, `c (batch, seq, heads, n)`.
pub open spec fn ssd_rule(
    x: Seq<int>,
    dt: Seq<int>,
    a: Seq<int>,
    b: Seq<int>,
    c: Seq<int>,
    chunk: int,
) -> Option<Seq<int>> {
    if x.len() == 4 && dt == seq![x[0], x[1], x[2]] && a == seq![x[2]] && b.len() == 4 && b
        == seq![x[0], x[1], x[2], b[3]] && c == b && chunk > 0 && x[1] % chunk == 0 {
        Some(x)
    } else {
        None
    }
}

pub fn ssd_dims(
    x: &Vec<usize>,
    dt: &Vec<usize>,
    a: &Vec<usize>,
    b: &Vec<usize>,
    c: &Vec<usize>,
    chunk: usize,
) -> (r: Option<Vec<usize>>)
    ensures
        ints_opt(r) == ssd_rule(
            ints(x@),
            ints(dt@),
            ints(a@),
            ints(b@),
            ints(c@),
            chunk as int,
        ),
{
    if x.len() != 4 || b.len() != 4 || chunk == 0 || x[1] % chunk != 0 {
        return None;
    }
    let t3 = dims3(x[0], x[1], x[2]);
    let t1 = dims1(x[2]);
    let t4 = dims4(x[0], x[1], x[2], b[3]);
    if dims_equal(dt, &t3) && dims_equal(a, &t1) && dims_equal(b, &t4) && dims_equal(c, b) {
        Some(copy_dims(x))
    } else {
        None
    }
}

/// Long short-term memory over `x (batch, seq, n)` with gate kernels
/// `(4 h, n)` and `(4 h, h)` and two gate biases `(4 h)`.
pub open spec fn lstm_rule(
    x: Seq<int>,
    wi: Seq<int>,
    wh: Seq<int>,
    bi: Seq<int>,
    bh: Seq<int>,
    h: int,
) -> Option<Seq<int>> {
    if x.len() == 3 && 4 * h <= usize::MAX && wi == seq![4 * h, x[2]] && wh == seq![4 * h, h] && bi
        == seq![4 * h] && bh == bi {
        Some(seq![x[0], x[1], h])
    } else {
        None
    }
}

pub fn lstm_dims(
    x: &Vec<usize>,
    wi: &Vec<usize>,
    wh: &Vec<usize>,
    bi: &Vec<usize>,
    bh: &Vec<usize>,
    h: usize,
) -> (r: Option<Vec<usize>>)
    ensures
        ints_opt(r) == lstm_rule(ints(x@), ints(wi@), ints(wh@), ints(bi@), ints(bh@), h as int),
{
    if x.len() != 3 {
        return None;
    }
    match h.checked_mul(4) {
        None => None,
        Some(g) => {
            let ti = dims2(g, x[2]);
            let th = dims2(g, h);
            let tb = dims1(g);
            if dims_equal(wi, &ti) && dims_equal(wh, &th) && dims_equal(bi, &tb) && dims_equal(bh, bi) {
                Some(dims3(x[0], x[1], h))
            } else {
                None
            }
        },
    }
}

} // verus!

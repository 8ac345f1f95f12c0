use vstd::prelude::*;

use crate::dtype::DataType;
use crate::op::conf::CatConf;
use crate::op::tensor_split::{spec_piece, spec_slice_source, TensorSplitLayer};
use vstd::arithmetic::div_mod::{lemma_fundamental_div_mod, lemma_fundamental_div_mod_converse};
use crate::tensor::{
    lemma_nonzero_numel_bounds, lemma_numel_around, nonzero_numel, numel, numel_of_range,
    shape_fits, Tensor,
};

verus! {

/// Joins tensors end to end along one axis.
pub struct CatLayer {
    pub lconf: CatConf,
}

/// Why tensors could not be joined.
#[derive(Debug, Clone, Copy, PartialEq, Eq, Structural)]
pub enum CatError {
    /// There is no tensor to join.
    NoInput,
    /// The tensors do not all hold elements of one type.
    MixedTypes,
    /// The axis is negative or not an axis of the first tensor.
    AxisOutOfBounds,
    /// Some tensor differs from the first one in an extent other than the
    /// joining axis, or in its number of axes.
    IncompatibleShape,
    /// The joined tensor would be too large to address.
    Overflow,
}

impl CatConf {
    pub fn to_layer(self) -> (r: CatLayer)
        ensures
            r.lconf == self,
    {
        CatLayer { lconf: self }
    }
}

/// The element type that all the tensors share, or why there is none.
pub fn common_dtype(dtypes: &Vec<DataType>) -> (r: Result<DataType, CatError>)
    ensures
        r == (if dtypes@.len() == 0 {
            Err(CatError::NoInput)
        } else if forall|j: int| 0 <= j < dtypes@.len() ==> #[trigger] dtypes@[j] == dtypes@[0] {
            Ok(dtypes@[0])
        } else {
            Err(CatError::MixedTypes)
        }),
{
    if dtypes.len() == 0 {
        return Err(CatError::NoInput);
    }
    let first = dtypes[0];
    let mut j: usize = 0;
    while j < dtypes.len()
        invariant
            j <= dtypes@.len(),
            dtypes@.len() > 0,
            first == dtypes@[0],
            forall|q: int| 0 <= q < j ==> #[trigger] dtypes@[q] == first,
        decreases dtypes@.len() - j,
    {
        if dtypes[j] != first {
            return Err(CatError::MixedTypes);
        }
        j = j + 1;
    }
    Ok(first)
}

/// `s` and `t` have as many axes, with equal extents except along `ax`.
pub open spec fn same_but_axis(s: Seq<usize>, t: Seq<usize>, ax: int) -> bool {
    &&& s.len() == t.len()
    &&& forall|i: int| 0 <= i < s.len() && i != ax ==> s[i] == t[i]
}

/// The sum of the extents along `ax` of the shapes.
pub open spec fn axis_total(shapes: Seq<Seq<usize>>, ax: int) -> nat
    decreases shapes.len(),
{
    if shapes.len() == 0 {
        0
    } else {
        axis_total(shapes.drop_last(), ax) + shapes.last()[ax] as nat
    }
}

/// Row `a` of the joined elements: block `a` of each input in turn, the
/// block of input `j` being `widths[j]` elements long.
pub open spec fn cat_row<T>(datas: Seq<Seq<T>>, widths: Seq<int>, a: int) -> Seq<T>
    decreases datas.len(),
{
    if datas.len() == 0 {
        Seq::empty()
    } else {
        let j = datas.len() - 1;
        cat_row(datas.drop_last(), widths, a) + datas.last().subrange(
            a * widths[j],
            (a + 1) * widths[j],
        )
    }
}

/// The first `count` rows of the joined elements, one after the other.
pub open spec fn cat_rows<T>(datas: Seq<Seq<T>>, widths: Seq<int>, count: nat) -> Seq<T>
    decreases count,
{
    if count == 0 {
        Seq::empty()
    } else {
        cat_rows(datas, widths, (count - 1) as nat) + cat_row(datas, widths, count - 1)
    }
}

/// How many elements each input gives to a row: its extent along `ax`
/// times the number of elements per step along `ax`.
pub open spec fn cat_widths(shapes: Seq<Seq<usize>>, ax: int, inner: int) -> Seq<int> {
    Seq::new(shapes.len(), |j: int| shapes[j][ax] * inner)
}

/// The shapes of the tensors.
pub open spec fn shapes_of<T>(inputs: Seq<Tensor<T>>) -> Seq<Seq<usize>> {
    inputs.map_values(|t: Tensor<T>| t.shape@)
}

/// The elements of the tensors.
pub open spec fn datas_of<T>(inputs: Seq<Tensor<T>>) -> Seq<Seq<T>> {
    inputs.map_values(|t: Tensor<T>| t.data@)
}

/// Tensors of the given shapes and elements joined along axis `dim`: the
/// shape of the result and its elements, or why they cannot be joined.
pub open spec fn spec_cat<T>(shapes: Seq<Seq<usize>>, datas: Seq<Seq<T>>, dim: isize) -> Result<
    (Seq<usize>, Seq<T>),
    CatError,
> {
    if shapes.len() == 0 {
        Err(CatError::NoInput)
    } else if !(0 <= dim < shapes[0].len()) {
        Err(CatError::AxisOutOfBounds)
    } else if exists|j: int|
        0 <= j < shapes.len() && !same_but_axis(#[trigger] shapes[j], shapes[0], dim as int) {
        Err(CatError::IncompatibleShape)
    } else {
        let ax = dim as int;
        let out = shapes[0].update(ax, axis_total(shapes, ax) as usize);
        if nonzero_numel(out) > isize::MAX {
            Err(CatError::Overflow)
        } else {
            let inner = numel(shapes[0].skip(ax + 1)) as int;
            Ok(
                (
                    out,
                    cat_rows(datas, cat_widths(shapes, ax, inner), numel(shapes[0].take(ax))),
                ),
            )
        }
    }
}

/// Adding the next shape to a prefix of the shapes adds its extent; a
/// prefix never sums to more than the whole.
pub proof fn lemma_axis_total_prefix(shapes: Seq<Seq<usize>>, ax: int, j: int)
    requires
        0 <= j <= shapes.len(),
    ensures
        axis_total(shapes.take(j), ax) <= axis_total(shapes, ax),
        j < shapes.len() ==> axis_total(shapes.take(j + 1), ax) == axis_total(shapes.take(j), ax)
            + shapes[j][ax] as nat,
    decreases shapes.len(),
{
    if j < shapes.len() {
        assert(shapes.take(j + 1).drop_last() =~= shapes.take(j));
        assert(shapes.take(j + 1).last() == shapes[j]);
    }
    if j == shapes.len() {
        assert(shapes.take(j) =~= shapes);
    } else {
        lemma_axis_total_prefix(shapes.drop_last(), ax, j);
        assert(shapes.drop_last().take(j) =~= shapes.take(j));
    }
}

/// Row `a` is as long as the widths of all the inputs together.
pub proof fn lemma_cat_row_len<T>(
    datas: Seq<Seq<T>>,
    shapes: Seq<Seq<usize>>,
    widths: Seq<int>,
    ax: int,
    inner: int,
    a: int,
)
    requires
        datas.len() == shapes.len(),
        widths.len() >= datas.len(),
        inner >= 0,
        a >= 0,
        forall|j: int| 0 <= j < datas.len() ==> #[trigger] widths[j] == shapes[j][ax] * inner,
        forall|j: int| 0 <= j < datas.len() ==> (a + 1) * widths[j] <= #[trigger] datas[j].len(),
    ensures
        cat_row(datas, widths, a).len() == axis_total(shapes, ax) * inner,
    decreases datas.len(),
{
    if datas.len() == 0 {
        assert(0 * inner == 0);
    } else {
        let j = datas.len() - 1;
        lemma_cat_row_len(datas.drop_last(), shapes.drop_last(), widths, ax, inner, a);
        let w = widths[j];
        let e = shapes[j][ax] as int;
        let p = axis_total(shapes.drop_last(), ax) as int;
        assert(shapes.last() == shapes[j]);
        assert(axis_total(shapes, ax) == p + e);
        assert(w >= 0 && a * w <= (a + 1) * w) by (nonlinear_arith)
            requires
                w == e * inner,
                e >= 0,
                inner >= 0,
                a >= 0,
        ;
        assert(p * inner + ((a + 1) * w - a * w) == (p + e) * inner) by (nonlinear_arith)
            requires
                w == e * inner,
        ;
        assert((a + 1) * w <= datas[j].len());
        assert(datas.last().subrange(a * w, (a + 1) * w).len() == (a + 1) * w - a * w);
        assert((p + e) * inner == axis_total(shapes, ax) * inner);
    }
}

/// The first `count` rows hold `count` times a row's length.
pub proof fn lemma_cat_rows_len<T>(datas: Seq<Seq<T>>, widths: Seq<int>, count: nat, row: int)
    requires
        forall|a: int| 0 <= a < count ==> #[trigger] cat_row(datas, widths, a).len() == row,
    ensures
        cat_rows(datas, widths, count).len() == count * row,
    decreases count,
{
    if count > 0 {
        let c = (count - 1) as nat;
        lemma_cat_rows_len(datas, widths, c, row);
        assert(cat_row(datas, widths, c as int).len() == row);
        assert(cat_rows(datas, widths, count) == cat_rows(datas, widths, c) + cat_row(
            datas,
            widths,
            c as int,
        ));
        assert(c * row + row == count * row) by (nonlinear_arith)
            requires
                c + 1 == count,
        ;
        assert(cat_rows(datas, widths, c).len() == c * row);
        assert(cat_rows(datas, widths, count).len() == cat_rows(datas, widths, c).len() + cat_row(
            datas,
            widths,
            c as int,
        ).len());
    } else {
        assert(cat_rows(datas, widths, count).len() == 0);
        assert(count * row == 0);
    }
}

/// Row `a` over the first `j + 1` inputs is row `a` over the first `j`,
/// then block `a` of input `j`.
pub proof fn lemma_cat_row_step<T>(datas: Seq<Seq<T>>, widths: Seq<int>, a: int, j: int)
    requires
        0 <= j < datas.len(),
    ensures
        cat_row(datas.take(j + 1), widths, a) == cat_row(datas.take(j), widths, a)
            + datas[j].subrange(a * widths[j], (a + 1) * widths[j]),
{
    assert(datas.take(j + 1).drop_last() =~= datas.take(j));
    assert(datas.take(j + 1).last() == datas[j]);
}

impl CatLayer {
    /// What the join needs of its inputs beyond what it checks itself: when
    /// the axis is an axis of the first tensor, every tensor has that axis,
    /// and when the shapes agree the extents along it sum to an address.
    pub open spec fn accepts<T>(&self, inputs: Seq<Tensor<T>>) -> bool {
        let shapes = shapes_of(inputs);
        let d = self.lconf.dim;
        inputs.len() > 0 && 0 <= d < shapes[0].len() ==> {
            &&& forall|j: int| 0 <= j < shapes.len() ==> d < (#[trigger] shapes[j]).len()
            &&& (forall|j: int|
                0 <= j < shapes.len() ==> same_but_axis(#[trigger] shapes[j], shapes[0], d as int))
                ==> axis_total(shapes, d as int) <= usize::MAX
        }
    }

    pub fn forward<T: Copy>(&self, inputs: &Vec<Tensor<T>>) -> (r: Result<Tensor<T>, CatError>)
        requires
            forall|j: int| 0 <= j < inputs@.len() ==> (#[trigger] inputs@[j]).wf(),
            self.accepts(inputs@),
        ensures
            match r {
                Ok(t) => t.wf() && spec_cat(shapes_of(inputs@), datas_of(inputs@), self.lconf.dim)
                    == Ok::<(Seq<usize>, Seq<T>), CatError>((t.shape@, t.data@)),
                Err(e) => spec_cat(shapes_of(inputs@), datas_of(inputs@), self.lconf.dim) == Err::<
                    (Seq<usize>, Seq<T>),
                    CatError,
                >(e),
            },
    {
        let ghost shapes = shapes_of(inputs@);
        let ghost datas = datas_of(inputs@);
        let n = inputs.len();
        if n == 0 {
            return Err(CatError::NoInput);
        }
        let dim = self.lconf.dim;
        let ndim = inputs[0].shape.len();
        if dim < 0 || dim as usize >= ndim {
            return Err(CatError::AxisOutOfBounds);
        }
        let ax = dim as usize;
        assert(shapes[0] == inputs@[0].shape@);
        if !Self::shapes_agree(inputs, ax) {
            proof {
                let j = choose|j: int|
                    0 <= j < inputs@.len() && !same_but_axis(
                        #[trigger] inputs@[j].shape@,
                        inputs@[0].shape@,
                        ax as int,
                    );
                assert(shapes[j] == inputs@[j].shape@);
            }
            return Err(CatError::IncompatibleShape);
        }
        assert forall|j: int| 0 <= j < shapes.len() implies same_but_axis(
            #[trigger] shapes[j],
            shapes[0],
            ax as int,
        ) by {
            assert(shapes[j] == inputs@[j].shape@);
        }
        let total = Self::axis_sum(inputs, ax);
        let mut out_shape = vstd::slice::slice_to_vec(inputs[0].shape.as_slice());
        out_shape.set(ax, total);
        let ghost s0 = shapes[0];
        let ghost out = out_shape@;
        assert(out == s0.update(ax as int, axis_total(shapes, ax as int) as usize));
        if !shape_fits(&out_shape) {
            return Err(CatError::Overflow);
        }
        proof {
            lemma_nonzero_numel_bounds(out, 0, ax as int);
            lemma_nonzero_numel_bounds(out, ax + 1, ndim as int);
            assert(out.subrange(0, ax as int) =~= s0.subrange(0, ax as int));
            assert(out.subrange(ax + 1, ndim as int) =~= s0.subrange(ax + 1, ndim as int));
        }
        let outer = numel_of_range(&inputs[0].shape, 0, ax);
        let inner = numel_of_range(&inputs[0].shape, ax + 1, ndim);
        let ghost widths = cat_widths(shapes, ax as int, inner as int);
        proof {
            assert(s0.subrange(0, ax as int) =~= s0.take(ax as int));
            assert(s0.subrange(ax + 1, ndim as int) =~= s0.skip(ax + 1));
            assert forall|j: int| 0 <= j < datas.len() implies #[trigger] datas[j].len() == outer
                * widths[j] by {
                let sj = shapes[j];
                assert(sj == inputs@[j].shape@);
                assert(datas[j] == inputs@[j].data@);
                lemma_numel_around(sj, ax as int);
                assert(sj.take(ax as int) =~= s0.take(ax as int));
                assert(sj.skip(ax + 1) =~= s0.skip(ax + 1));
                let e = sj[ax as int] as int;
                assert(numel(sj) == outer * e * inner);
                assert(outer * e * inner == outer * (e * inner)) by (nonlinear_arith);
            }
        }
        let data = Self::gather(inputs, ax, outer, inner);
        proof {
            assert forall|a: int| 0 <= a < outer implies #[trigger] cat_row(datas, widths, a).len()
                == total * inner by {
                assert forall|j: int| 0 <= j < datas.len() implies (a + 1) * widths[j]
                    <= #[trigger] datas[j].len() by {
                    let w = widths[j];
                    assert(w == shapes[j][ax as int] * inner);
                    assert(w >= 0) by (nonlinear_arith)
                        requires
                            w == shapes[j][ax as int] * inner,
                            inner >= 0,
                            shapes[j][ax as int] >= 0,
                    ;
                    assert((a + 1) * w <= outer * w) by (nonlinear_arith)
                        requires
                            a + 1 <= outer,
                            w >= 0,
                    ;
                }
                lemma_cat_row_len(datas, shapes, widths, ax as int, inner as int, a);
            }
            lemma_cat_rows_len(datas, widths, outer as nat, total * inner);
            lemma_numel_around(out, ax as int);
            assert(out.take(ax as int) =~= s0.take(ax as int));
            assert(out.skip(ax + 1) =~= s0.skip(ax + 1));
            assert(outer * (total * inner) == outer * total * inner) by (nonlinear_arith);
        }
        Ok(Tensor { shape: out_shape, data })
    }

    /// Whether every tensor has the shape of the first but along `ax`.
    fn shapes_agree<T>(inputs: &Vec<Tensor<T>>, ax: usize) -> (r: bool)
        requires
            inputs@.len() > 0,
        ensures
            r == forall|j: int|
                0 <= j < inputs@.len() ==> same_but_axis(
                    #[trigger] inputs@[j].shape@,
                    inputs@[0].shape@,
                    ax as int,
                ),
    {
        let first = &inputs[0].shape;
        let mut j: usize = 0;
        while j < inputs.len()
            invariant
                j <= inputs@.len(),
                inputs@.len() > 0,
                *first == inputs@[0].shape,
                forall|q: int|
                    0 <= q < j ==> same_but_axis(
                        #[trigger] inputs@[q].shape@,
                        inputs@[0].shape@,
                        ax as int,
                    ),
            decreases inputs@.len() - j,
        {
            let sj = &inputs[j].shape;
            if sj.len() != first.len() {
                assert(!same_but_axis(inputs@[j as int].shape@, inputs@[0].shape@, ax as int));
                return false;
            }
            let mut i: usize = 0;
            while i < sj.len()
                invariant
                    i <= sj@.len(),
                    j < inputs@.len(),
                    inputs@.len() > 0,
                    *sj == inputs@[j as int].shape,
                    *first == inputs@[0].shape,
                    sj@.len() == first@.len(),
                    forall|k: int| 0 <= k < i && k != ax ==> sj@[k] == first@[k],
                decreases sj@.len() - i,
            {
                if i != ax && sj[i] != first[i] {
                    assert(!same_but_axis(inputs@[j as int].shape@, inputs@[0].shape@, ax as int));
                    return false;
                }
                i = i + 1;
            }
            j = j + 1;
        }
        true
    }

    /// The sum of the extents of the tensors along `ax`.
    fn axis_sum<T>(inputs: &Vec<Tensor<T>>, ax: usize) -> (r: usize)
        requires
            forall|j: int| 0 <= j < inputs@.len() ==> ax < (#[trigger] inputs@[j]).shape@.len(),
            axis_total(shapes_of(inputs@), ax as int) <= usize::MAX,
        ensures
            r == axis_total(shapes_of(inputs@), ax as int),
    {
        let ghost shapes = shapes_of(inputs@);
        let mut total: usize = 0;
        let mut j: usize = 0;
        while j < inputs.len()
            invariant
                j <= inputs@.len(),
                shapes == shapes_of(inputs@),
                forall|q: int| 0 <= q < inputs@.len() ==> ax < (#[trigger] inputs@[q]).shape@.len(),
                axis_total(shapes, ax as int) <= usize::MAX,
                total == axis_total(shapes.take(j as int), ax as int),
            decreases inputs@.len() - j,
        {
            proof {
                lemma_axis_total_prefix(shapes, ax as int, j as int);
                lemma_axis_total_prefix(shapes, ax as int, j + 1);
                assert(shapes[j as int] == inputs@[j as int].shape@);
            }
            total = total + inputs[j].shape[ax];
            j = j + 1;
        }
        assert(shapes.take(j as int) =~= shapes);
        total
    }

    /// The rows of the joined elements: `outer` rows, in each of which every
    /// tensor gives its next block.
    fn gather<T: Copy>(inputs: &Vec<Tensor<T>>, ax: usize, outer: usize, inner: usize) -> (r: Vec<
        T,
    >)
        requires
            forall|j: int| 0 <= j < inputs@.len() ==> ax < (#[trigger] inputs@[j]).shape@.len(),
            forall|j: int|
                0 <= j < inputs@.len() ==> #[trigger] datas_of(inputs@)[j].len() == outer
                    * cat_widths(shapes_of(inputs@), ax as int, inner as int)[j],
        ensures
            r@ == cat_rows(
                datas_of(inputs@),
                cat_widths(shapes_of(inputs@), ax as int, inner as int),
                outer as nat,
            ),
    {
        let ghost shapes = shapes_of(inputs@);
        let ghost datas = datas_of(inputs@);
        let ghost widths = cat_widths(shapes, ax as int, inner as int);
        let n = inputs.len();
        let mut out: Vec<T> = Vec::new();
        let mut a: usize = 0;
        while a < outer
            invariant
                a <= outer,
                n == inputs@.len(),
                shapes == shapes_of(inputs@),
                datas == datas_of(inputs@),
                widths == cat_widths(shapes, ax as int, inner as int),
                forall|j: int| 0 <= j < inputs@.len() ==> ax < (#[trigger] inputs@[j]).shape@.len(),
                forall|j: int| 0 <= j < inputs@.len() ==> #[trigger] datas[j].len() == outer * widths[j],
                out@ == cat_rows(datas, widths, a as nat),
            decreases outer - a,
        {
            let mut j: usize = 0;
            while j < n
                invariant
                    a < outer,
                    j <= n,
                    n == inputs@.len(),
                    shapes == shapes_of(inputs@),
                    datas == datas_of(inputs@),
                    widths == cat_widths(shapes, ax as int, inner as int),
                    forall|q: int|
                        0 <= q < inputs@.len() ==> ax < (#[trigger] inputs@[q]).shape@.len(),
                    forall|q: int|
                        0 <= q < inputs@.len() ==> #[trigger] datas[q].len() == outer * widths[q],
                    out@ == cat_rows(datas, widths, a as nat) + cat_row(
                        datas.take(j as int),
                        widths,
                        a as int,
                    ),
                decreases n - j,
            {
                let ghost dj = datas[j as int];
                assert(dj == inputs@[j as int].data@);
                assert(shapes[j as int] == inputs@[j as int].shape@);
                let len_j = inputs[j].data.len();
                let e = inputs[j].shape[ax];
                proof {
                    let wj = widths[j as int];
                    assert(wj == e * inner);
                    assert(e * inner <= len_j && (a + 1) * (e * inner) <= len_j && a * (e * inner)
                        <= len_j && a * (e * inner) + e * inner == (a + 1) * (e * inner))
                        by (nonlinear_arith)
                        requires
                            len_j == outer * (e * inner),
                            a < outer,
                            e >= 0,
                            inner >= 0,
                    ;
                }
                let w = e * inner;
                let base = a * w;
                let ghost prefix = out@;
                let mut t: usize = 0;
                while t < w
                    invariant
                        t <= w,
                        j < n,
                        n == inputs@.len(),
                        base + w <= len_j,
                        len_j == dj.len(),
                        dj == inputs@[j as int].data@,
                        out@ == prefix + dj.subrange(base as int, base + t),
                    decreases w - t,
                {
                    out.push(inputs[j].data[base + t]);
                    t = t + 1;
                    assert(dj.subrange(base as int, base + t) =~= dj.subrange(
                        base as int,
                        base + t - 1,
                    ).push(dj[base + t - 1]));
                }
                proof {
                    lemma_cat_row_step(datas, widths, a as int, j as int);
                    assert((a + 1) * w == base + w) by (nonlinear_arith)
                        requires
                            base == a * w,
                    ;
                }
                j = j + 1;
            }
            assert(datas.take(n as int) =~= datas);
            a = a + 1;
        }
        out
    }
}

/// Element `u` of block `a` of a piece of length `len` that starts at `st`
/// along an axis of length `n` is element `u` after the start of that piece
/// in block `a` of the whole.
proof fn lemma_slice_source_block(a: int, u: int, n: int, st: int, len: int, inner: int)
    requires
        a >= 0,
        0 <= u < len * inner,
        len > 0,
        inner > 0,
    ensures
        spec_slice_source(a * (len * inner) + u, n, st, len, inner) == a * n * inner + st * inner
            + u,
{
    let t = a * (len * inner) + u;
    lemma_fundamental_div_mod(u, inner);
    let uq = u / inner;
    let ur = u % inner;
    assert(u == uq * inner + ur) by (nonlinear_arith)
        requires
            u == inner * uq + ur,
    ;
    assert(0 <= uq < len) by (nonlinear_arith)
        requires
            0 <= u < len * inner,
            inner > 0,
            u == uq * inner + ur,
            0 <= ur < inner,
    ;
    assert(t == (a * len + uq) * inner + ur) by (nonlinear_arith)
        requires
            t == a * (len * inner) + u,
            u == uq * inner + ur,
    ;
    lemma_fundamental_div_mod_converse(t, inner, a * len + uq, ur);
    lemma_fundamental_div_mod_converse(a * len + uq, len, a, uq);
    assert((a * n + st + uq) * inner + ur == a * n * inner + st * inner + u) by (nonlinear_arith)
        requires
            u == uq * inner + ur,
    ;
}

/// Where the pieces of a cut along an axis of length `n` at sorted indices
/// end: after `j` pieces, at the end of piece `j - 1` (at 0 before any).
pub open spec fn pieces_end(indices: Seq<usize>, n: int, j: int) -> int {
    if j == 0 {
        0
    } else {
        spec_piece(indices, n, j - 1).1
    }
}

/// The indices come in increasing order.
pub open spec fn sorted_indices(indices: Seq<usize>) -> bool {
    forall|i: int, j: int| 0 <= i <= j < indices.len() ==> indices[i] <= indices[j]
}

/// With sorted indices, each piece starts where the previous one ends.
proof fn lemma_pieces_meet(indices: Seq<usize>, n: int, j: int)
    requires
        sorted_indices(indices),
        n >= 0,
        forall|k: int| 0 <= k < indices.len() ==> indices[k] <= n,
        0 <= j <= indices.len(),
    ensures
        0 <= spec_piece(indices, n, j).0,
        spec_piece(indices, n, j).0 == pieces_end(indices, n, j),
        pieces_end(indices, n, j) <= spec_piece(indices, n, j).1,
        spec_piece(indices, n, j).1 <= n,
        j == indices.len() ==> spec_piece(indices, n, j).1 == n,
{
}

/// Splitting a tensor along an axis at sorted indices and joining the
/// pieces along that axis gives the tensor back: a `CatLayer` on that axis
/// accepts the pieces, and the join they make is the tensor's shape and
/// elements. This holds when the tensor's non-zero extents multiply to at
/// most `isize::MAX`.
pub proof fn law_split_then_cat<T>(input: Tensor<T>, split: TensorSplitLayer, pieces: Seq<Tensor<T>>)
    requires
        input.wf(),
        split.accepts(input.shape@),
        sorted_indices(split.lconf.indices@),
        nonzero_numel(input.shape@) <= isize::MAX,
        input.shape@.len() <= isize::MAX,
        pieces.len() == split.lconf.indices@.len() + 1,
        forall|j: int| 0 <= j < pieces.len() ==> split.is_piece(&input, j, #[trigger] pieces[j]),
    ensures
        forall|cat: CatLayer|
            cat.lconf.dim == split.dim(input.shape@.len()) as isize ==> #[trigger] cat.accepts(
                pieces,
            ),
        spec_cat(
            shapes_of(pieces),
            datas_of(pieces),
            split.dim(input.shape@.len()) as isize,
        ) == Ok::<(Seq<usize>, Seq<T>), CatError>((input.shape@, input.data@)),
{
    let s = input.shape@;
    let d = split.dim(s.len());
    let n = s[d] as int;
    let idx = split.lconf.indices@;
    let shapes = shapes_of(pieces);
    let datas = datas_of(pieces);
    let inner = numel(s.skip(d + 1)) as int;
    let outer = numel(s.take(d)) as int;
    assert forall|j: int| 0 <= j < pieces.len() implies #[trigger] shapes[j] == s.update(
        d,
        (spec_piece(idx, n, j).1 - spec_piece(idx, n, j).0) as usize,
    ) && datas[j] == pieces[j].data@ by {
        assert(split.is_piece(&input, j, pieces[j]));
    }
    assert(shapes[0].len() == s.len());
    assert forall|j: int| 0 <= j < shapes.len() implies same_but_axis(
        #[trigger] shapes[j],
        shapes[0],
        d,
    ) by {}
    // The lengths of the pieces add up to the length of the axis.
    assert forall|j: int| 0 <= j <= shapes.len() implies axis_total(#[trigger] shapes.take(j), d)
        == pieces_end(idx, n, j) by {
        lemma_axis_total_pieces(shapes, s, idx, n, d, j);
    }
    assert(shapes.take(shapes.len() as int) =~= shapes);
    lemma_pieces_meet(idx, n, idx.len() as int);
    assert(axis_total(shapes, d) == n);
    assert forall|cat: CatLayer| cat.lconf.dim == d as isize implies #[trigger] cat.accepts(pieces) by {
        assert(shapes == shapes_of(pieces));
    }
    let out = shapes[0].update(d, axis_total(shapes, d) as usize);
    assert(out =~= s);
    lemma_numel_around(s, d);
    assert(shapes[0].take(d) =~= s.take(d));
    assert(shapes[0].skip(d + 1) =~= s.skip(d + 1));
    assert((d as isize) as int == d);
    // Each row of the joined elements is the corresponding row of the input.
    if outer > 0 && n > 0 && inner > 0 {
        let widths = cat_widths(shapes, d, inner);
        assert forall|c: nat| c <= outer implies #[trigger] cat_rows(datas, widths, c)
            == input.data@.subrange(0, c * n * inner) by {
            lemma_rows_from_pieces(input, split, pieces, c);
        }
        assert(input.data@.subrange(0, outer * n * inner) =~= input.data@);
    } else {
        let widths = cat_widths(shapes, d, inner);
        assert(outer * n * inner == 0) by (nonlinear_arith)
            requires
                !(outer > 0 && n > 0 && inner > 0),
                outer >= 0,
                n >= 0,
                inner >= 0,
        ;
        assert(input.data@ =~= Seq::<T>::empty());
        if outer > 0 {
            assert forall|j: int| 0 <= j < datas.len() implies #[trigger] widths[j] == 0 by {
                lemma_pieces_meet(idx, n, j);
                let len = spec_piece(idx, n, j).1 - spec_piece(idx, n, j).0;
                assert(shapes[j][d] == len);
                assert(len * inner == 0) by (nonlinear_arith)
                    requires
                        n == 0 || inner == 0,
                        0 <= len <= n,
                ;
            }
            lemma_rows_empty(datas, widths, outer as nat, shapes, d, inner);
        }
        assert(cat_rows(datas, widths, outer as nat) =~= input.data@);
    }
}

/// The extents along the axis of the first `j` pieces add up to where the
/// `j`-th piece begins.
proof fn lemma_axis_total_pieces(
    shapes: Seq<Seq<usize>>,
    s: Seq<usize>,
    idx: Seq<usize>,
    n: int,
    d: int,
    j: int,
)
    requires
        0 <= d < s.len(),
        n == s[d],
        sorted_indices(idx),
        forall|k: int| 0 <= k < idx.len() ==> idx[k] <= n,
        shapes.len() == idx.len() + 1,
        forall|k: int|
            0 <= k < shapes.len() ==> #[trigger] shapes[k] == s.update(
                d,
                (spec_piece(idx, n, k).1 - spec_piece(idx, n, k).0) as usize,
            ),
        0 <= j <= shapes.len(),
    ensures
        axis_total(shapes.take(j), d) == pieces_end(idx, n, j),
    decreases j,
{
    if j > 0 {
        lemma_axis_total_pieces(shapes, s, idx, n, d, j - 1);
        assert(shapes.take(j).drop_last() =~= shapes.take(j - 1));
        assert(shapes.take(j).last() == shapes[j - 1]);
        lemma_pieces_meet(idx, n, j - 1);
    } else {
        assert(shapes.take(0) =~= Seq::<Seq<usize>>::empty());
    }
}

/// Rows of pieces that hold no element are empty.
proof fn lemma_rows_empty<T>(
    datas: Seq<Seq<T>>,
    widths: Seq<int>,
    c: nat,
    shapes: Seq<Seq<usize>>,
    d: int,
    inner: int,
)
    requires
        widths == cat_widths(shapes, d, inner),
        datas.len() == shapes.len(),
        forall|j: int| 0 <= j < datas.len() ==> #[trigger] widths[j] == 0,
    ensures
        cat_rows(datas, widths, c).len() == 0,
    decreases c,
{
    if c > 0 {
        lemma_rows_empty(datas, widths, (c - 1) as nat, shapes, d, inner);
        lemma_row_empty(datas, widths, c - 1);
    }
}

proof fn lemma_row_empty<T>(datas: Seq<Seq<T>>, widths: Seq<int>, a: int)
    requires
        forall|j: int| 0 <= j < datas.len() ==> #[trigger] widths[j] == 0,
    ensures
        cat_row(datas, widths, a).len() == 0,
    decreases datas.len(),
{
    if datas.len() > 0 {
        lemma_row_empty(datas.drop_last(), widths, a);
    }
}

/// The first `c` rows of the joined pieces are the first `c` rows of the
/// input.
#[verifier::spinoff_prover]
#[verifier::rlimit(40)]
proof fn lemma_rows_from_pieces<T>(input: Tensor<T>, split: TensorSplitLayer, pieces: Seq<Tensor<T>>, c: nat)
    requires
        input.wf(),
        split.accepts(input.shape@),
        sorted_indices(split.lconf.indices@),
        pieces.len() == split.lconf.indices@.len() + 1,
        forall|j: int| 0 <= j < pieces.len() ==> split.is_piece(&input, j, #[trigger] pieces[j]),
        ({
            let s = input.shape@;
            let d = split.dim(s.len());
            c <= numel(s.take(d)) && numel(s.take(d)) > 0 && s[d] > 0 && numel(s.skip(d + 1)) > 0
        }),
    ensures
        ({
            let s = input.shape@;
            let d = split.dim(s.len());
            cat_rows(
                datas_of(pieces),
                cat_widths(shapes_of(pieces), d, numel(s.skip(d + 1)) as int),
                c,
            ) == input.data@.subrange(0, c * (s[d] as int) * numel(s.skip(d + 1)))
        }),
    decreases c,
{
    let s = input.shape@;
    let d = split.dim(s.len());
    let n = s[d] as int;
    let inner = numel(s.skip(d + 1)) as int;
    let datas = datas_of(pieces);
    let widths = cat_widths(shapes_of(pieces), d, inner);
    lemma_numel_around(s, d);
    if c == 0 {
        assert(c * n * inner == 0) by (nonlinear_arith)
            requires
                c == 0,
        ;
        assert(input.data@.subrange(0, 0) =~= Seq::<T>::empty());
        assert(cat_rows(datas, widths, c) =~= Seq::<T>::empty());
    } else {
        let a = c - 1;
        lemma_rows_from_pieces(input, split, pieces, (c - 1) as nat);
        lemma_row_from_pieces(input, split, pieces, a, pieces.len() as int);
        assert(datas.take(pieces.len() as int) =~= datas);
        lemma_pieces_meet(split.lconf.indices@, n, split.lconf.indices@.len() as int);
        assert(pieces_end(split.lconf.indices@, n, pieces.len() as int) == n);
        assert(cat_row(datas, widths, a) == input.data@.subrange(a * n * inner, a * n * inner + n
            * inner));
        assert(cat_rows(datas, widths, c) == cat_rows(datas, widths, (c - 1) as nat) + cat_row(
            datas,
            widths,
            a,
        ));
        assert(a * n * inner + n * inner == c * n * inner) by (nonlinear_arith)
            requires
                a == c - 1,
        ;
        assert(0 <= a * n * inner) by (nonlinear_arith)
            requires
                a >= 0,
                n >= 0,
                inner >= 0,
        ;
        assert(c * n * inner <= numel(s.take(d)) * n * inner) by (nonlinear_arith)
            requires
                c <= numel(s.take(d)),
                n >= 0,
                inner >= 0,
        ;
        assert(input.data@.subrange(0, c * n * inner) =~= input.data@.subrange(0, a * n * inner)
            + input.data@.subrange(a * n * inner, c * n * inner));
        assert(cat_rows(datas, widths, c) == input.data@.subrange(0, c * n * inner));
    }
}

/// Row `a` of the first `j` pieces joined is the part of row `a` of the
/// input up to where piece `j` begins.
proof fn lemma_row_from_pieces<T>(
    input: Tensor<T>,
    split: TensorSplitLayer,
    pieces: Seq<Tensor<T>>,
    a: int,
    j: int,
)
    requires
        input.wf(),
        split.accepts(input.shape@),
        sorted_indices(split.lconf.indices@),
        pieces.len() == split.lconf.indices@.len() + 1,
        forall|k: int| 0 <= k < pieces.len() ==> split.is_piece(&input, k, #[trigger] pieces[k]),
        0 <= j <= pieces.len(),
        ({
            let s = input.shape@;
            let d = split.dim(s.len());
            0 <= a < numel(s.take(d)) && s[d] > 0 && numel(s.skip(d + 1)) > 0
        }),
    ensures
        ({
            let s = input.shape@;
            let d = split.dim(s.len());
            let n = s[d] as int;
            let inner = numel(s.skip(d + 1)) as int;
            let e = pieces_end(split.lconf.indices@, n, j);
            cat_row(datas_of(pieces).take(j), cat_widths(shapes_of(pieces), d, inner), a)
                == input.data@.subrange(a * n * inner, a * n * inner + e * inner)
        }),
    decreases j,
{
    let s = input.shape@;
    let d = split.dim(s.len());
    let n = s[d] as int;
    let inner = numel(s.skip(d + 1)) as int;
    let outer = numel(s.take(d)) as int;
    let idx = split.lconf.indices@;
    let datas = datas_of(pieces);
    let shapes = shapes_of(pieces);
    let widths = cat_widths(shapes, d, inner);
    let base = a * n * inner;
    lemma_numel_around(s, d);
    assert(0 <= base && base + n * inner <= outer * n * inner) by (nonlinear_arith)
        requires
            0 <= a < outer,
            n > 0,
            inner > 0,
            base == a * n * inner,
    ;
    if j == 0 {
        assert(datas.take(0) =~= Seq::<Seq<T>>::empty());
        assert(input.data@.subrange(base, base) =~= Seq::<T>::empty());
    } else {
        let k = j - 1;
        lemma_row_from_pieces(input, split, pieces, a, k);
        lemma_cat_row_step(datas, widths, a, k);
        lemma_pieces_meet(idx, n, k);
        let (st, en) = spec_piece(idx, n, k);
        let len = en - st;
        let p = pieces[k];
        assert(split.is_piece(&input, k, p));
        assert(datas[k] == p.data@);
        assert(shapes[k] == p.shape@);
        assert(widths[k] == len * inner);
        lemma_numel_around(p.shape@, d);
        assert(p.shape@.take(d) =~= s.take(d));
        assert(p.shape@.skip(d + 1) =~= s.skip(d + 1));
        assert(p.data@.len() == outer * len * inner);
        let w = len * inner;
        let lo = base + st * inner;
        let hi = base + en * inner;
        if len == 0 {
            assert(w == 0) by (nonlinear_arith)
                requires
                    w == len * inner,
                    len == 0,
            ;
            assert(a * w == 0 && (a + 1) * w == 0) by (nonlinear_arith)
                requires
                    w == 0,
            ;
            assert(datas[k].subrange(a * w, (a + 1) * w) =~= Seq::<T>::empty());
            assert(input.data@.subrange(base, lo) + Seq::<T>::empty() =~= input.data@.subrange(base, hi));
        } else {
            assert(0 <= a * w && (a + 1) * w <= outer * len * inner && a * w + w == (a + 1) * w)
                by (nonlinear_arith)
                requires
                    0 <= a < outer,
                    len > 0,
                    inner > 0,
                    w == len * inner,
            ;
            assert(0 <= st * inner && st * inner + w == en * inner && en * inner <= n * inner)
                by (nonlinear_arith)
                requires
                    0 <= st,
                    len == en - st,
                    w == len * inner,
                    en <= n,
                    inner > 0,
            ;
            let piece = datas[k].subrange(a * w, (a + 1) * w);
            assert forall|u: int| 0 <= u < w implies #[trigger] piece[u] == input.data@.subrange(
                lo,
                hi,
            )[u] by {
                lemma_slice_source_block(a, u, n, st, len, inner);
                assert(piece[u] == p.data@[a * w + u]);
                assert(a * (len * inner) == a * w);
            }
            assert(piece =~= input.data@.subrange(lo, hi));
            assert(input.data@.subrange(base, lo) + input.data@.subrange(lo, hi) =~= input.data@.subrange(
                base,
                hi,
            ));
        }
    }
}

} // verus!

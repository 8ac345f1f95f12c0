use vstd::prelude::*;

use crate::dtype::DataType;
use crate::tensor::{
    checked_numel, lemma_div_mod_radix, lemma_mixed_radix, lemma_nonzero_numel_bounds, numel,
    nonzero_numel, Tensor,
};

verus! {

/// Why a tensor could not be resized.
#[derive(Debug, Clone, Copy, PartialEq, Eq, Structural)]
pub enum UpSampleError {
    /// Only tensors with three axes (channels, height, width) or four
    /// (batch, channels, height, width) can be resized.
    Rank,
    /// Neither an output size nor a scale factor was given.
    NoSize,
    /// Only tensors of 32-bit floats are resized.
    UnsupportedType,
}

/// A tensor with three axes (channels, height, width) or four (batch,
/// channels, height, width).
pub open spec fn has_image_rank(s: Seq<usize>) -> bool {
    s.len() == 3 || s.len() == 4
}

/// The rows and columns of the resized images: the last two entries of
/// `size` where it is given; else `scaled`, the extent computed from the
/// scale factor where one is given; else none.
pub open spec fn chosen_extent(size: Option<Vec<usize>>, scaled: Option<(usize, usize)>) -> Option<
    (usize, usize),
> {
    match size {
        Some(v) => Some((v@[v@.len() - 2], v@[v@.len() - 1])),
        None => scaled,
    }
}

/// Resizing a tensor of shape `s` to `oh` rows and `ow` columns stays
/// addressable, and reads from images that are not empty.
pub open spec fn resize_fits(s: Seq<usize>, oh: usize, ow: usize) -> bool {
    &&& nonzero_numel(resized_shape(s, oh, ow)) <= isize::MAX
    &&& numel(resized_shape(s, oh, ow)) > 0 ==> s[s.len() - 2] > 0 && s[s.len() - 1] > 0
}

/// `out` is `input` resized to `oh` rows and `ow` columns, each element
/// being the nearest element of the same image.
pub open spec fn resized<T>(input: Tensor<T>, oh: usize, ow: usize, out: Tensor<T>) -> bool {
    let s = input.shape@;
    &&& out.wf()
    &&& out.shape@ == resized_shape(s, oh, ow)
    &&& forall|t: int|
        0 <= t < out.data@.len() ==> #[trigger] out.data@[t] == input.data@[nearest_source(
            t,
            s[s.len() - 2] as int,
            s[s.len() - 1] as int,
            oh as int,
            ow as int,
        )]
}

/// Resizes the images of a tensor whose elements are of type `dtype`. The
/// output extent is the last two entries of `size` where it is given, else
/// `scaled`: what the scale factor gives for this input, where there is one.
/// Refused, in this order: a tensor without three or four axes; no extent;
/// elements of any type but 32-bit floats.
pub fn upsample_forward<T: Copy>(
    input: &Tensor<T>,
    dtype: DataType,
    size: &Option<Vec<usize>>,
    scaled: Option<(usize, usize)>,
) -> (r: Result<Tensor<T>, UpSampleError>)
    requires
        input.wf(),
        has_image_rank(input.shape@) && size is Some ==> size->0@.len() >= 2,
        has_image_rank(input.shape@) && dtype == DataType::Float32 ==> (chosen_extent(
            *size,
            scaled,
        ) matches Some((oh, ow)) ==> resize_fits(input.shape@, oh, ow)),
    ensures
        !has_image_rank(input.shape@) ==> r == Err::<Tensor<T>, UpSampleError>(UpSampleError::Rank),
        has_image_rank(input.shape@) && chosen_extent(*size, scaled) is None ==> r == Err::<
            Tensor<T>,
            UpSampleError,
        >(UpSampleError::NoSize),
        has_image_rank(input.shape@) && chosen_extent(*size, scaled) is Some && dtype
            != DataType::Float32 ==> r == Err::<Tensor<T>, UpSampleError>(
            UpSampleError::UnsupportedType,
        ),
        has_image_rank(input.shape@) && dtype == DataType::Float32 ==> (chosen_extent(
            *size,
            scaled,
        ) matches Some((oh, ow)) ==> r is Ok && resized(*input, oh, ow, r->Ok_0)),
{
    let rank = input.shape.len();
    if rank != 3 && rank != 4 {
        return Err(UpSampleError::Rank);
    }
    let (oh, ow) = match size {
        Some(v) => {
            let n = v.len();
            (v[n - 2], v[n - 1])
        },
        None => match scaled {
            Some(e) => e,
            None => {
                return Err(UpSampleError::NoSize);
            },
        },
    };
    if dtype != DataType::Float32 {
        return Err(UpSampleError::UnsupportedType);
    }
    upsample_nearest(input, oh, ow)
}

/// The shape of a tensor of shape `s` resized to `oh` rows and `ow` columns.
pub open spec fn resized_shape(s: Seq<usize>, oh: usize, ow: usize) -> Seq<usize> {
    s.take(s.len() - 2).push(oh).push(ow)
}

/// Where element `t` of the resized tensor is taken from: the nearest row
/// and column of the same image, rounding down.
pub open spec fn nearest_source(t: int, ih: int, iw: int, oh: int, ow: int) -> int {
    let x = t % ow;
    let y = (t / ow) % oh;
    let p = (t / ow) / oh;
    (p * ih + (y * ih) / oh) * iw + (x * iw) / ow
}

/// Resizes the images of a tensor to `oh` rows and `ow` columns, each
/// element of the result being the nearest element of the input.
pub fn upsample_nearest<T: Copy>(input: &Tensor<T>, oh: usize, ow: usize) -> (r: Result<
    Tensor<T>,
    UpSampleError,
>)
    requires
        input.wf(),
        has_image_rank(input.shape@) ==> resize_fits(input.shape@, oh, ow),
    ensures
        !has_image_rank(input.shape@) ==> r == Err::<Tensor<T>, UpSampleError>(UpSampleError::Rank),
        has_image_rank(input.shape@) ==> r is Ok && resized(*input, oh, ow, r->Ok_0),
{
    let rank = input.shape.len();
    if rank != 3 && rank != 4 {
        return Err(UpSampleError::Rank);
    }
    let ghost s = input.shape@;
    let ih = input.shape[rank - 2];
    let iw = input.shape[rank - 1];
    let lead = vstd::slice::slice_to_vec(&input.shape.as_slice()[0..rank - 2]);
    let mut shape = vstd::slice::slice_to_vec(&input.shape.as_slice()[0..rank - 2]);
    shape.push(oh);
    shape.push(ow);
    let ghost os = shape@;
    assert(os == resized_shape(s, oh, ow));
    assert(lead@ == s.take(s.len() - 2));
    proof {
        lemma_nonzero_numel_bounds(os, 0, os.len() as int);
        assert(os.subrange(0, os.len() as int) =~= os);
        assert(os.drop_last().drop_last() =~= lead@);
        assert(os.drop_last() =~= lead@.push(oh));
        assert(s.drop_last().drop_last() =~= lead@);
    }
    let count = match checked_numel(&shape) {
        Some(c) => c,
        None => {
            assert(false);
            0
        },
    };
    let planes = match checked_numel(&lead) {
        Some(p) => p,
        None => {
            proof {
                lemma_nonzero_numel_bounds(os, 0, lead@.len() as int);
                assert(os.subrange(0, lead@.len() as int) =~= lead@);
            }
            assert(false);
            0
        },
    };
    proof {
        assert(os.last() == ow && os.drop_last().last() == oh);
        assert(numel(os) == numel(os.drop_last()) * (ow as nat));
        assert(numel(os.drop_last()) == numel(lead@) * (oh as nat));
        assert(s.last() == iw && s.drop_last().last() == ih);
        assert(numel(s) == numel(s.drop_last()) * (iw as nat));
        assert(numel(s.drop_last()) == numel(lead@) * (ih as nat));
    }
    assert(count == planes * oh * ow);
    assert(input.data@.len() == planes * ih * iw);
    assert(count > 0 ==> ih > 0 && iw > 0);
    let total = input.data.len();
    let mut data: Vec<T> = Vec::new();
    let mut t: usize = 0;
    while t < count
        invariant
            t <= count,
            count == planes * oh * ow,
            input.data@.len() == planes * ih * iw,
            total == input.data@.len(),
            s == input.shape@,
            ih == s[s.len() - 2],
            iw == s[s.len() - 1],
            count > 0 ==> ih > 0 && iw > 0,
            data@.len() == t,
            forall|u: int|
                0 <= u < t ==> #[trigger] data@[u] == input.data@[nearest_source(
                    u,
                    ih as int,
                    iw as int,
                    oh as int,
                    ow as int,
                )],
        decreases count - t,
    {
        proof {
            assert(planes > 0 && oh > 0 && ow > 0) by (nonlinear_arith)
                requires
                    0 <= t < count,
                    count == planes * oh * ow,
            ;
            lemma_div_mod_radix(t as int, planes * oh, ow as int);
            lemma_div_mod_radix(t as int / ow as int, planes as int, oh as int);
        }
        let x = t % ow;
        let y = (t / ow) % oh;
        let p = (t / ow) / oh;
        assert(count > 0);
        assert(ih > 0 && iw > 0);
        assert(usize::MAX <= u64::MAX);
        assert((y as u128) * (ih as u128) <= u128::MAX && (x as u128) * (iw as u128) <= u128::MAX)
            by (nonlinear_arith)
            requires
                y <= u64::MAX,
                ih <= u64::MAX,
                x <= u64::MAX,
                iw <= u64::MAX,
        ;
        let qy: u128 = (y as u128) * (ih as u128) / (oh as u128);
        let qx: u128 = (x as u128) * (iw as u128) / (ow as u128);
        proof {
            assert(qy < ih) by (nonlinear_arith)
                requires
                    0 <= y < oh,
                    ih > 0,
                    qy == (y as int * ih as int) / oh as int,
            ;
            assert(qx < iw) by (nonlinear_arith)
                requires
                    0 <= x < ow,
                    iw > 0,
                    qx == (x as int * iw as int) / ow as int,
            ;
        }
        let ry = qy as usize;
        let rx = qx as usize;
        proof {
            lemma_mixed_radix(p as int, planes as int, ry as int, ih as int);
            lemma_mixed_radix(p * ih + ry, planes * ih, rx as int, iw as int);
            let a = p * ih + ry;
            assert(a <= a * iw) by (nonlinear_arith)
                requires
                    a >= 0,
                    iw >= 1,
            ;
            assert(a * iw + rx < total);
        }
        let src = (p * ih + ry) * iw + rx;
        data.push(input.data[src]);
        t = t + 1;
    }
    Ok(Tensor { shape, data })
}


/// Resizing by whole factors repeats each element: when the output has
/// `kh` times as many rows and `kw` times as many columns as the input,
/// output row `y`, column `x` of an image is input row `y / kh`, column
/// `x / kw` of the same image.
pub proof fn law_upsample_whole_factors(t: int, ih: int, iw: int, kh: int, kw: int)
    requires
        0 <= t,
        ih > 0,
        iw > 0,
        kh > 0,
        kw > 0,
    ensures
        ({
            let oh = ih * kh;
            let ow = iw * kw;
            let x = t % ow;
            let y = (t / ow) % oh;
            let p = (t / ow) / oh;
            nearest_source(t, ih, iw, oh, ow) == (p * ih + y / kh) * iw + x / kw
        }),
{
    let oh = ih * kh;
    let ow = iw * kw;
    assert(oh > 0 && ow > 0) by (nonlinear_arith)
        requires
            ih > 0,
            iw > 0,
            kh > 0,
            kw > 0,
            oh == ih * kh,
            ow == iw * kw,
    ;
    let x = t % ow;
    let y = (t / ow) % oh;
    assert(x >= 0 && y >= 0);
    vstd::arithmetic::div_mod::lemma_div_multiples_vanish_quotient(ih, y, kh);
    vstd::arithmetic::div_mod::lemma_div_multiples_vanish_quotient(iw, x, kw);
    assert(y * ih == ih * y) by (nonlinear_arith);
    assert(x * iw == iw * x) by (nonlinear_arith);
}

} // verus!

//! Parsers for the values that appear in the attributes of a PNNX graph:
//! numbers, tuples of sizes, booleans and element types.
//!
//! Each parser reads a prefix of its input and reports how many characters it
//! used; what follows that prefix is left to the caller.
use vstd::prelude::*;

use crate::dtype::DataType;
use crate::text::{
    chars_eq, class_run, lemma_class_run_bounds, lemma_digit_run_bounds, matches_at, skip_class,
    spec_scan_usize, starts_with_at, scan_usize, scan_isize, spec_scan_isize, chars_of, CharClass,
};

verus! {

/// The further items of a comma-separated list of sizes, starting at `e`
/// just after an item: as long as a `,` and another size follow, they are
/// taken. Gives the items and the position after the last one taken.
pub open spec fn spec_more_items(t: Seq<char>, e: int) -> (Seq<usize>, int)
    decreases t.len() - e,
{
    if 0 <= e < t.len() && t[e] == ',' {
        match spec_scan_usize(t, e + 1) {
            Some((v, e2)) => {
                proof {
                    lemma_digit_run_bounds(t, e + 1);
                }
                let r = spec_more_items(t, e2);
                (seq![v] + r.0, r.1)
            },
            None => (seq![], e),
        }
    } else {
        (seq![], e)
    }
}

/// A possibly empty comma-separated list of sizes starting at `j`.
pub open spec fn spec_item_list(t: Seq<char>, j: int) -> (Seq<usize>, int) {
    match spec_scan_usize(t, j) {
        Some((v, e)) => {
            let r = spec_more_items(t, e);
            (seq![v] + r.0, r.1)
        },
        None => (seq![], j),
    }
}

/// A tuple of sizes such as `(1,64,56,56)` or `()` at position `i`: its
/// items and the position just after the closing bracket.
pub open spec fn spec_scan_usize_tuple(t: Seq<char>, i: int) -> Option<(Seq<usize>, int)> {
    if 0 <= i < t.len() && t[i] == '(' {
        let r = spec_item_list(t, i + 1);
        if 0 <= r.1 < t.len() && t[r.1] == ')' {
            Some((r.0, r.1 + 1))
        } else {
            None
        }
    } else {
        None
    }
}

proof fn lemma_more_items_bounds(t: Seq<char>, e: int)
    requires
        0 <= e <= t.len(),
    ensures
        e <= spec_more_items(t, e).1 <= t.len(),
    decreases t.len() - e,
{
    if 0 <= e < t.len() && t[e] == ',' {
        lemma_digit_run_bounds(t, e + 1);
        if let Some((v, e2)) = spec_scan_usize(t, e + 1) {
            lemma_more_items_bounds(t, e2);
        }
    }
}

/// Reads a tuple of sizes at position `i` of `t`.
pub fn scan_usize_tuple(t: &[char], i: usize) -> (r: Option<(Vec<usize>, usize)>)
    requires
        i <= t@.len(),
    ensures
        match spec_scan_usize_tuple(t@, i as int) {
            Some((items, e)) => r matches Some((v, e2)) && v@ == items && e2 == e,
            None => r is None,
        },
        r matches Some((_, e)) ==> e <= t@.len(),
{
    if i >= t.len() || t[i] != '(' {
        return None;
    }
    let mut items: Vec<usize> = Vec::new();
    let mut pos = i + 1;
    let ghost target = spec_item_list(t@, i + 1);
    match scan_usize(t, i + 1) {
        Some((v, e)) => {
            proof {
                lemma_digit_run_bounds(t@, i + 1);
            }
            items.push(v);
            pos = e;
        },
        None => {},
    }
    proof {
        lemma_digit_run_bounds(t@, i + 1);
        lemma_more_items_bounds(t@, pos as int);
    }
    let mut done = items.len() == 0;
    while !done && pos < t.len() && t[pos] == ','
        invariant
            pos <= t@.len(),
            target == spec_item_list(t@, i + 1),
            target.0 == items@ + (if items@.len() == 0 { seq![] } else { spec_more_items(t@, pos as int).0 }),
            target.1 == (if items@.len() == 0 { pos as int } else { spec_more_items(t@, pos as int).1 }),
            items@.len() == 0 ==> spec_scan_usize(t@, i + 1) is None && pos == i + 1 && done,
            done && items@.len() > 0 ==> spec_more_items(t@, pos as int) == (Seq::<usize>::empty(), pos as int),
        decreases t.len() - pos, if done { 0int } else { 1int },
    {
        match scan_usize(t, pos + 1) {
            Some((v, e)) => {
                proof {
                    lemma_digit_run_bounds(t@, pos + 1);
                }
                assert(target.0 =~= items@.push(v) + spec_more_items(t@, e as int).0);
                items.push(v);
                pos = e;
            },
            None => {
                done = true;
            },
        }
    }
    assert(target.1 == pos);
    assert(target.0 =~= items@);
    if pos < t.len() && t[pos] == ')' {
        Some((items, pos + 1))
    } else {
        None
    }
}


/// `True` or `False` at position `i`.
pub open spec fn spec_scan_bool(t: Seq<char>, i: int) -> Option<(bool, int)> {
    if starts_with_at(t, i, "True"@) {
        Some((true, i + "True"@.len()))
    } else if starts_with_at(t, i, "False"@) {
        Some((false, i + "False"@.len()))
    } else {
        None
    }
}

/// Reads `True` or `False` at position `i` of `t`.
pub fn scan_bool(t: &[char], i: usize) -> (r: Option<(bool, usize)>)
    requires
        i <= t@.len(),
    ensures
        r == (match spec_scan_bool(t@, i as int) {
            Some((b, e)) => Some((b, e as usize)),
            None => None::<(bool, usize)>,
        }),
{
    proof {
        reveal_strlit("True");
        reveal_strlit("False");
    }
    let _tl = t.len();
    if matches_at(t, i, "True") {
        Some((true, i + 4))
    } else if matches_at(t, i, "False") {
        Some((false, i + 5))
    } else {
        None
    }
}

/// The element type that a PyTorch dtype name such as `torch.float32` denotes.
pub open spec fn spec_torch_dtype(w: Seq<char>) -> Option<DataType> {
    if w == "torch.float32"@ || w == "torch.float"@ {
        Some(DataType::Float32)
    } else if w == "torch.float16"@ {
        Some(DataType::Float16)
    } else if w == "torch.bfloat16"@ {
        Some(DataType::BFloat16)
    } else if w == "torch.bool"@ {
        Some(DataType::Boolean)
    } else if w == "torch.int64"@ {
        Some(DataType::Int64)
    } else {
        None
    }
}

/// A PyTorch dtype name at position `i`: the longest run of letters, digits
/// and dots there must be one of the known names.
pub open spec fn spec_scan_dtype(t: Seq<char>, i: int) -> Option<(DataType, int)> {
    let e = i + class_run(t, i, CharClass::DottedName);
    match spec_torch_dtype(t.subrange(i, e)) {
        Some(dt) => Some((dt, e)),
        None => None,
    }
}

/// Reads a PyTorch dtype name at position `i` of `t`.
pub fn scan_dtype(t: &[char], i: usize) -> (r: Option<(DataType, usize)>)
    requires
        i <= t@.len(),
    ensures
        r == (match spec_scan_dtype(t@, i as int) {
            Some((dt, e)) => Some((dt, e as usize)),
            None => None::<(DataType, usize)>,
        }),
{
    let e = skip_class(t, i, CharClass::DottedName);
    let w = &t[i..e];
    let dt = if chars_eq(w, "torch.float32") || chars_eq(w, "torch.float") {
        DataType::Float32
    } else if chars_eq(w, "torch.float16") {
        DataType::Float16
    } else if chars_eq(w, "torch.bfloat16") {
        DataType::BFloat16
    } else if chars_eq(w, "torch.bool") {
        DataType::Boolean
    } else if chars_eq(w, "torch.int64") {
        DataType::Int64
    } else {
        return None;
    };
    Some((dt, e))
}

/// The element type that a short PNNX type suffix such as `f32` denotes.
pub open spec fn spec_short_dtype(w: Seq<char>) -> Option<DataType> {
    if w == "f32"@ {
        Some(DataType::Float32)
    } else if w == "f16"@ {
        Some(DataType::Float16)
    } else if w == "bf16"@ {
        Some(DataType::BFloat16)
    } else if w == "bool"@ {
        Some(DataType::Boolean)
    } else if w == "i64"@ {
        Some(DataType::Int64)
    } else {
        None
    }
}

/// A shape followed by a type suffix, such as `(1,64,56,56)f32`, at position
/// `i`: the suffix is the longest non-empty run of letters and digits after
/// the tuple.
pub open spec fn spec_scan_shape_and_dtype(t: Seq<char>, i: int) -> Option<(Seq<usize>, DataType, int)> {
    match spec_scan_usize_tuple(t, i) {
        Some((shape, e)) => {
            let m = class_run(t, e, CharClass::Alnum);
            if m == 0 {
                None
            } else {
                match spec_short_dtype(t.subrange(e, e + m)) {
                    Some(dt) => Some((shape, dt, e + m)),
                    None => None,
                }
            }
        },
        None => None,
    }
}

/// Reads a shape followed by a type suffix at position `i` of `t`.
pub fn scan_shape_and_dtype(t: &[char], i: usize) -> (r: Option<(Vec<usize>, DataType, usize)>)
    requires
        i <= t@.len(),
    ensures
        match spec_scan_shape_and_dtype(t@, i as int) {
            Some((shape, dt, e)) => r matches Some((v, d, e2)) && v@ == shape && d == dt && e2 == e,
            None => r is None,
        },
{
    let (shape, e) = match scan_usize_tuple(t, i) {
        Some(p) => p,
        None => {
            return None;
        },
    };
    let e2 = skip_class(t, e, CharClass::Alnum);
    if e2 == e {
        return None;
    }
    let w = &t[e..e2];
    let dt = if chars_eq(w, "f32") {
        DataType::Float32
    } else if chars_eq(w, "f16") {
        DataType::Float16
    } else if chars_eq(w, "bf16") {
        DataType::BFloat16
    } else if chars_eq(w, "bool") {
        DataType::Boolean
    } else if chars_eq(w, "i64") {
        DataType::Int64
    } else {
        return None;
    };
    Some((shape, dt, e2))
}

/// Reads a shape followed by a type suffix, such as `(64,3,7,7)f32`, at the
/// start of `src`; gives the shape, the type and how many characters were read.
pub fn parse_shape_and_dtype(src: &str) -> (r: Option<(Vec<usize>, DataType, usize)>)
    ensures
        match spec_scan_shape_and_dtype(src@, 0) {
            Some((shape, dt, e)) => r matches Some((v, d, e2)) && v@ == shape && d == dt && e2 == e,
            None => r is None,
        },
{
    let t = chars_of(src);
    scan_shape_and_dtype(t.as_slice(), 0)
}

/// Reads a tuple of sizes, such as `(3,3)`, at the start of `src`; gives the
/// sizes and how many characters were read.
pub fn parse_usize_tuple(src: &str) -> (r: Option<(Vec<usize>, usize)>)
    ensures
        match spec_scan_usize_tuple(src@, 0) {
            Some((items, e)) => r matches Some((v, e2)) && v@ == items && e2 == e,
            None => r is None,
        },
{
    let t = chars_of(src);
    scan_usize_tuple(t.as_slice(), 0)
}

/// Reads an unsigned decimal number at the start of `src`; gives the number
/// and how many characters were read.
pub fn parse_usize(src: &str) -> (r: Option<(usize, usize)>)
    ensures
        r == (match spec_scan_usize(src@, 0) {
            Some((v, e)) => Some((v, e as usize)),
            None => None::<(usize, usize)>,
        }),
{
    let t = chars_of(src);
    scan_usize(t.as_slice(), 0)
}

/// Reads a signed decimal number at the start of `src`; gives the number and
/// how many characters were read.
pub fn parse_isize(src: &str) -> (r: Option<(isize, usize)>)
    ensures
        r == (match spec_scan_isize(src@, 0) {
            Some((v, e)) => Some((v, e as usize)),
            None => None::<(isize, usize)>,
        }),
{
    let t = chars_of(src);
    scan_isize(t.as_slice(), 0)
}

/// Reads `True` or `False` at the start of `src`; gives the value and how
/// many characters were read.
pub fn parse_bool(src: &str) -> (r: Option<(bool, usize)>)
    ensures
        r == (match spec_scan_bool(src@, 0) {
            Some((b, e)) => Some((b, e as usize)),
            None => None::<(bool, usize)>,
        }),
{
    let t = chars_of(src);
    scan_bool(t.as_slice(), 0)
}

/// Reads a PyTorch dtype name, such as `torch.float`, at the start of `src`;
/// gives the element type and how many characters were read.
pub fn parse_dtype(src: &str) -> (r: Option<(DataType, usize)>)
    ensures
        r == (match spec_scan_dtype(src@, 0) {
            Some((dt, e)) => Some((dt, e as usize)),
            None => None::<(DataType, usize)>,
        }),
{
    let t = chars_of(src);
    scan_dtype(t.as_slice(), 0)
}


} // verus!

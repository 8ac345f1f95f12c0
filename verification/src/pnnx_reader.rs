//! Reader for the text part of a PNNX model (`*.pnnx.param`).
//!
//! The text starts with a line holding the format's magic number and a line
//! holding the number of layers and the number of blobs. Every further
//! non-blank line describes one layer:
//!
//! `op_type op_name n_in n_out in_1 .. in_n out_1 .. out_m key=value ..`
//!
//! A key written `@k` names a tensor of the layer, `#k` gives the shape of
//! blob `k`, `$k` names the input `k`, and a bare key is an attribute.
use vstd::prelude::*;

use crate::dtype::DataType;
use crate::text::{
    chars_eq, chars_of, class_run, lemma_class_run_bounds, skip_class, spec_scan_usize, scan_usize,
    lemma_digit_run_bounds, string_from_chars, CharClass,
};
use crate::value_parser::{scan_shape_and_dtype, spec_scan_shape_and_dtype};
use vstd::string::StringExecFns;

verus! {

/// What a `key=value` pair of a layer line describes.
#[derive(Debug, Clone, Copy, PartialEq, Eq, Structural)]
pub enum PNNXKVType {
    /// A plain attribute: `key=value`.
    Attr,
    /// A tensor of the layer: `@key=value`.
    Tensor,
    /// The shape of a blob: `#key=value`.
    Shape,
    /// A named input: `$key=value`.
    Input,
}

/// One `key=value` pair of a layer line; `key` is without its marker.
#[derive(Debug, Clone)]
pub struct PNNXKV {
    pub kv_type: PNNXKVType,
    pub key: String,
    pub value: String,
}

/// One layer of the model.
#[derive(Debug, Clone)]
pub struct PNNXLine {
    pub op_type: String,
    pub op_name: String,
    pub input_idx_list: Vec<usize>,
    pub output_idx_list: Vec<usize>,
    pub kvs: Vec<PNNXKV>,
}

/// The whole text of a model.
#[derive(Debug, Clone)]
pub struct PNNXReaderResult {
    pub num_layers: usize,
    pub num_blobs: usize,
    pub lines: Vec<PNNXLine>,
}

/// Why a text is not a PNNX model.
#[derive(Debug, Clone, Copy, PartialEq, Eq, Structural)]
pub enum PNNXReadError {
    /// The first two lines are not the magic number and the two counts.
    Header,
    /// A layer line is malformed.
    Layer,
}

pub struct KVModel {
    pub kv_type: PNNXKVType,
    pub key: Seq<char>,
    pub value: Seq<char>,
}

pub struct LineModel {
    pub op_type: Seq<char>,
    pub op_name: Seq<char>,
    pub inputs: Seq<usize>,
    pub outputs: Seq<usize>,
    pub kvs: Seq<KVModel>,
}

pub struct ReaderModel {
    pub num_layers: usize,
    pub num_blobs: usize,
    pub lines: Seq<LineModel>,
}

impl View for PNNXKV {
    type V = KVModel;

    open spec fn view(&self) -> KVModel {
        KVModel { kv_type: self.kv_type, key: self.key@, value: self.value@ }
    }
}

impl View for PNNXLine {
    type V = LineModel;

    open spec fn view(&self) -> LineModel {
        LineModel {
            op_type: self.op_type@,
            op_name: self.op_name@,
            inputs: self.input_idx_list@,
            outputs: self.output_idx_list@,
            kvs: self.kvs@.map_values(|kv: PNNXKV| kv@),
        }
    }
}

impl View for PNNXReaderResult {
    type V = ReaderModel;

    open spec fn view(&self) -> ReaderModel {
        ReaderModel {
            num_layers: self.num_layers,
            num_blobs: self.num_blobs,
            lines: self.lines@.map_values(|l: PNNXLine| l@),
        }
    }
}

// ---------------------------------------------------------------------------
// The grammar
// ---------------------------------------------------------------------------

/// The blank-separated words of `l` from position `i` on.
pub open spec fn spec_words_from(l: Seq<char>, i: int) -> Seq<Seq<char>>
    decreases l.len() - i,
{
    if i < 0 || i > l.len() {
        seq![]
    } else {
        let j = i + class_run(l, i, CharClass::Blank);
        proof {
            lemma_class_run_bounds(l, i, CharClass::Blank);
        }
        if j >= l.len() {
            seq![]
        } else {
            let k = j + class_run(l, j, CharClass::Word);
            proof {
                lemma_class_run_bounds(l, j, CharClass::Word);
            }
            seq![l.subrange(j, k)] + spec_words_from(l, k)
        }
    }
}

/// The blank-separated words of `l`.
pub open spec fn spec_words(l: Seq<char>) -> Seq<Seq<char>> {
    spec_words_from(l, 0)
}

/// A word that is an unsigned decimal number fitting in `usize`, and nothing else.
pub open spec fn spec_full_usize(w: Seq<char>) -> Option<usize> {
    match spec_scan_usize(w, 0) {
        Some((v, e)) => if e == w.len() {
            Some(v)
        } else {
            None
        },
        None => None,
    }
}

/// Every word of `ws` read as a number.
pub open spec fn spec_all_usize(ws: Seq<Seq<char>>) -> Option<Seq<usize>>
    decreases ws.len(),
{
    if ws.len() == 0 {
        Some(seq![])
    } else {
        match (spec_full_usize(ws[0]), spec_all_usize(ws.drop_first())) {
            (Some(v), Some(r)) => Some(seq![v] + r),
            _ => None,
        }
    }
}

/// A `key=value` word: split at its first `=`; a leading `@`, `#` or `$`
/// of the key gives the kind of pair and is dropped.
pub open spec fn spec_parse_kv(w: Seq<char>) -> Option<KVModel> {
    let eq = class_run(w, 0, CharClass::NotEquals);
    if eq >= w.len() {
        None
    } else {
        let k = w.take(eq);
        let value = w.skip(eq + 1);
        if k.len() > 0 && k[0] == '@' {
            Some(KVModel { kv_type: PNNXKVType::Tensor, key: k.skip(1), value })
        } else if k.len() > 0 && k[0] == '#' {
            Some(KVModel { kv_type: PNNXKVType::Shape, key: k.skip(1), value })
        } else if k.len() > 0 && k[0] == '$' {
            Some(KVModel { kv_type: PNNXKVType::Input, key: k.skip(1), value })
        } else {
            Some(KVModel { kv_type: PNNXKVType::Attr, key: k, value })
        }
    }
}

/// Every word of `ws` read as a `key=value` pair.
pub open spec fn spec_all_kvs(ws: Seq<Seq<char>>) -> Option<Seq<KVModel>>
    decreases ws.len(),
{
    if ws.len() == 0 {
        Some(seq![])
    } else {
        match (spec_parse_kv(ws[0]), spec_all_kvs(ws.drop_first())) {
            (Some(v), Some(r)) => Some(seq![v] + r),
            _ => None,
        }
    }
}

/// The words of a layer line read as a layer.
pub open spec fn spec_parse_line(ws: Seq<Seq<char>>) -> Option<LineModel> {
    if ws.len() < 4 {
        None
    } else {
        match (spec_full_usize(ws[2]), spec_full_usize(ws[3])) {
            (Some(n_in), Some(n_out)) => {
                let a = 4 + n_in;
                let b = a + n_out;
                if b > ws.len() {
                    None
                } else {
                    match (
                        spec_all_usize(ws.subrange(4, a)),
                        spec_all_usize(ws.subrange(a, b)),
                        spec_all_kvs(ws.skip(b)),
                    ) {
                        (Some(inputs), Some(outputs), Some(kvs)) => Some(
                            LineModel { op_type: ws[0], op_name: ws[1], inputs, outputs, kvs },
                        ),
                        _ => None,
                    }
                }
            },
            _ => None,
        }
    }
}

/// Position of the end of the line of `t` that starts at `pos`.
pub open spec fn spec_line_end(t: Seq<char>, pos: int) -> int {
    pos + class_run(t, pos, CharClass::LineChar)
}

/// The layers of the lines of `t` from position `pos` on; lines without a
/// word are passed over.
pub open spec fn spec_parse_layers(t: Seq<char>, pos: int) -> Option<Seq<LineModel>>
    decreases t.len() - pos,
{
    if pos < 0 || pos >= t.len() {
        Some(seq![])
    } else {
        let k = spec_line_end(t, pos);
        proof {
            lemma_class_run_bounds(t, pos, CharClass::LineChar);
        }
        let ws = spec_words(t.subrange(pos, k));
        let rest = if k < t.len() {
            spec_parse_layers(t, k + 1)
        } else {
            Some(seq![])
        };
        if ws.len() == 0 {
            rest
        } else {
            match (spec_parse_line(ws), rest) {
                (Some(l), Some(r)) => Some(seq![l] + r),
                _ => None,
            }
        }
    }
}

/// The model that the text `t` describes.
pub open spec fn spec_read(t: Seq<char>) -> Result<ReaderModel, PNNXReadError> {
    let k0 = spec_line_end(t, 0);
    let k1 = spec_line_end(t, k0 + 1);
    if k0 >= t.len() {
        Err(PNNXReadError::Header)
    } else {
        let w0 = spec_words(t.subrange(0, k0));
        let w1 = spec_words(t.subrange(k0 + 1, k1));
        if w0.len() != 1 || w1.len() != 2 || spec_full_usize(w0[0]) is None
            || spec_full_usize(w1[0]) is None || spec_full_usize(w1[1]) is None {
            Err(PNNXReadError::Header)
        } else {
            let layers = if k1 < t.len() {
                spec_parse_layers(t, k1 + 1)
            } else {
                Some(seq![])
            };
            match layers {
                Some(ls) => Ok(
                    ReaderModel {
                        num_layers: spec_full_usize(w1[0]).unwrap(),
                        num_blobs: spec_full_usize(w1[1]).unwrap(),
                        lines: ls,
                    },
                ),
                None => Err(PNNXReadError::Layer),
            }
        }
    }
}


// ---------------------------------------------------------------------------
// Reading
// ---------------------------------------------------------------------------

proof fn lemma_words_step(l: Seq<char>, i: int)
    requires
        0 <= i <= l.len(),
    ensures
        ({
            let j = i + class_run(l, i, CharClass::Blank);
            let k = j + class_run(l, j, CharClass::Word);
            &&& i <= j <= l.len()
            &&& (j < l.len() ==> j < k <= l.len())
            &&& spec_words_from(l, i) == (if j >= l.len() {
                Seq::<Seq<char>>::empty()
            } else {
                seq![l.subrange(j, k)] + spec_words_from(l, k)
            })
        }),
{
    lemma_class_run_bounds(l, i, CharClass::Blank);
    let j = i + class_run(l, i, CharClass::Blank);
    if j < l.len() {
        lemma_class_run_bounds(l, j, CharClass::Word);
    }
}

/// The characters of each of the words `ws`.
pub open spec fn words_view(ws: Seq<Vec<char>>) -> Seq<Seq<char>> {
    ws.map_values(|w: Vec<char>| w@)
}

/// The blank-separated words of `l`.
pub fn words_of(l: &[char]) -> (ws: Vec<Vec<char>>)
    ensures
        words_view(ws@) == spec_words(l@),
{
    let mut ws: Vec<Vec<char>> = Vec::new();
    let mut pos: usize = 0;
    let ghost total = spec_words(l@);
    let mut done = false;
    while !done
        invariant
            pos <= l@.len(),
            total == spec_words(l@),
            !done ==> total == words_view(ws@) + spec_words_from(l@, pos as int),
            done ==> total == words_view(ws@),
        decreases l@.len() - pos, if done { 0int } else { 1int },
    {
        proof {
            lemma_words_step(l@, pos as int);
        }
        let j = skip_class(l, pos, CharClass::Blank);
        if j >= l.len() {
            done = true;
            assert(total =~= words_view(ws@));
        } else {
            let k = skip_class(l, j, CharClass::Word);
            let w = vstd::slice::slice_to_vec(&l[j..k]);
            let ghost old_dv = words_view(ws@);
            ws.push(w);
            assert(words_view(ws@) =~= old_dv.push(l@.subrange(j as int, k as int)));
            assert(total =~= words_view(ws@) + spec_words_from(l@, k as int));
            pos = k;
        }
    }
    ws
}

/// Reads a word that is nothing but an unsigned decimal number.
pub fn full_usize(w: &[char]) -> (r: Option<usize>)
    ensures
        r == spec_full_usize(w@),
{
    proof {
        lemma_digit_run_bounds(w@, 0);
    }
    match scan_usize(w, 0) {
        Some((v, e)) => if e == w.len() {
            Some(v)
        } else {
            None
        },
        None => None,
    }
}

proof fn lemma_all_usize_split(ws: Seq<Seq<char>>, k: int)
    requires
        0 <= k < ws.len(),
    ensures
        spec_all_usize(ws.skip(k)) == (match (spec_full_usize(ws[k]), spec_all_usize(ws.skip(k + 1))) {
            (Some(v), Some(r)) => Some(seq![v] + r),
            _ => None,
        }),
{
    assert(ws.skip(k).drop_first() =~= ws.skip(k + 1));
}

/// Reads the words `ws[lo..hi]` as numbers.
fn all_usize(ws: &Vec<Vec<char>>, lo: usize, hi: usize) -> (r: Option<Vec<usize>>)
    requires
        lo <= hi <= ws@.len(),
    ensures
        match spec_all_usize(words_view(ws@).subrange(lo as int, hi as int)) {
            Some(vs) => r matches Some(v) && v@ == vs,
            None => r is None,
        },
{
    let ghost sub = words_view(ws@).subrange(lo as int, hi as int);
    let mut out: Vec<usize> = Vec::new();
    let mut k = lo;
    assert(sub.skip(0) =~= sub);
    assert(forall|r: Seq<usize>| out@ + r =~= r);
    while k < hi
        invariant
            lo <= k <= hi <= ws@.len(),
            sub == words_view(ws@).subrange(lo as int, hi as int),
            spec_all_usize(sub) == (match spec_all_usize(sub.skip(k - lo)) {
                Some(r) => Some(out@ + r),
                None => None,
            }),
        decreases hi - k,
    {
        proof {
            lemma_all_usize_split(sub, k - lo);
        }
        assert(sub[k - lo] == ws[k as int]@);
        match full_usize(ws[k].as_slice()) {
            Some(v) => {
                assert(spec_all_usize(sub) == (match spec_all_usize(sub.skip(k + 1 - lo)) {
                    Some(r) => Some(out@.push(v) + r),
                    None => None,
                })) by {
                    match spec_all_usize(sub.skip(k + 1 - lo)) {
                        Some(r) => {
                            assert(out@ + (seq![v] + r) =~= out@.push(v) + r);
                        },
                        None => {},
                    }
                }
                out.push(v);
            },
            None => {
                return None;
            },
        }
        k = k + 1;
    }
    assert(sub.skip(k - lo) =~= Seq::<Seq<char>>::empty());
    assert(out@ + Seq::<usize>::empty() =~= out@);
    Some(out)
}

/// Reads a `key=value` word.
pub fn parse_kv(w: &[char]) -> (r: Option<PNNXKV>)
    ensures
        match spec_parse_kv(w@) {
            Some(m) => r matches Some(kv) && kv@ == m,
            None => r is None,
        },
{
    let eq = skip_class(w, 0, CharClass::NotEquals);
    if eq >= w.len() {
        return None;
    }
    let k = &w[0..eq];
    let value = string_from_chars(&w[eq + 1..w.len()]);
    assert(w@.subrange(eq + 1, w@.len() as int) =~= w@.skip(eq + 1));
    assert(w@.subrange(0, eq as int) =~= w@.take(eq as int));
    if k.len() > 0 && (k[0] == '@' || k[0] == '#' || k[0] == '$') {
        let kv_type = if k[0] == '@' {
            PNNXKVType::Tensor
        } else if k[0] == '#' {
            PNNXKVType::Shape
        } else {
            PNNXKVType::Input
        };
        let key = string_from_chars(&k[1..k.len()]);
        assert(k@.subrange(1, k@.len() as int) =~= k@.skip(1));
        Some(PNNXKV { kv_type, key, value })
    } else {
        let key = string_from_chars(k);
        Some(PNNXKV { kv_type: PNNXKVType::Attr, key, value })
    }
}

proof fn lemma_all_kvs_split(ws: Seq<Seq<char>>, k: int)
    requires
        0 <= k < ws.len(),
    ensures
        spec_all_kvs(ws.skip(k)) == (match (spec_parse_kv(ws[k]), spec_all_kvs(ws.skip(k + 1))) {
            (Some(v), Some(r)) => Some(seq![v] + r),
            _ => None,
        }),
{
    assert(ws.skip(k).drop_first() =~= ws.skip(k + 1));
}

/// Reads the words `ws[lo..]` as `key=value` pairs.
fn all_kvs(ws: &Vec<Vec<char>>, lo: usize) -> (r: Option<Vec<PNNXKV>>)
    requires
        lo <= ws@.len(),
    ensures
        match spec_all_kvs(words_view(ws@).skip(lo as int)) {
            Some(ms) => r matches Some(v) && v@.map_values(|kv: PNNXKV| kv@) == ms,
            None => r is None,
        },
{
    let ghost sub = words_view(ws@).skip(lo as int);
    let mut out: Vec<PNNXKV> = Vec::new();
    let mut k = lo;
    assert(sub.skip(0) =~= sub);
    assert(out@.map_values(|x: PNNXKV| x@) =~= Seq::<KVModel>::empty());
    assert(forall|r: Seq<KVModel>| #[trigger] (Seq::<KVModel>::empty() + r) =~= r);
    while k < ws.len()
        invariant
            lo <= k <= ws@.len(),
            sub == words_view(ws@).skip(lo as int),
            spec_all_kvs(sub) == (match spec_all_kvs(sub.skip(k - lo)) {
                Some(r) => Some(out@.map_values(|kv: PNNXKV| kv@) + r),
                None => None,
            }),
        decreases ws@.len() - k,
    {
        proof {
            lemma_all_kvs_split(sub, k - lo);
        }
        assert(sub[k - lo] == ws[k as int]@);
        match parse_kv(ws[k].as_slice()) {
            Some(kv) => {
                let ghost old_out = out@;
                out.push(kv);
                assert(out@.map_values(|x: PNNXKV| x@) =~= old_out.map_values(|x: PNNXKV| x@).push(kv@));
                assert(spec_all_kvs(sub) == (match spec_all_kvs(sub.skip(k + 1 - lo)) {
                    Some(r) => Some(out@.map_values(|x: PNNXKV| x@) + r),
                    None => None,
                })) by {
                    match spec_all_kvs(sub.skip(k + 1 - lo)) {
                        Some(r) => {
                            assert(old_out.map_values(|x: PNNXKV| x@) + (seq![kv@] + r)
                                =~= old_out.map_values(|x: PNNXKV| x@).push(kv@) + r);
                        },
                        None => {},
                    }
                }
            },
            None => {
                return None;
            },
        }
        k = k + 1;
    }
    assert(sub.skip(k - lo) =~= Seq::<Seq<char>>::empty());
    assert(out@.map_values(|x: PNNXKV| x@) + Seq::<KVModel>::empty() =~= out@.map_values(|x: PNNXKV| x@));
    Some(out)
}

/// Reads the words of a layer line as a layer.
pub fn parse_line(ws: &Vec<Vec<char>>) -> (r: Option<PNNXLine>)
    ensures
        match spec_parse_line(words_view(ws@)) {
            Some(m) => r matches Some(l) && l@ == m,
            None => r is None,
        },
{
    let ghost dv = words_view(ws@);
    if ws.len() < 4 {
        return None;
    }
    assert(dv[2] == ws[2]@ && dv[3] == ws[3]@ && dv[0] == ws[0]@ && dv[1] == ws[1]@);
    let n_in = match full_usize(ws[2].as_slice()) {
        Some(v) => v,
        None => {
            return None;
        },
    };
    let n_out = match full_usize(ws[3].as_slice()) {
        Some(v) => v,
        None => {
            return None;
        },
    };
    if n_in > ws.len() - 4 || n_out > ws.len() - 4 - n_in {
        return None;
    }
    let a = 4 + n_in;
    let b = a + n_out;
    let inputs = match all_usize(ws, 4, a) {
        Some(v) => v,
        None => {
            return None;
        },
    };
    let outputs = match all_usize(ws, a, b) {
        Some(v) => v,
        None => {
            return None;
        },
    };
    let kvs = match all_kvs(ws, b) {
        Some(v) => v,
        None => {
            return None;
        },
    };
    let op_type = string_from_chars(ws[0].as_slice());
    let op_name = string_from_chars(ws[1].as_slice());
    Some(PNNXLine { op_type, op_name, input_idx_list: inputs, output_idx_list: outputs, kvs })
}


/// The layers of the lines of `t` from position `pos` on.
fn parse_layers(t: &[char], pos: usize) -> (r: Option<Vec<PNNXLine>>)
    requires
        pos <= t@.len(),
    ensures
        match spec_parse_layers(t@, pos as int) {
            Some(ms) => r matches Some(v) && v@.map_values(|l: PNNXLine| l@) == ms,
            None => r is None,
        },
{
    let ghost target = spec_parse_layers(t@, pos as int);
    let mut out: Vec<PNNXLine> = Vec::new();
    let mut p = pos;
    assert(out@.map_values(|x: PNNXLine| x@) =~= Seq::<LineModel>::empty());
    assert(forall|r: Seq<LineModel>| #[trigger] (Seq::<LineModel>::empty() + r) =~= r);
    while p < t.len()
        invariant
            p <= t@.len(),
            target == spec_parse_layers(t@, pos as int),
            target == (match spec_parse_layers(t@, p as int) {
                Some(r) => Some(out@.map_values(|x: PNNXLine| x@) + r),
                None => None,
            }),
        decreases t@.len() - p,
    {
        proof {
            lemma_class_run_bounds(t@, p as int, CharClass::LineChar);
        }
        let k = skip_class(t, p, CharClass::LineChar);
        let ws = words_of(&t[p..k]);
        if ws.len() == 0 {
            if k >= t.len() {
                p = k;
            } else {
                p = k + 1;
            }
        } else {
            match parse_line(&ws) {
                Some(line) => {
                    let ghost old_out = out@;
                    out.push(line);
                    assert(out@.map_values(|x: PNNXLine| x@) =~= old_out.map_values(|x: PNNXLine| x@).push(line@));
                    proof {
                        let rest = if k < t@.len() { spec_parse_layers(t@, k + 1) } else { Some(Seq::<LineModel>::empty()) };
                        match rest {
                            Some(r) => {
                                assert(old_out.map_values(|x: PNNXLine| x@) + (seq![line@] + r)
                                    =~= old_out.map_values(|x: PNNXLine| x@).push(line@) + r);
                            },
                            None => {},
                        }
                        if k >= t@.len() {
                            assert(out@.map_values(|x: PNNXLine| x@) + Seq::<LineModel>::empty()
                                =~= out@.map_values(|x: PNNXLine| x@));
                        }
                    }
                    if k >= t.len() {
                        p = k;
                    } else {
                        p = k + 1;
                    }
                },
                None => {
                    assert(words_view(ws@) == spec_words(t@.subrange(p as int, k as int)));
                    assert(spec_parse_line(spec_words(t@.subrange(p as int, k as int))) is None);
                    assert(spec_parse_layers(t@, p as int) is None);
                    return None;
                },
            }
        }
    }
    assert(out@.map_values(|x: PNNXLine| x@) + Seq::<LineModel>::empty()
        =~= out@.map_values(|x: PNNXLine| x@));
    Some(out)
}

impl PNNXReaderResult {
    /// Reads the text of a PNNX model.
    pub fn from_text(text: &str) -> (r: Result<PNNXReaderResult, PNNXReadError>)
        ensures
            match spec_read(text@) {
                Ok(m) => r matches Ok(v) && v@ == m,
                Err(e) => r == Err::<PNNXReaderResult, PNNXReadError>(e),
            },
    {
        let t = chars_of(text);
        let k0 = skip_class(t.as_slice(), 0, CharClass::LineChar);
        if k0 >= t.len() {
            return Err(PNNXReadError::Header);
        }
        let w0 = words_of(&t.as_slice()[0..k0]);
        let k1 = skip_class(t.as_slice(), k0 + 1, CharClass::LineChar);
        let w1 = words_of(&t.as_slice()[k0 + 1..k1]);
        if w0.len() != 1 || w1.len() != 2 {
            return Err(PNNXReadError::Header);
        }
        assert(words_view(w0@)[0] == w0[0]@);
        assert(words_view(w1@)[0] == w1[0]@ && words_view(w1@)[1] == w1[1]@);
        let magic = full_usize(w0[0].as_slice());
        let num_layers = full_usize(w1[0].as_slice());
        let num_blobs = full_usize(w1[1].as_slice());
        match (magic, num_layers, num_blobs) {
            (Some(_), Some(num_layers), Some(num_blobs)) => {
                let lines = if k1 < t.len() {
                    parse_layers(t.as_slice(), k1 + 1)
                } else {
                    Some(Vec::new())
                };
                match lines {
                    Some(lines) => {
                        proof {
                            if k1 >= t@.len() {
                                assert(lines@.map_values(|l: PNNXLine| l@) =~= Seq::<LineModel>::empty());
                            }
                        }
                        Ok(PNNXReaderResult { num_layers, num_blobs, lines })
                    },
                    None => Err(PNNXReadError::Layer),
                }
            },
            _ => Err(PNNXReadError::Header),
        }
    }
}


/// The name under which the tensor `key` of layer `op_name` is stored in the
/// weight archive: `op_name.key`.
pub open spec fn spec_tensor_key(op_name: Seq<char>, key: Seq<char>) -> Seq<char> {
    op_name + seq!['.'] + key
}

/// The shapes and types that the tensor pairs (`@key=(..)type`) of a list of
/// pairs give, in order; pairs whose value is not a shape and a type are
/// passed over.
pub open spec fn spec_kv_tensors(op_name: Seq<char>, kvs: Seq<KVModel>) -> Seq<(Seq<char>, Seq<usize>, DataType)>
    decreases kvs.len(),
{
    if kvs.len() == 0 {
        seq![]
    } else {
        let prev = spec_kv_tensors(op_name, kvs.drop_last());
        let kv = kvs.last();
        if kv.kv_type == PNNXKVType::Tensor {
            match spec_scan_shape_and_dtype(kv.value, 0) {
                Some((shape, dt, _)) => prev.push((spec_tensor_key(op_name, kv.key), shape, dt)),
                None => prev,
            }
        } else {
            prev
        }
    }
}

/// The shapes and types of all the tensors that the layers name, in order.
pub open spec fn spec_tensors(lines: Seq<LineModel>) -> Seq<(Seq<char>, Seq<usize>, DataType)>
    decreases lines.len(),
{
    if lines.len() == 0 {
        seq![]
    } else {
        spec_tensors(lines.drop_last()) + spec_kv_tensors(lines.last().op_name, lines.last().kvs)
    }
}

/// The first pair of `kvs` with this key and kind.
pub open spec fn spec_get(kvs: Seq<KVModel>, key: Seq<char>, kv_type: PNNXKVType) -> Option<KVModel>
    decreases kvs.len(),
{
    if kvs.len() == 0 {
        None
    } else if kvs[0].key == key && kvs[0].kv_type == kv_type {
        Some(kvs[0])
    } else {
        spec_get(kvs.drop_first(), key, kv_type)
    }
}

impl PNNXLine {
    /// The first `key=value` pair of the line with this key and kind.
    pub fn get(&self, key: &str, kv_type: PNNXKVType) -> (r: Option<&PNNXKV>)
        ensures
            match spec_get(self@.kvs, key@, kv_type) {
                Some(m) => r matches Some(kv) && kv@ == m,
                None => r is None,
            },
    {
        let k = chars_of(key);
        let ghost kvs = self@.kvs;
        let mut i: usize = 0;
        assert(kvs.skip(0) =~= kvs);
        while i < self.kvs.len()
            invariant
                k@ == key@,
                kvs == self@.kvs,
                i <= self.kvs@.len(),
                spec_get(kvs, key@, kv_type) == spec_get(kvs.skip(i as int), key@, kv_type),
            decreases self.kvs@.len() - i,
        {
            let kv = &self.kvs[i];
            assert(kvs.skip(i as int)[0] == kv@);
            assert(kvs.skip(i as int).drop_first() =~= kvs.skip(i + 1));
            if kv.kv_type == kv_type {
                let kc = chars_of(kv.key.as_str());
                if chars_eq(kc.as_slice(), key) {
                    return Some(kv);
                }
            }
            i = i + 1;
        }
        None
    }

    /// The name under which the tensor `name` of this layer is stored in the
    /// weight archive: the layer's name, a dot, and `name`.
    pub fn get_tensor_key(&self, name: &str) -> (r: String)
        ensures
            r@ == spec_tensor_key(self.op_name@, name@),
    {
        let mut r = self.op_name.clone();
        r.append(".");
        r.append(name);
        proof {
            reveal_strlit(".");
        }
        r
    }
}

impl PNNXReaderResult {
    /// The shape and the element type of every tensor that a layer names
    /// (`@key=(..)type`), under the name `op_name.key`, in the order of the
    /// text.
    pub fn get_shape_and_dtype_map(&self) -> (r: (Vec<(String, Vec<usize>)>, Vec<(String, DataType)>))
        ensures
            r.0@.len() == spec_tensors(self@.lines).len(),
            r.1@.len() == spec_tensors(self@.lines).len(),
            forall|i: int|
                0 <= i < r.0@.len() ==> {
                    let e = spec_tensors(self@.lines)[i];
                    &&& (#[trigger] r.0@[i]).0@ == e.0
                    &&& r.0@[i].1@ == e.1
                    &&& r.1@[i].0@ == e.0
                    &&& r.1@[i].1 == e.2
                },
    {
        let mut shapes: Vec<(String, Vec<usize>)> = Vec::new();
        let mut dtypes: Vec<(String, DataType)> = Vec::new();
        let ghost lv = self@.lines;
        let mut li: usize = 0;
        while li < self.lines.len()
            invariant
                lv == self@.lines,
                li <= lv.len(),
                Self::entries_match(shapes@, dtypes@, spec_tensors(lv.take(li as int))),
            decreases lv.len() - li,
        {
            let line = &self.lines[li];
            let ghost lm = line@;
            assert(lv[li as int] == lm);
            assert(lv.take(li + 1).drop_last() =~= lv.take(li as int));
            let ghost base = spec_tensors(lv.take(li as int));
            let mut ki: usize = 0;
            while ki < line.kvs.len()
                invariant
                    lm == line@,
                    ki <= lm.kvs.len(),
                    Self::entries_match(shapes@, dtypes@, base + spec_kv_tensors(lm.op_name, lm.kvs.take(ki as int))),
                decreases lm.kvs.len() - ki,
            {
                let kv = &line.kvs[ki];
                assert(lm.kvs[ki as int] == kv@);
                assert(lm.kvs.take(ki + 1).drop_last() =~= lm.kvs.take(ki as int));
                if kv.kv_type == PNNXKVType::Tensor {
                    let vc = chars_of(kv.value.as_str());
                    match scan_shape_and_dtype(vc.as_slice(), 0) {
                        Some((shape, dt, _)) => {
                            let name = line.get_tensor_key(kv.key.as_str());
                            let name2 = line.get_tensor_key(kv.key.as_str());
                            let ghost prev = base + spec_kv_tensors(lm.op_name, lm.kvs.take(ki as int));
                            shapes.push((name, shape));
                            dtypes.push((name2, dt));
                            assert(base + spec_kv_tensors(lm.op_name, lm.kvs.take(ki + 1))
                                =~= prev.push((spec_tensor_key(lm.op_name, kv@.key), shape@, dt)));
                        },
                        None => {},
                    }
                }
                ki = ki + 1;
            }
            assert(lm.kvs.take(lm.kvs.len() as int) =~= lm.kvs);
            li = li + 1;
        }
        assert(lv.take(lv.len() as int) =~= lv);
        (shapes, dtypes)
    }

    /// The two lists hold the names with the shapes, and the names with the
    /// types, of `es`.
    pub open spec fn entries_match(
        shapes: Seq<(String, Vec<usize>)>,
        dtypes: Seq<(String, DataType)>,
        es: Seq<(Seq<char>, Seq<usize>, DataType)>,
    ) -> bool {
        &&& shapes.len() == es.len()
        &&& dtypes.len() == es.len()
        &&& forall|i: int|
            0 <= i < shapes.len() ==> {
                &&& (#[trigger] shapes[i]).0@ == es[i].0
                &&& shapes[i].1@ == es[i].1
                &&& dtypes[i].0@ == es[i].0
                &&& dtypes[i].1 == es[i].2
            }
    }
}

} // verus!

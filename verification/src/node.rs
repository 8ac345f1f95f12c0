//! What a layer line of a PNNX model asks for: the kind of layer and the
//! settings read from its attributes.
use vstd::prelude::*;

use crate::dtype::DataType;
use crate::pnnx_reader::{spec_get, spec_tensor_key, LineModel, PNNXKVType, PNNXLine};
use crate::text::{chars_eq, chars_of, string_from_chars};
use crate::value_parser::{
    scan_bool, scan_dtype, scan_usize_tuple, spec_scan_bool,
    spec_scan_dtype, spec_scan_usize_tuple,
};
use crate::text::{scan_isize, scan_usize, spec_scan_isize, spec_scan_usize};

verus! {

/// A layer as a PNNX line describes it, with text of type `S` and lists of
/// sizes of type `V`. Real-valued settings are kept as the text that holds
/// them; tensors are named by their key in the weight archive.
#[derive(Debug, Clone)]
pub enum LayerDescOf<S, V> {
    Input,
    Output,
    /// A constant tensor, stored in the weight archive under `data`.
    Attribute { data: S },
    ReLU,
    Conv2d {
        dilation: V,
        groups: usize,
        in_channels: usize,
        kernel_size: V,
        out_channels: usize,
        padding: V,
        stride: V,
        weight: S,
        bias: S,
    },
    MaxPool2d { dilation: V, kernel_size: V, padding: V, stride: V },
    Expression { expr: S },
    AdaptiveAvgPool2d { output_size: V },
    Flatten { start_dim: isize, end_dim: isize },
    /// A linear layer with its own weights.
    Linear { in_features: usize, out_features: usize, weight: S, bias: S },
    /// A linear layer that takes its weights as its first input.
    LinearWithWeightsInput { in_features: usize, out_features: usize, weight: S, bias: S },
    LayerNorm { eps: S, elementwise_affine: bool, normalized_shape: V, weight: S, bias: S },
    GeLU,
    View { shape: V },
    Transpose { dim0: isize, dim1: isize },
    Expand { shape: V },
    MaskedFill { value: S },
    TensorTo { dtype: DataType },
    Embedding { weight: S },
    ScaledDotProductAttention { scale: Option<S>, is_causal: bool, max_seq_len: usize },
}

pub type LayerDesc = LayerDescOf<String, Vec<usize>>;

pub type LayerDescModel = LayerDescOf<Seq<char>, Seq<usize>>;

/// Why a layer line cannot be turned into a layer.
#[derive(Debug, Clone, Copy, PartialEq, Eq, Structural)]
pub enum DescribeError {
    /// An attribute the layer needs is missing or does not read.
    Malformed,
    /// The kind of layer is not one this engine runs.
    Unsupported,
}

impl View for LayerDesc {
    type V = LayerDescModel;

    open spec fn view(&self) -> LayerDescModel {
        match self {
            LayerDescOf::Input => LayerDescOf::Input,
            LayerDescOf::Output => LayerDescOf::Output,
            LayerDescOf::Attribute { data } => LayerDescOf::Attribute { data: data@ },
            LayerDescOf::ReLU => LayerDescOf::ReLU,
            LayerDescOf::Conv2d {
                dilation,
                groups,
                in_channels,
                kernel_size,
                out_channels,
                padding,
                stride,
                weight,
                bias,
            } => LayerDescOf::Conv2d {
                dilation: dilation@,
                groups: *groups,
                in_channels: *in_channels,
                kernel_size: kernel_size@,
                out_channels: *out_channels,
                padding: padding@,
                stride: stride@,
                weight: weight@,
                bias: bias@,
            },
            LayerDescOf::MaxPool2d { dilation, kernel_size, padding, stride } => LayerDescOf::MaxPool2d {
                dilation: dilation@,
                kernel_size: kernel_size@,
                padding: padding@,
                stride: stride@,
            },
            LayerDescOf::Expression { expr } => LayerDescOf::Expression { expr: expr@ },
            LayerDescOf::AdaptiveAvgPool2d { output_size } => LayerDescOf::AdaptiveAvgPool2d {
                output_size: output_size@,
            },
            LayerDescOf::Flatten { start_dim, end_dim } => LayerDescOf::Flatten {
                start_dim: *start_dim,
                end_dim: *end_dim,
            },
            LayerDescOf::Linear { in_features, out_features, weight, bias } => LayerDescOf::Linear {
                in_features: *in_features,
                out_features: *out_features,
                weight: weight@,
                bias: bias@,
            },
            LayerDescOf::LinearWithWeightsInput { in_features, out_features, weight, bias } =>
                LayerDescOf::LinearWithWeightsInput {
                in_features: *in_features,
                out_features: *out_features,
                weight: weight@,
                bias: bias@,
            },
            LayerDescOf::LayerNorm { eps, elementwise_affine, normalized_shape, weight, bias } =>
                LayerDescOf::LayerNorm {
                eps: eps@,
                elementwise_affine: *elementwise_affine,
                normalized_shape: normalized_shape@,
                weight: weight@,
                bias: bias@,
            },
            LayerDescOf::GeLU => LayerDescOf::GeLU,
            LayerDescOf::View { shape } => LayerDescOf::View { shape: shape@ },
            LayerDescOf::Transpose { dim0, dim1 } => LayerDescOf::Transpose { dim0: *dim0, dim1: *dim1 },
            LayerDescOf::Expand { shape } => LayerDescOf::Expand { shape: shape@ },
            LayerDescOf::MaskedFill { value } => LayerDescOf::MaskedFill { value: value@ },
            LayerDescOf::TensorTo { dtype } => LayerDescOf::TensorTo { dtype: *dtype },
            LayerDescOf::Embedding { weight } => LayerDescOf::Embedding { weight: weight@ },
            LayerDescOf::ScaledDotProductAttention { scale, is_causal, max_seq_len } =>
                LayerDescOf::ScaledDotProductAttention {
                scale: match scale {
                    Some(s) => Some(s@),
                    None => None,
                },
                is_causal: *is_causal,
                max_seq_len: *max_seq_len,
            },
        }
    }
}

// ---------------------------------------------------------------------------
// Reading attributes
// ---------------------------------------------------------------------------

/// The text of the attribute `key` of a line.
pub open spec fn spec_attr(l: LineModel, key: Seq<char>) -> Option<Seq<char>> {
    match spec_get(l.kvs, key, PNNXKVType::Attr) {
        Some(kv) => Some(kv.value),
        None => None,
    }
}

/// The attribute `key` read as a tuple of sizes (trailing text is ignored).
pub open spec fn spec_attr_tuple(l: LineModel, key: Seq<char>) -> Option<Seq<usize>> {
    match spec_attr(l, key) {
        Some(v) => match spec_scan_usize_tuple(v, 0) {
            Some((t, _)) => Some(t),
            None => None,
        },
        None => None,
    }
}

/// The attribute `key` read as an unsigned number (trailing text is ignored).
pub open spec fn spec_attr_usize(l: LineModel, key: Seq<char>) -> Option<usize> {
    match spec_attr(l, key) {
        Some(v) => match spec_scan_usize(v, 0) {
            Some((n, _)) => Some(n),
            None => None,
        },
        None => None,
    }
}

/// The attribute `key` read as a signed number (trailing text is ignored).
pub open spec fn spec_attr_isize(l: LineModel, key: Seq<char>) -> Option<isize> {
    match spec_attr(l, key) {
        Some(v) => match spec_scan_isize(v, 0) {
            Some((n, _)) => Some(n),
            None => None,
        },
        None => None,
    }
}

/// The attribute `key` read as `True` or `False` (trailing text is ignored).
pub open spec fn spec_attr_bool(l: LineModel, key: Seq<char>) -> Option<bool> {
    match spec_attr(l, key) {
        Some(v) => match spec_scan_bool(v, 0) {
            Some((b, _)) => Some(b),
            None => None,
        },
        None => None,
    }
}

/// The attribute `key` read as a PyTorch dtype name.
pub open spec fn spec_attr_dtype(l: LineModel, key: Seq<char>) -> Option<DataType> {
    match spec_attr(l, key) {
        Some(v) => match spec_scan_dtype(v, 0) {
            Some((d, _)) => Some(d),
            None => None,
        },
        None => None,
    }
}

fn attr_chars(line: &PNNXLine, key: &str) -> (r: Option<Vec<char>>)
    ensures
        match spec_attr(line@, key@) {
            Some(v) => r matches Some(c) && c@ == v,
            None => r is None,
        },
{
    match line.get(key, PNNXKVType::Attr) {
        Some(kv) => Some(chars_of(kv.value.as_str())),
        None => None,
    }
}

fn attr_string(line: &PNNXLine, key: &str) -> (r: Option<String>)
    ensures
        match spec_attr(line@, key@) {
            Some(v) => r matches Some(c) && c@ == v,
            None => r is None,
        },
{
    match attr_chars(line, key) {
        Some(c) => Some(string_from_chars(c.as_slice())),
        None => None,
    }
}

fn attr_tuple(line: &PNNXLine, key: &str) -> (r: Option<Vec<usize>>)
    ensures
        match spec_attr_tuple(line@, key@) {
            Some(v) => r matches Some(c) && c@ == v,
            None => r is None,
        },
{
    match attr_chars(line, key) {
        Some(c) => match scan_usize_tuple(c.as_slice(), 0) {
            Some((t, _)) => Some(t),
            None => None,
        },
        None => None,
    }
}

fn attr_usize(line: &PNNXLine, key: &str) -> (r: Option<usize>)
    ensures
        r == spec_attr_usize(line@, key@),
{
    match attr_chars(line, key) {
        Some(c) => match scan_usize(c.as_slice(), 0) {
            Some((n, _)) => Some(n),
            None => None,
        },
        None => None,
    }
}

fn attr_isize(line: &PNNXLine, key: &str) -> (r: Option<isize>)
    ensures
        r == spec_attr_isize(line@, key@),
{
    match attr_chars(line, key) {
        Some(c) => match scan_isize(c.as_slice(), 0) {
            Some((n, _)) => Some(n),
            None => None,
        },
        None => None,
    }
}

fn attr_bool(line: &PNNXLine, key: &str) -> (r: Option<bool>)
    ensures
        r == spec_attr_bool(line@, key@),
{
    match attr_chars(line, key) {
        Some(c) => match scan_bool(c.as_slice(), 0) {
            Some((b, _)) => Some(b),
            None => None,
        },
        None => None,
    }
}

fn attr_dtype(line: &PNNXLine, key: &str) -> (r: Option<DataType>)
    ensures
        r == spec_attr_dtype(line@, key@),
{
    match attr_chars(line, key) {
        Some(c) => match scan_dtype(c.as_slice(), 0) {
            Some((d, _)) => Some(d),
            None => None,
        },
        None => None,
    }
}


// ---------------------------------------------------------------------------
// Describing a layer line
// ---------------------------------------------------------------------------

/// The layer that a line describes.
pub open spec fn spec_describe(l: LineModel) -> Result<LayerDescModel, DescribeError> {
    let t = l.op_type;
    if t == "pnnx.Input"@ {
        Ok(LayerDescOf::Input)
    } else if t == "pnnx.Ouput"@ || t == "pnnx.Output"@ {
        Ok(LayerDescOf::Output)
    } else if t == "pnnx.Attribute"@ {
        Ok(LayerDescOf::Attribute { data: spec_tensor_key(l.op_name, "data"@) })
    } else if t == "nn.ReLU"@ {
        Ok(LayerDescOf::ReLU)
    } else if t == "nn.Conv2d"@ {
        match (
            spec_attr_tuple(l, "dilation"@),
            spec_attr_usize(l, "groups"@),
            spec_attr_usize(l, "in_channels"@),
            spec_attr_tuple(l, "kernel_size"@),
            spec_attr_usize(l, "out_channels"@),
            spec_attr_tuple(l, "padding"@),
            spec_attr_tuple(l, "stride"@),
        ) {
            (Some(dilation), Some(groups), Some(in_channels), Some(kernel_size), Some(out_channels), Some(padding), Some(stride)) =>
                Ok(
                LayerDescOf::Conv2d {
                    dilation,
                    groups,
                    in_channels,
                    kernel_size,
                    out_channels,
                    padding,
                    stride,
                    weight: spec_tensor_key(l.op_name, "weight"@),
                    bias: spec_tensor_key(l.op_name, "bias"@),
                },
            ),
            _ => Err(DescribeError::Malformed),
        }
    } else if t == "nn.MaxPool2d"@ {
        match (
            spec_attr_tuple(l, "dilation"@),
            spec_attr_tuple(l, "kernel_size"@),
            spec_attr_tuple(l, "padding"@),
            spec_attr_tuple(l, "stride"@),
        ) {
            (Some(dilation), Some(kernel_size), Some(padding), Some(stride)) => Ok(
                LayerDescOf::MaxPool2d { dilation, kernel_size, padding, stride },
            ),
            _ => Err(DescribeError::Malformed),
        }
    } else if t == "pnnx.Expression"@ {
        match spec_attr(l, "expr"@) {
            Some(expr) => Ok(LayerDescOf::Expression { expr }),
            None => Err(DescribeError::Malformed),
        }
    } else if t == "nn.AdaptiveAvgPool2d"@ {
        match spec_attr_tuple(l, "output_size"@) {
            Some(output_size) => Ok(LayerDescOf::AdaptiveAvgPool2d { output_size }),
            None => Err(DescribeError::Malformed),
        }
    } else if t == "torch.flatten"@ {
        match (spec_attr_isize(l, "end_dim"@), spec_attr_isize(l, "start_dim"@)) {
            (Some(end_dim), Some(start_dim)) => Ok(LayerDescOf::Flatten { start_dim, end_dim }),
            _ => Err(DescribeError::Malformed),
        }
    } else if t == "nn.Linear"@ {
        match (spec_attr_usize(l, "in_features"@), spec_attr_usize(l, "out_features"@)) {
            (Some(in_features), Some(out_features)) => if l.inputs.len() == 1 {
                Ok(
                    LayerDescOf::Linear {
                        in_features,
                        out_features,
                        weight: spec_tensor_key(l.op_name, "weight"@),
                        bias: spec_tensor_key(l.op_name, "bias"@),
                    },
                )
            } else {
                Ok(
                    LayerDescOf::LinearWithWeightsInput {
                        in_features,
                        out_features,
                        weight: spec_tensor_key(l.op_name, "weight"@),
                        bias: spec_tensor_key(l.op_name, "bias"@),
                    },
                )
            },
            _ => Err(DescribeError::Malformed),
        }
    } else if t == "nn.LayerNorm"@ {
        match (
            spec_attr(l, "eps"@),
            spec_attr_bool(l, "elementwise_affine"@),
            spec_attr_tuple(l, "normalized_shape"@),
        ) {
            (Some(eps), Some(elementwise_affine), Some(normalized_shape)) => Ok(
                LayerDescOf::LayerNorm {
                    eps,
                    elementwise_affine,
                    normalized_shape,
                    weight: spec_tensor_key(l.op_name, "weight"@),
                    bias: spec_tensor_key(l.op_name, "bias"@),
                },
            ),
            _ => Err(DescribeError::Malformed),
        }
    } else if t == "F.gelu"@ {
        Ok(LayerDescOf::GeLU)
    } else if t == "Tensor.view"@ || t == "Tensor.reshape"@ {
        match spec_attr_tuple(l, "shape"@) {
            Some(shape) => Ok(LayerDescOf::View { shape }),
            None => Err(DescribeError::Malformed),
        }
    } else if t == "torch.transpose"@ {
        match (spec_attr_isize(l, "dim0"@), spec_attr_isize(l, "dim1"@)) {
            (Some(dim0), Some(dim1)) => Ok(LayerDescOf::Transpose { dim0, dim1 }),
            _ => Err(DescribeError::Malformed),
        }
    } else if t == "Tensor.expand"@ {
        match spec_attr_tuple(l, "shape"@) {
            Some(shape) => Ok(LayerDescOf::Expand { shape }),
            None => Err(DescribeError::Malformed),
        }
    } else if t == "Tensor.masked_fill"@ {
        match spec_attr(l, "value"@) {
            Some(value) => Ok(LayerDescOf::MaskedFill { value }),
            None => Err(DescribeError::Malformed),
        }
    } else if t == "Tensor.to"@ {
        match spec_attr_dtype(l, "dtype"@) {
            Some(dtype) => Ok(LayerDescOf::TensorTo { dtype }),
            None => Err(DescribeError::Malformed),
        }
    } else if t == "nn.Embedding"@ {
        Ok(LayerDescOf::Embedding { weight: spec_tensor_key(l.op_name, "weight"@) })
    } else if t == "F.scaled_dot_product_attention"@ {
        match (spec_attr_bool(l, "is_causal"@), spec_get(l.kvs, "query"@, PNNXKVType::Input)) {
            (Some(is_causal), Some(query)) => match spec_get(l.kvs, query.value, PNNXKVType::Shape) {
                Some(shape_kv) => match spec_scan_usize_tuple(shape_kv.value, 0) {
                    Some((shape, _)) => if shape.len() >= 2 {
                        Ok(
                            LayerDescOf::ScaledDotProductAttention {
                                scale: spec_attr(l, "scale"@),
                                is_causal,
                                max_seq_len: shape[1],
                            },
                        )
                    } else {
                        Err(DescribeError::Malformed)
                    },
                    None => Err(DescribeError::Malformed),
                },
                None => Err(DescribeError::Malformed),
            },
            _ => Err(DescribeError::Malformed),
        }
    } else {
        Err(DescribeError::Unsupported)
    }
}

impl LayerDescOf<String, Vec<usize>> {
    /// The layer that a PNNX line describes.
    pub fn from_line(line: &PNNXLine) -> (r: Result<LayerDesc, DescribeError>)
        ensures
            match spec_describe(line@) {
                Ok(m) => r matches Ok(d) && d@ == m,
                Err(e) => r == Err::<LayerDesc, DescribeError>(e),
            },
    {
        let t = chars_of(line.op_type.as_str());
        let t = t.as_slice();
        let malformed = Err(DescribeError::Malformed);
        if chars_eq(t, "pnnx.Input") {
            Ok(LayerDescOf::Input)
        } else if chars_eq(t, "pnnx.Ouput") || chars_eq(t, "pnnx.Output") {
            Ok(LayerDescOf::Output)
        } else if chars_eq(t, "pnnx.Attribute") {
            Ok(LayerDescOf::Attribute { data: line.get_tensor_key("data") })
        } else if chars_eq(t, "nn.ReLU") {
            Ok(LayerDescOf::ReLU)
        } else if chars_eq(t, "nn.Conv2d") {
            match (
                attr_tuple(line, "dilation"),
                attr_usize(line, "groups"),
                attr_usize(line, "in_channels"),
                attr_tuple(line, "kernel_size"),
                attr_usize(line, "out_channels"),
                attr_tuple(line, "padding"),
                attr_tuple(line, "stride"),
            ) {
                (Some(dilation), Some(groups), Some(in_channels), Some(kernel_size), Some(out_channels), Some(padding), Some(stride)) =>
                    Ok(
                    LayerDescOf::Conv2d {
                        dilation,
                        groups,
                        in_channels,
                        kernel_size,
                        out_channels,
                        padding,
                        stride,
                        weight: line.get_tensor_key("weight"),
                        bias: line.get_tensor_key("bias"),
                    },
                ),
                _ => malformed,
            }
        } else if chars_eq(t, "nn.MaxPool2d") {
            match (
                attr_tuple(line, "dilation"),
                attr_tuple(line, "kernel_size"),
                attr_tuple(line, "padding"),
                attr_tuple(line, "stride"),
            ) {
                (Some(dilation), Some(kernel_size), Some(padding), Some(stride)) => Ok(
                    LayerDescOf::MaxPool2d { dilation, kernel_size, padding, stride },
                ),
                _ => malformed,
            }
        } else if chars_eq(t, "pnnx.Expression") {
            match attr_string(line, "expr") {
                Some(expr) => Ok(LayerDescOf::Expression { expr }),
                None => malformed,
            }
        } else if chars_eq(t, "nn.AdaptiveAvgPool2d") {
            match attr_tuple(line, "output_size") {
                Some(output_size) => Ok(LayerDescOf::AdaptiveAvgPool2d { output_size }),
                None => malformed,
            }
        } else if chars_eq(t, "torch.flatten") {
            match (attr_isize(line, "end_dim"), attr_isize(line, "start_dim")) {
                (Some(end_dim), Some(start_dim)) => Ok(LayerDescOf::Flatten { start_dim, end_dim }),
                _ => malformed,
            }
        } else if chars_eq(t, "nn.Linear") {
            match (attr_usize(line, "in_features"), attr_usize(line, "out_features")) {
                (Some(in_features), Some(out_features)) => if line.input_idx_list.len() == 1 {
                    Ok(
                        LayerDescOf::Linear {
                            in_features,
                            out_features,
                            weight: line.get_tensor_key("weight"),
                            bias: line.get_tensor_key("bias"),
                        },
                    )
                } else {
                    Ok(
                        LayerDescOf::LinearWithWeightsInput {
                            in_features,
                            out_features,
                            weight: line.get_tensor_key("weight"),
                            bias: line.get_tensor_key("bias"),
                        },
                    )
                },
                _ => malformed,
            }
        } else if chars_eq(t, "nn.LayerNorm") {
            match (
                attr_string(line, "eps"),
                attr_bool(line, "elementwise_affine"),
                attr_tuple(line, "normalized_shape"),
            ) {
                (Some(eps), Some(elementwise_affine), Some(normalized_shape)) => Ok(
                    LayerDescOf::LayerNorm {
                        eps,
                        elementwise_affine,
                        normalized_shape,
                        weight: line.get_tensor_key("weight"),
                        bias: line.get_tensor_key("bias"),
                    },
                ),
                _ => malformed,
            }
        } else if chars_eq(t, "F.gelu") {
            Ok(LayerDescOf::GeLU)
        } else if chars_eq(t, "Tensor.view") || chars_eq(t, "Tensor.reshape") {
            match attr_tuple(line, "shape") {
                Some(shape) => Ok(LayerDescOf::View { shape }),
                None => malformed,
            }
        } else if chars_eq(t, "torch.transpose") {
            match (attr_isize(line, "dim0"), attr_isize(line, "dim1")) {
                (Some(dim0), Some(dim1)) => Ok(LayerDescOf::Transpose { dim0, dim1 }),
                _ => malformed,
            }
        } else if chars_eq(t, "Tensor.expand") {
            match attr_tuple(line, "shape") {
                Some(shape) => Ok(LayerDescOf::Expand { shape }),
                None => malformed,
            }
        } else if chars_eq(t, "Tensor.masked_fill") {
            match attr_string(line, "value") {
                Some(value) => Ok(LayerDescOf::MaskedFill { value }),
                None => malformed,
            }
        } else if chars_eq(t, "Tensor.to") {
            match attr_dtype(line, "dtype") {
                Some(dtype) => Ok(LayerDescOf::TensorTo { dtype }),
                None => malformed,
            }
        } else if chars_eq(t, "nn.Embedding") {
            Ok(LayerDescOf::Embedding { weight: line.get_tensor_key("weight") })
        } else if chars_eq(t, "F.scaled_dot_product_attention") {
            let is_causal = match attr_bool(line, "is_causal") {
                Some(b) => b,
                None => {
                    return malformed;
                },
            };
            let query = match line.get("query", PNNXKVType::Input) {
                Some(q) => q,
                None => {
                    return malformed;
                },
            };
            let shape_kv = match line.get(query.value.as_str(), PNNXKVType::Shape) {
                Some(kv) => kv,
                None => {
                    return malformed;
                },
            };
            let sc = chars_of(shape_kv.value.as_str());
            let shape = match scan_usize_tuple(sc.as_slice(), 0) {
                Some((shape, _)) => shape,
                None => {
                    return malformed;
                },
            };
            if shape.len() < 2 {
                return malformed;
            }
            let scale = attr_string(line, "scale");
            Ok(LayerDescOf::ScaledDotProductAttention { scale, is_causal, max_seq_len: shape[1] })
        } else {
            Err(DescribeError::Unsupported)
        }
    }
}


/// A layer's settings come from the attributes of the same names. Whatever
/// the line, when it is described as one of these layers, the line names
/// that layer and each setting is the attribute named after it, read as a
/// tuple of sizes, a size, a signed number, a flag, a type name or the raw
/// text: a Conv2d's `padding` is the `padding` attribute and its `stride`
/// the `stride` attribute, a flatten's `start_dim` is `start_dim`, a
/// transpose's `dim0` is `dim0`, and so on; the weights are looked up under
/// the layer's name.
pub proof fn law_settings_from_named_attributes(l: LineModel)
    ensures
        spec_describe(l) matches Ok(
            LayerDescOf::Conv2d {
                dilation,
                groups,
                in_channels,
                kernel_size,
                out_channels,
                padding,
                stride,
                weight,
                bias,
            },
        ) ==> {
            &&& l.op_type == "nn.Conv2d"@
            &&& spec_attr_tuple(l, "dilation"@) == Some(dilation)
            &&& spec_attr_usize(l, "groups"@) == Some(groups)
            &&& spec_attr_usize(l, "in_channels"@) == Some(in_channels)
            &&& spec_attr_tuple(l, "kernel_size"@) == Some(kernel_size)
            &&& spec_attr_usize(l, "out_channels"@) == Some(out_channels)
            &&& spec_attr_tuple(l, "padding"@) == Some(padding)
            &&& spec_attr_tuple(l, "stride"@) == Some(stride)
            &&& weight == spec_tensor_key(l.op_name, "weight"@)
            &&& bias == spec_tensor_key(l.op_name, "bias"@)
        },
        spec_describe(l) matches Ok(
            LayerDescOf::MaxPool2d { dilation, kernel_size, padding, stride },
        ) ==> {
            &&& l.op_type == "nn.MaxPool2d"@
            &&& spec_attr_tuple(l, "dilation"@) == Some(dilation)
            &&& spec_attr_tuple(l, "kernel_size"@) == Some(kernel_size)
            &&& spec_attr_tuple(l, "padding"@) == Some(padding)
            &&& spec_attr_tuple(l, "stride"@) == Some(stride)
        },
        spec_describe(l) matches Ok(LayerDescOf::Expression { expr }) ==> l.op_type
            == "pnnx.Expression"@ && spec_attr(l, "expr"@) == Some(expr),
        spec_describe(l) matches Ok(LayerDescOf::AdaptiveAvgPool2d { output_size }) ==> l.op_type
            == "nn.AdaptiveAvgPool2d"@ && spec_attr_tuple(l, "output_size"@) == Some(output_size),
        spec_describe(l) matches Ok(LayerDescOf::Flatten { start_dim, end_dim }) ==> {
            &&& l.op_type == "torch.flatten"@
            &&& spec_attr_isize(l, "start_dim"@) == Some(start_dim)
            &&& spec_attr_isize(l, "end_dim"@) == Some(end_dim)
        },
        spec_describe(l) matches Ok(LayerDescOf::Linear { in_features, out_features, weight, bias })
            ==> {
            &&& l.op_type == "nn.Linear"@
            &&& l.inputs.len() == 1
            &&& spec_attr_usize(l, "in_features"@) == Some(in_features)
            &&& spec_attr_usize(l, "out_features"@) == Some(out_features)
            &&& weight == spec_tensor_key(l.op_name, "weight"@)
            &&& bias == spec_tensor_key(l.op_name, "bias"@)
        },
        spec_describe(l) matches Ok(
            LayerDescOf::LinearWithWeightsInput { in_features, out_features, weight, bias },
        ) ==> {
            &&& l.op_type == "nn.Linear"@
            &&& l.inputs.len() != 1
            &&& spec_attr_usize(l, "in_features"@) == Some(in_features)
            &&& spec_attr_usize(l, "out_features"@) == Some(out_features)
            &&& weight == spec_tensor_key(l.op_name, "weight"@)
            &&& bias == spec_tensor_key(l.op_name, "bias"@)
        },
        spec_describe(l) matches Ok(
            LayerDescOf::LayerNorm { eps, elementwise_affine, normalized_shape, weight, bias },
        ) ==> {
            &&& l.op_type == "nn.LayerNorm"@
            &&& spec_attr(l, "eps"@) == Some(eps)
            &&& spec_attr_bool(l, "elementwise_affine"@) == Some(elementwise_affine)
            &&& spec_attr_tuple(l, "normalized_shape"@) == Some(normalized_shape)
            &&& weight == spec_tensor_key(l.op_name, "weight"@)
            &&& bias == spec_tensor_key(l.op_name, "bias"@)
        },
        spec_describe(l) matches Ok(LayerDescOf::View { shape }) ==> (l.op_type == "Tensor.view"@
            || l.op_type == "Tensor.reshape"@) && spec_attr_tuple(l, "shape"@) == Some(shape),
        spec_describe(l) matches Ok(LayerDescOf::Transpose { dim0, dim1 }) ==> {
            &&& l.op_type == "torch.transpose"@
            &&& spec_attr_isize(l, "dim0"@) == Some(dim0)
            &&& spec_attr_isize(l, "dim1"@) == Some(dim1)
        },
        spec_describe(l) matches Ok(LayerDescOf::Expand { shape }) ==> l.op_type == "Tensor.expand"@
            && spec_attr_tuple(l, "shape"@) == Some(shape),
        spec_describe(l) matches Ok(LayerDescOf::MaskedFill { value }) ==> l.op_type
            == "Tensor.masked_fill"@ && spec_attr(l, "value"@) == Some(value),
        spec_describe(l) matches Ok(LayerDescOf::TensorTo { dtype }) ==> l.op_type == "Tensor.to"@
            && spec_attr_dtype(l, "dtype"@) == Some(dtype),
        spec_describe(l) matches Ok(LayerDescOf::ScaledDotProductAttention { scale, is_causal, .. })
            ==> l.op_type == "F.scaled_dot_product_attention"@ && spec_attr(l, "scale"@) == scale
            && spec_attr_bool(l, "is_causal"@) == Some(is_causal),
{
}

/// A Conv2d line whose settings all read is described as a Conv2d layer
/// with those settings: each one is the attribute of the same name.
pub proof fn law_conv2d_line(l: LineModel)
    requires
        l.op_type == "nn.Conv2d"@,
        spec_attr_tuple(l, "dilation"@) is Some,
        spec_attr_usize(l, "groups"@) is Some,
        spec_attr_usize(l, "in_channels"@) is Some,
        spec_attr_tuple(l, "kernel_size"@) is Some,
        spec_attr_usize(l, "out_channels"@) is Some,
        spec_attr_tuple(l, "padding"@) is Some,
        spec_attr_tuple(l, "stride"@) is Some,
    ensures
        spec_describe(l) == Ok::<LayerDescModel, DescribeError>(
            LayerDescOf::Conv2d {
                dilation: spec_attr_tuple(l, "dilation"@)->Some_0,
                groups: spec_attr_usize(l, "groups"@)->Some_0,
                in_channels: spec_attr_usize(l, "in_channels"@)->Some_0,
                kernel_size: spec_attr_tuple(l, "kernel_size"@)->Some_0,
                out_channels: spec_attr_usize(l, "out_channels"@)->Some_0,
                padding: spec_attr_tuple(l, "padding"@)->Some_0,
                stride: spec_attr_tuple(l, "stride"@)->Some_0,
                weight: spec_tensor_key(l.op_name, "weight"@),
                bias: spec_tensor_key(l.op_name, "bias"@),
            },
        ),
{
    reveal_strlit("nn.Conv2d");
    reveal_strlit("pnnx.Input");
    reveal_strlit("pnnx.Ouput");
    reveal_strlit("pnnx.Output");
    reveal_strlit("pnnx.Attribute");
    reveal_strlit("nn.ReLU");
    assert(l.op_type.len() == 9);
    assert(l.op_type != "pnnx.Input"@);
    assert(l.op_type != "pnnx.Ouput"@);
    assert(l.op_type != "pnnx.Output"@);
    assert(l.op_type != "pnnx.Attribute"@);
    assert(l.op_type != "nn.ReLU"@);
}

} // verus!

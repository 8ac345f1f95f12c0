use mini_zinc::dtype::DataType;
use mini_zinc::op::cat::{common_dtype, CatError};
use mini_zinc::op::conf::{
    CatConf, ContiguousConf, EmbeddingConf, ExpandConf, FlattenConf, TensorSplitConf, TensorToConf,
    TransposeConf, UnsqueezeConf, ViewConf,
};
use mini_zinc::op::embedding::EmbeddingError;
use mini_zinc::op::expand::ExpandError;
use mini_zinc::op::tensor_to::{int64_to_boolean, Conversion, TensorToError};
use mini_zinc::op::flatten::FlattenError;
use mini_zinc::op::transpose::TransposeError;
use mini_zinc::op::upsample::{upsample_forward, upsample_nearest, UpSampleError};
use mini_zinc::tensor::Tensor;

fn t<T>(shape: Vec<usize>, data: Vec<T>) -> Tensor<T> {
    Tensor { shape, data }
}

#[test]
fn test_cat_basic() {
    let conf = CatConf { dim: 0 };
    let layer = conf.to_layer();
    let input1 = t(vec![2, 2], vec![1.0f32, 2.0, 3.0, 4.0]);
    let input2 = t(vec![2, 2], vec![5.0f32, 6.0, 7.0, 8.0]);
    let output = layer.forward(&vec![input1, input2]).unwrap();
    assert_eq!(output.shape, vec![4, 2]);
    assert_eq!(output.data, vec![1.0, 2.0, 3.0, 4.0, 5.0, 6.0, 7.0, 8.0]);
}

#[test]
fn cat_along_last_axis_interleaves_rows() {
    let layer = CatConf { dim: 1 }.to_layer();
    let a = t(vec![2, 2], vec![1, 2, 3, 4]);
    let b = t(vec![2, 1], vec![9, 8]);
    let out = layer.forward(&vec![a, b]).unwrap();
    assert_eq!(out.shape, vec![2, 3]);
    assert_eq!(out.data, vec![1, 2, 9, 3, 4, 8]);
}

#[test]
fn cat_errors() {
    let empty: Vec<Tensor<i64>> = vec![];
    assert_eq!(CatConf { dim: 0 }.to_layer().forward(&empty).unwrap_err(), CatError::NoInput);
    let a = t(vec![2], vec![1i64, 2]);
    assert_eq!(
        CatConf { dim: 1 }.to_layer().forward(&vec![a.clone()]).unwrap_err(),
        CatError::AxisOutOfBounds
    );
    assert_eq!(
        CatConf { dim: -1 }.to_layer().forward(&vec![a.clone()]).unwrap_err(),
        CatError::AxisOutOfBounds
    );
    let b = t(vec![2, 1], vec![1i64, 2]);
    let c = t(vec![3, 2], vec![1i64, 2, 3, 4, 5, 6]);
    assert_eq!(
        CatConf { dim: 0 }.to_layer().forward(&vec![b, c]).unwrap_err(),
        CatError::IncompatibleShape
    );
}

#[test]
fn cat_types_must_agree() {
    assert_eq!(common_dtype(&vec![]), Err(CatError::NoInput));
    assert_eq!(common_dtype(&vec![DataType::Int64, DataType::Int64]), Ok(DataType::Int64));
    assert_eq!(
        common_dtype(&vec![DataType::Int64, DataType::Float32]),
        Err(CatError::MixedTypes)
    );
}

#[test]
fn test_contiguous_forward() {
    let layer = ContiguousConf {}.to_layer();
    let input = t(vec![1, 2, 2], vec![1.0f32, 2.0, 3.0, 4.0]);
    let output = layer.forward(&input);
    assert_eq!(output.shape, vec![1, 2, 2]);
    assert_eq!(output.data, vec![1.0, 2.0, 3.0, 4.0]);
}

#[test]
fn test_embedding_forward_normal_case() {
    let weight = t(
        vec![4, 3],
        vec![1.0f32, 2.0, 3.0, 4.0, 5.0, 6.0, 7.0, 8.0, 9.0, 10.0, 11.0, 12.0],
    );
    let layer = EmbeddingConf { weight }.to_layer();
    let indices = t(vec![1, 3], vec![0i64, 2, 3]);
    let output = layer.forward(&indices).unwrap();
    assert_eq!(output.shape, vec![1, 3, 3]);
    let expected = [1.0f32, 2.0, 3.0, 7.0, 8.0, 9.0, 10.0, 11.0, 12.0];
    for (actual, expected_val) in output.data.iter().zip(expected.iter()) {
        assert!((actual - expected_val).abs() < 1e-6);
    }
}

#[test]
fn embedding_refuses_out_of_range_index() {
    let layer = EmbeddingConf { weight: t(vec![2, 1], vec![1.0f32, 2.0]) }.to_layer();
    assert_eq!(
        layer.forward(&t(vec![2], vec![0i64, 2])).unwrap_err(),
        EmbeddingError::IndexOutOfBounds
    );
    assert_eq!(
        layer.forward(&t(vec![1], vec![-1i64])).unwrap_err(),
        EmbeddingError::IndexOutOfBounds
    );
}

#[test]
fn test_expand_forward() {
    let layer = ExpandConf { shape: vec![2, 3] }.to_layer();
    let input = t(vec![2, 1], vec![1.0f32, 2.0]);
    let output = layer.forward(&input).unwrap();
    assert_eq!(output.shape, vec![2, 3]);
    assert_eq!(output.data[0], 1.0);
    assert_eq!(output.data[1 * 3 + 2], 2.0);
}

#[test]
fn test_expand_incompatible_shape() {
    let layer = ExpandConf { shape: vec![2, 4] }.to_layer();
    let input = t(vec![2, 3], vec![1.0f32, 2.0, 3.0, 4.0, 5.0, 6.0]);
    let result = layer.forward(&input);
    assert!(result.is_err());
    assert!(format!("{:?}", result.unwrap_err()).contains("CannotBroadcast"));
}

#[test]
fn test_expand_no_change() {
    let layer = ExpandConf { shape: vec![3, 2] }.to_layer();
    let input = t(vec![3, 2], vec![1.0f32; 6]);
    let output = layer.forward(&input).unwrap();
    assert_eq!(output.shape, vec![3, 2]);
    assert_eq!(output, input);
}

#[test]
fn expand_adds_leading_axes() {
    let layer = ExpandConf { shape: vec![2, 1, 3] }.to_layer();
    let input = t(vec![3], vec![7, 8, 9]);
    let output = layer.forward(&input).unwrap();
    assert_eq!(output.data, vec![7, 8, 9, 7, 8, 9]);
    let too_many = ExpandConf { shape: vec![3] }.to_layer();
    assert_eq!(
        too_many.forward(&t(vec![1, 3], vec![1, 2, 3])).unwrap_err(),
        ExpandError::CannotBroadcast
    );
}

#[test]
fn flatten_merges_axes() {
    let layer = FlattenConf { start_dim: 1, end_dim: -1 }.to_layer();
    let input = t(vec![2, 2, 3], (1..=12).collect::<Vec<i64>>());
    assert!(layer.admits(&input.shape));
    let output = layer.forward(&input);
    assert_eq!(output.shape, vec![2, 6]);
    assert_eq!(output.data, input.data);
    let bad = FlattenConf { start_dim: 2, end_dim: 1 }.to_layer();
    assert!(!bad.admits(&input.shape));
}

#[test]
fn test_tensor_split_forward_simple() {
    let layer = TensorSplitConf { dim: 1, indices: vec![2] }.to_layer();
    let input = t(vec![2, 4], vec![1.0f32, 2.0, 3.0, 4.0, 5.0, 6.0, 7.0, 8.0]);
    let outputs = layer.forward(&input);
    assert_eq!(outputs.len(), 2);
    assert_eq!(outputs[0].shape, vec![2, 2]);
    assert_eq!(outputs[0].data, vec![1.0, 2.0, 5.0, 6.0]);
    assert_eq!(outputs[1].shape, vec![2, 2]);
    assert_eq!(outputs[1].data, vec![3.0, 4.0, 7.0, 8.0]);
}

#[test]
fn test_tensor_split_forward_multiple_indices() {
    let layer = TensorSplitConf { dim: 0, indices: vec![1, 3] }.to_layer();
    let input = t(vec![4, 2], vec![1.0f32, 2.0, 3.0, 4.0, 5.0, 6.0, 7.0, 8.0]);
    let outputs = layer.forward(&input);
    assert_eq!(outputs.len(), 3);
    assert_eq!(outputs[0].shape, vec![1, 2]);
    assert_eq!(outputs[0].data, vec![1.0, 2.0]);
    assert_eq!(outputs[1].shape, vec![2, 2]);
    assert_eq!(outputs[1].data, vec![3.0, 4.0, 5.0, 6.0]);
    assert_eq!(outputs[2].shape, vec![1, 2]);
    assert_eq!(outputs[2].data, vec![7.0, 8.0]);
}

#[test]
fn test_tensor_split_negative_dim() {
    let layer = TensorSplitConf { dim: -1, indices: vec![1] }.to_layer();
    let input = t(vec![2, 3], vec![1.0f32, 2., 3., 4., 5., 6.]);
    let outputs = layer.forward(&input);
    assert_eq!(outputs.len(), 2);
    assert_eq!(outputs[0].shape, vec![2, 1]);
    assert_eq!(outputs[0].data, vec![1.0, 4.0]);
    assert_eq!(outputs[1].shape, vec![2, 2]);
    assert_eq!(outputs[1].data, vec![2.0, 3.0, 5.0, 6.0]);
}

#[test]
fn tensor_split_checks_indices() {
    let layer = TensorSplitConf { dim: 0, indices: vec![3] }.to_layer();
    assert!(!layer.admits(&vec![2, 2]));
    assert!(layer.admits(&vec![3, 2]));
}

#[test]
fn test_int64_to_boolean() {
    let layer = TensorToConf { target_dtype: DataType::Boolean }.to_layer();
    assert_eq!(layer.conversion(DataType::Int64), Ok(Conversion::Int64ToBoolean));
    let input = t(vec![4], vec![0i64, -5, 3, 0]);
    let output = int64_to_boolean(&input);
    assert_eq!(output.data, vec![false, true, true, false]);
    assert_eq!(output.shape, vec![4]);
}

#[test]
fn tensor_to_conversions() {
    let to = |d| TensorToConf { target_dtype: d }.to_layer();
    assert_eq!(to(DataType::Int64).conversion(DataType::Float32), Ok(Conversion::FloatToInt64));
    assert_eq!(to(DataType::Float32).conversion(DataType::Float32), Ok(Conversion::Keep));
    assert_eq!(to(DataType::Float32).conversion(DataType::Int64), Ok(Conversion::Int64ToFloat));
    assert_eq!(
        to(DataType::Float16).conversion(DataType::Int64),
        Err(TensorToError::UnsupportedTarget)
    );
    assert_eq!(
        to(DataType::Float32).conversion(DataType::Boolean),
        Err(TensorToError::UnsupportedInput)
    );
}

#[test]
fn test_transpose_forward() {
    let layer = TransposeConf { dim0: 0, dim1: 1 }.to_layer();
    let input = t(vec![2, 3], vec![1.0f32, 2.0, 3.0, 4.0, 5.0, 6.0]);
    assert!(layer.admits(&input.shape));
    let output = layer.forward(&input);
    assert_eq!(output.shape, vec![3, 2]);
    let expected = [1.0f32, 4.0, 2.0, 5.0, 3.0, 6.0];
    for (a, e) in output.data.iter().zip(expected.iter()) {
        assert!((a - e).abs() <= 1e-6);
    }

    let input = t(
        vec![2, 3, 2],
        vec![1.0f32, 2.0, 3.0, 4.0, 5.0, 6.0, 7.0, 8.0, 9.0, 10.0, 11.0, 12.0],
    );
    let output = layer.forward(&input);
    assert_eq!(output.shape, vec![3, 2, 2]);
    let expected = [1.0f32, 2.0, 7.0, 8.0, 3.0, 4.0, 9.0, 10.0, 5.0, 6.0, 11.0, 12.0];
    for (a, e) in output.data.iter().zip(expected.iter()) {
        assert!((a - e).abs() <= 1e-6);
    }
}

#[test]
fn transpose_checks_axes() {
    assert!(!TransposeConf { dim0: 0, dim1: 1 }.to_layer().admits(&vec![3]));
    assert!(!TransposeConf { dim0: 0, dim1: 2 }.to_layer().admits(&vec![2, 3]));
    assert!(TransposeConf { dim0: -1, dim1: -2 }.to_layer().admits(&vec![2, 3]));
}

#[test]
fn test_unsqueeze_forward() {
    let layer = UnsqueezeConf { axes: vec![0, 2] }.to_layer();
    let input = t(vec![3, 4], (1..=12).map(|x| x as f32).collect::<Vec<_>>());
    assert!(layer.admits(&input.shape));
    let output = layer.forward(&input);
    assert_eq!(output.shape, vec![1, 3, 1, 4]);
    assert_eq!(output.data.len(), input.data.len());
    assert_eq!(output.data, input.data);
}

#[test]
fn test_unsqueeze_no_axes() {
    let layer = UnsqueezeConf { axes: vec![] }.to_layer();
    let input = t(vec![2, 2], vec![1.0f32, 2.0, 3.0, 4.0]);
    let output = layer.forward(&input);
    assert_eq!(output.shape, vec![2, 2]);
    assert_eq!(output, input);
}

#[test]
fn unsqueeze_sorts_axes_and_checks_range() {
    let layer = UnsqueezeConf { axes: vec![2, 0] }.to_layer();
    let output = layer.forward(&t(vec![3, 4], vec![0u8; 12]));
    assert_eq!(output.shape, vec![1, 3, 1, 4]);
    assert!(!UnsqueezeConf { axes: vec![10] }.to_layer().admits(&vec![2, 2]));
}

#[test]
fn test_view_forward() {
    let layer = ViewConf { output_shape: vec![6] }.to_layer();
    let input = t(vec![2, 3], vec![1.0f32, 2.0, 3.0, 4.0, 5.0, 6.0]);
    assert!(layer.admits(&input.shape, input.data.len()));
    let output = layer.forward(&input);
    assert_eq!(output, t(vec![6], vec![1.0, 2.0, 3.0, 4.0, 5.0, 6.0]));

    let layer = ViewConf { output_shape: vec![4, 2] }.to_layer();
    let input = t(vec![2, 2, 2], vec![1.0f32, 2.0, 3.0, 4.0, 5.0, 6.0, 7.0, 8.0]);
    let output = layer.forward(&input);
    assert_eq!(output, t(vec![4, 2], vec![1.0, 2.0, 3.0, 4.0, 5.0, 6.0, 7.0, 8.0]));
}

#[test]
fn view_refuses_other_size() {
    let layer = ViewConf { output_shape: vec![5] }.to_layer();
    assert!(!layer.admits(&vec![2, 3], 6));
}

#[test]
fn test_masked_fill_all_true() {
    let data = t(vec![3], vec![1.0f32, 2.0, 3.0]);
    let mask = t(vec![3], vec![true; 3]);
    let result = mini_zinc::op::masked_fill::masked_fill(&data, &mask, 5.0);
    assert_eq!(result.shape, vec![3]);
    assert_eq!(result.data, vec![5.0, 5.0, 5.0]);
}

#[test]
fn test_masked_fill_all_false() {
    let data = t(vec![4], vec![1.5f32, 2.5, 3.5, 4.5]);
    let mask = t(vec![4], vec![false; 4]);
    let result = mini_zinc::op::masked_fill::masked_fill(&data, &mask, 10.0);
    assert_eq!(result.shape, vec![4]);
    assert_eq!(result, data);
}

#[test]
fn test_masked_fill_2d() {
    let data = t(vec![2, 2], vec![10.0f32, 20.0, 30.0, 40.0]);
    let mask = t(vec![2, 2], vec![false, true, true, false]);
    let expected = t(vec![2, 2], vec![10.0f32, -1.0, -1.0, 40.0]);
    let result = mini_zinc::op::masked_fill::masked_fill(&data, &mask, -1.0);
    assert_eq!(result.shape, vec![2, 2]);
    assert_eq!(result, expected);
}

#[test]
fn test_upsample_nearest() {
    let input = t(vec![1, 1, 2, 2], vec![1.0f32, 2.0, 3.0, 4.0]);
    let scale = [2.0f32, 2.0];
    let out_h = (input.shape[2] as f32 * scale[0]).round() as usize;
    let out_w = (input.shape[3] as f32 * scale[1]).round() as usize;
    let out = upsample_forward(&input, DataType::Float32, &None, Some((out_h, out_w))).unwrap();
    let expected = [
        1.0f32, 1.0, 2.0, 2.0, 1.0, 1.0, 2.0, 2.0, 3.0, 3.0, 4.0, 4.0, 3.0, 3.0, 4.0, 4.0,
    ];
    assert_eq!(out.shape, vec![1, 1, 4, 4]);
    let diff: f32 = out.data.iter().zip(expected.iter()).map(|(a, b)| (a - b).abs()).sum();
    assert!(diff < 1e-3);
}

#[test]
fn upsample_needs_three_or_four_axes() {
    assert_eq!(
        upsample_nearest(&t(vec![2, 2], vec![1, 2, 3, 4]), 4, 4).unwrap_err(),
        UpSampleError::Rank
    );
    let out = upsample_nearest(&t(vec![1, 2, 3], vec![1, 2, 3, 4, 5, 6]), 1, 2).unwrap();
    assert_eq!(out.shape, vec![1, 1, 2]);
    assert_eq!(out.data, vec![1, 2]);
}

#[test]
fn transposing_twice_gives_the_tensor_back() {
    let layer = TransposeConf { dim0: 2, dim1: 0 }.to_layer();
    let input = t(vec![2, 3, 4], (0..24).collect::<Vec<i64>>());
    let once = layer.forward(&input);
    assert_eq!(once.shape, vec![4, 3, 2]);
    let twice = layer.forward(&once);
    assert_eq!(twice, input);
}

#[test]
fn expanding_to_own_shape_keeps_elements() {
    let layer = ExpandConf { shape: vec![2, 1, 3] }.to_layer();
    let input = t(vec![2, 1, 3], vec![1, 2, 3, 4, 5, 6]);
    assert_eq!(layer.forward(&input).unwrap(), input);
}

#[test]
fn splitting_then_joining_gives_the_tensor_back() {
    let input = t(vec![2, 5, 2], (0..20).collect::<Vec<i64>>());
    let split = TensorSplitConf { dim: 1, indices: vec![1, 1, 4] }.to_layer();
    let pieces = split.forward(&input);
    assert_eq!(pieces.len(), 4);
    let joined = CatConf { dim: 1 }.to_layer().forward(&pieces).unwrap();
    assert_eq!(joined, input);
}

#[test]
fn upsample_refusals_come_in_order() {
    let img = t(vec![1, 1, 2, 2], vec![1i64, 2, 3, 4]);
    let flat = t(vec![2, 2], vec![1i64, 2, 3, 4]);
    assert_eq!(
        upsample_forward(&flat, DataType::Int64, &None, None).unwrap_err(),
        UpSampleError::Rank
    );
    assert_eq!(
        upsample_forward(&img, DataType::Int64, &None, None).unwrap_err(),
        UpSampleError::NoSize
    );
    assert_eq!(
        upsample_forward(&img, DataType::Int64, &Some(vec![4, 4]), None).unwrap_err(),
        UpSampleError::UnsupportedType
    );
    assert_eq!(
        upsample_forward(&img, DataType::Float32, &None, None).unwrap_err(),
        UpSampleError::NoSize
    );
}

#[test]
fn upsample_size_wins_over_scale() {
    let img = t(vec![1, 2, 2], vec![1.0f32, 2.0, 3.0, 4.0]);
    let out = upsample_forward(&img, DataType::Float32, &Some(vec![9, 1, 3]), Some((4, 4))).unwrap();
    assert_eq!(out.shape, vec![1, 1, 3]);
    assert_eq!(out.data, vec![1.0, 1.0, 2.0]);
    let scaled = upsample_forward(&img, DataType::Float32, &None, Some((2, 4))).unwrap();
    assert_eq!(scaled.shape, vec![1, 2, 4]);
    assert_eq!(scaled.data, vec![1.0, 1.0, 2.0, 2.0, 3.0, 3.0, 4.0, 4.0]);
}

#[test]
fn flatten_takes_only_float32() {
    let layer = FlattenConf { start_dim: 0, end_dim: -1 }.to_layer();
    let x = t(vec![2, 2], vec![1i64, 2, 3, 4]);
    assert_eq!(layer.forward_typed(DataType::Int64, &x).unwrap_err(), FlattenError::UnsupportedType);
    assert_eq!(layer.forward_typed(DataType::Boolean, &x).unwrap_err(), FlattenError::UnsupportedType);
    let out = layer.forward_typed(DataType::Float32, &x).unwrap();
    assert_eq!(out.shape, vec![4]);
    assert_eq!(out.data, vec![1, 2, 3, 4]);
}

#[test]
fn transpose_takes_only_float32() {
    let layer = TransposeConf { dim0: 0, dim1: 1 }.to_layer();
    let x = t(vec![2, 3], vec![1i64, 2, 3, 4, 5, 6]);
    assert_eq!(layer.forward_typed(DataType::Float16, &x).unwrap_err(), TransposeError::UnsupportedType);
    let out = layer.forward_typed(DataType::Float32, &x).unwrap();
    assert_eq!(out.shape, vec![3, 2]);
    assert_eq!(out.data, vec![1, 4, 2, 5, 3, 6]);
}

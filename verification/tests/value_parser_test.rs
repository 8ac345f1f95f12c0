use mini_zinc::dtype::DataType;
use mini_zinc::node::{DescribeError, LayerDescOf};
use mini_zinc::pnnx_reader::PNNXReaderResult;
use mini_zinc::value_parser::{
    parse_bool, parse_dtype, parse_isize, parse_shape_and_dtype, parse_usize, parse_usize_tuple,
};

#[test]
fn parses_values() {
    assert_eq!(parse_usize("64,3"), Some((64, 2)));
    assert_eq!(parse_usize("x"), None);
    assert_eq!(parse_isize("-1)"), Some((-1, 2)));
    assert_eq!(parse_usize_tuple("(7,7)"), Some((vec![7, 7], 5)));
    assert_eq!(parse_bool("True"), Some((true, 4)));
    assert_eq!(parse_bool("False"), Some((false, 5)));
    assert_eq!(parse_dtype("torch.int64"), Some((DataType::Int64, 11)));
    assert_eq!(parse_dtype("torch.float"), Some((DataType::Float32, 11)));
    assert_eq!(
        parse_shape_and_dtype("(1,3,224,224)f32"),
        Some((vec![1, 3, 224, 224], DataType::Float32, 16))
    );
    assert_eq!(parse_usize("99999999999999999999999"), None);
}

#[test]
fn describes_layers() {
    let text = "7767517\n3 3\nnn.ReLU relu 1 1 0 1\ntorch.transpose t 1 1 1 2 dim0=0 dim1=-1\nnn.Unknown u 1 1 2 3";
    let reader = PNNXReaderResult::from_text(text).unwrap();
    let relu = LayerDescOf::<String, Vec<usize>>::from_line(&reader.lines[0]).unwrap();
    assert!(matches!(relu, LayerDescOf::ReLU));
    match LayerDescOf::<String, Vec<usize>>::from_line(&reader.lines[1]).unwrap() {
        LayerDescOf::Transpose { dim0, dim1 } => {
            assert_eq!(dim0, 0);
            assert_eq!(dim1, -1);
        }
        _ => panic!("expected a transpose"),
    }
    assert_eq!(
        LayerDescOf::<String, Vec<usize>>::from_line(&reader.lines[2]).unwrap_err(),
        DescribeError::Unsupported
    );
}

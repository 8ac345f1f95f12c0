use mini_zinc::dtype::DataType;
use mini_zinc::graph::{GraphPlan, NodeKind};
use mini_zinc::pnnx_reader::PNNXReaderResult;
use mini_zinc::schedule::{is_runnable, Scheduler, Step};
use mini_zinc::server::{
    choose_model, launch_config, start_bert, start_resnet, start_smollm, start_yolo, wire_dtype,
    wire_name, Admission, Model, ServerStatus,
};
use mini_zinc::weights::{decode_stored, stored_len, StoredData};

fn chain_plan() -> GraphPlan {
    GraphPlan::new(
        vec![NodeKind::Input, NodeKind::Attribute, NodeKind::Op, NodeKind::Op, NodeKind::Output],
        vec![vec![], vec![], vec![0, 1], vec![2], vec![3]],
        vec![vec![0], vec![1], vec![2], vec![3], vec![]],
    )
}

#[test]
fn plan_lists_nodes_and_readers() {
    let plan = chain_plan();
    assert_eq!(plan.input_nodes, vec![0]);
    assert_eq!(plan.attribute_nodes, vec![1]);
    assert_eq!(plan.output_nodes, vec![4]);
    assert_eq!(plan.consumed_by.get(&0), Some(&vec![2]));
    assert_eq!(plan.consumed_by.get(&2), Some(&vec![3]));
    assert_eq!(plan.consumed_by.get(&3), Some(&vec![4]));
    assert!(plan.consumed_by.get(&7).is_none());
    assert!(is_runnable(&plan));
}

#[test]
fn scheduler_runs_each_node_once_in_order() {
    let plan = chain_plan();
    let mut s = Scheduler::new(&plan);
    assert_eq!(s.ready, vec![2]);
    match s.next(&plan) {
        Step::Run { node, release } => {
            assert_eq!(node, 2);
            assert_eq!(release, vec![0, 1]);
        }
        other => panic!("unexpected {:?}", other),
    }
    s.complete(&plan);
    assert_eq!(s.ready, vec![3]);
    match s.next(&plan) {
        Step::Run { node, release } => {
            assert_eq!(node, 3);
            assert_eq!(release, vec![2]);
        }
        other => panic!("unexpected {:?}", other),
    }
    s.complete(&plan);
    assert_eq!(s.next(&plan), Step::Collect { node: 4 });
    assert_eq!(s.next(&plan), Step::Done);
    assert_eq!(s.result_blobs(&plan), vec![3]);
}

#[test]
fn blob_read_twice_is_kept_until_its_last_reader() {
    let plan = GraphPlan::new(
        vec![NodeKind::Input, NodeKind::Op, NodeKind::Op, NodeKind::Output],
        vec![vec![], vec![0], vec![0, 1], vec![2]],
        vec![vec![0], vec![1], vec![2], vec![]],
    );
    let mut s = Scheduler::new(&plan);
    assert_eq!(s.ready, vec![1]);
    match s.next(&plan) {
        Step::Run { node, release } => {
            assert_eq!(node, 1);
            assert!(release.is_empty());
        }
        other => panic!("unexpected {:?}", other),
    }
    s.complete(&plan);
    match s.next(&plan) {
        Step::Run { node, release } => {
            assert_eq!(node, 2);
            assert_eq!(release, vec![0, 1]);
        }
        other => panic!("unexpected {:?}", other),
    }
}

#[test]
fn blob_written_twice_makes_plan_unrunnable() {
    let plan = GraphPlan::new(
        vec![NodeKind::Input, NodeKind::Op],
        vec![vec![], vec![0]],
        vec![vec![0], vec![0]],
    );
    assert!(!is_runnable(&plan));
    let no_output = GraphPlan::new(vec![NodeKind::Attribute], vec![vec![]], vec![vec![]]);
    assert!(!is_runnable(&no_output));
}

#[test]
fn blob_nobody_reads_may_be_written_twice() {
    let plan = GraphPlan::new(
        vec![NodeKind::Input, NodeKind::Op, NodeKind::Op, NodeKind::Output],
        vec![vec![], vec![0], vec![0], vec![1, 2]],
        vec![vec![0], vec![1, 5], vec![2, 5], vec![]],
    );
    assert!(is_runnable(&plan));
    let mut s = Scheduler::new(&plan);
    assert_eq!(s.ready, vec![1, 2]);
    match s.next(&plan) {
        Step::Run { node, release } => {
            assert_eq!(node, 1);
            assert!(release.is_empty());
        }
        other => panic!("unexpected {:?}", other),
    }
    s.complete(&plan);
    match s.next(&plan) {
        Step::Run { node, release } => {
            assert_eq!(node, 2);
            assert_eq!(release, vec![0]);
        }
        other => panic!("unexpected {:?}", other),
    }
    s.complete(&plan);
    assert_eq!(s.next(&plan), Step::Collect { node: 3 });
    assert_eq!(s.next(&plan), Step::Done);
    assert_eq!(s.result_blobs(&plan), vec![1, 2]);
}

#[test]
fn readers_are_listed_in_order_once_per_read() {
    let plan = GraphPlan::new(
        vec![NodeKind::Input, NodeKind::Op, NodeKind::Op, NodeKind::Output, NodeKind::Attribute],
        vec![vec![], vec![0, 5], vec![0, 0], vec![1, 2], vec![]],
        vec![vec![0], vec![1], vec![2], vec![], vec![5]],
    );
    assert_eq!(plan.consumed_by.get(&0), Some(&vec![1, 2, 2]));
    assert_eq!(plan.consumed_by.get(&5), Some(&vec![1]));
    assert!(plan.consumed_by.get(&3).is_none());
    assert_eq!(plan.attribute_nodes, vec![4]);
    let mut s = Scheduler::new(&plan);
    let mut ran = vec![];
    loop {
        match s.next(&plan) {
            Step::Done => break,
            Step::Collect { node } => ran.push(node),
            Step::Run { node, .. } => {
                ran.push(node);
                s.complete(&plan);
            }
        }
    }
    ran.sort();
    assert_eq!(ran, vec![1, 2, 3]);
    assert_eq!(s.result_blobs(&plan), vec![1, 2]);
}

#[test]
fn plan_from_model_text() {
    let text = "7767517\n3 2\npnnx.Input in0 0 1 0\nnn.ReLU relu 1 1 0 1\npnnx.Output out0 1 0 1";
    let reader = PNNXReaderResult::from_text(text).unwrap();
    let (plan, descs) = GraphPlan::from_lines(&reader.lines).unwrap();
    assert_eq!(descs.len(), 3);
    assert_eq!(plan.kinds, vec![NodeKind::Input, NodeKind::Op, NodeKind::Output]);
    assert_eq!(plan.inputs, vec![vec![], vec![0], vec![1]]);
    assert_eq!(plan.outputs, vec![vec![0], vec![1], vec![]]);
}

#[test]
fn stored_tensors_decode_little_endian() {
    assert_eq!(stored_len(&vec![2, 3], DataType::Float32), 24);
    assert_eq!(stored_len(&vec![2, 3], DataType::Int64), 48);
    let mut bytes = 1.0f32.to_le_bytes().to_vec();
    bytes.extend_from_slice(&(-2.5f32).to_le_bytes());
    match decode_stored(DataType::Float32, &bytes) {
        StoredData::Float32Bits(v) => {
            assert_eq!(v.iter().map(|b| f32::from_bits(*b)).collect::<Vec<_>>(), vec![1.0, -2.5]);
        }
        other => panic!("unexpected {:?}", other),
    }
    let bytes = (-2i64).to_le_bytes().to_vec();
    assert_eq!(decode_stored(DataType::Int64, &bytes), StoredData::Int64(vec![-2]));
    assert_eq!(
        decode_stored(DataType::Boolean, &vec![0, 2, 1, 0]),
        StoredData::Boolean(vec![false, true, true, false])
    );
    assert_eq!(
        decode_stored(DataType::Float16, &vec![0x00, 0x3c, 0x01, 0x02]),
        StoredData::Float16Bits(vec![0x3c00, 0x0201])
    );
}

#[test]
fn server_takes_one_request_at_a_time() {
    let mut status = ServerStatus::new();
    assert!(!status.is_busy);
    assert_eq!(status.accept(), Admission::Accepted);
    assert!(status.is_busy);
    assert_eq!(status.accept(), Admission::Busy);
    status.release();
    assert_eq!(status.accept(), Admission::Accepted);
}

#[test]
fn command_line_chooses_model() {
    let args = |a: &[&str]| a.iter().map(|s| s.to_string()).collect::<Vec<String>>();
    assert_eq!(choose_model(&args(&["server", "bert"])), Some(Model::Bert));
    assert_eq!(choose_model(&args(&["server", "smollm"])), Some(Model::Smollm));
    assert_eq!(choose_model(&args(&["server", "yolo"])), Some(Model::Yolo));
    assert_eq!(choose_model(&args(&["server", "resnet"])), Some(Model::Resnet));
    assert_eq!(choose_model(&args(&["server", "gpt"])), None);
    assert_eq!(choose_model(&args(&["server"])), None);
    let c = launch_config(Model::Yolo);
    assert_eq!(c.param_path, "export/yolo/yolov5nu.pnnx.param");
    assert_eq!(c.port, 3030);
    assert_eq!(c.status_port, 3031);
}

#[test]
fn launch_configs() {
    let r = start_resnet();
    assert_eq!(r.param_path, "export/resnet/resnet18.pnnx.param");
    assert_eq!(r.weight_path, "export/resnet/resnet18.pnnx.bin");
    assert_eq!(
        start_bert().weight_path,
        "export/bert/distilbert-base-uncased-base-fillmask.pnnx.bin"
    );
    assert_eq!(start_smollm().param_path, "export/smollm/smollm.pnnx.param");
    assert_eq!(start_yolo().port, 3030);
    assert_eq!(start_resnet().status_port, 3031);
}

#[test]
fn wire_names_round_trip() {
    for dt in [DataType::Float32, DataType::Int64, DataType::BFloat16, DataType::Float16] {
        let name = wire_name(dt).unwrap();
        assert_eq!(wire_dtype(&name), Some(dt));
    }
    assert_eq!(wire_name(DataType::Boolean), None);
    assert_eq!(wire_dtype("float64"), None);
}

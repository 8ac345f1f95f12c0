//! The decisions of the inference server: which model to serve, whether a
//! request is taken, and how element types are named on the wire.
use vstd::prelude::*;

use crate::dtype::DataType;
use crate::text::{chars_eq, chars_of};

verus! {

/// Whether the server is running an inference.
#[derive(Debug, Clone, Copy, PartialEq, Eq, Structural)]
pub struct ServerStatus {
    pub is_busy: bool,
}

/// What becomes of an inference request.
#[derive(Debug, Clone, Copy, PartialEq, Eq, Structural)]
pub enum Admission {
    /// Another inference is running: the request is answered at once.
    Busy,
    /// The request is taken, and the server is busy until it is answered.
    Accepted,
}

/// A request arriving at a server in state `s`: the answer, and the state
/// after it.
pub open spec fn spec_accept(s: ServerStatus) -> (Admission, ServerStatus) {
    if s.is_busy {
        (Admission::Busy, s)
    } else {
        (Admission::Accepted, ServerStatus { is_busy: true })
    }
}

/// The state once the running inference is answered.
pub open spec fn spec_release(s: ServerStatus) -> ServerStatus {
    ServerStatus { is_busy: false }
}

impl ServerStatus {
    /// A server that has just started is idle.
    pub fn new() -> (r: ServerStatus)
        ensures
            !r.is_busy,
    {
        ServerStatus { is_busy: false }
    }

    /// Takes a request if no inference is running.
    pub fn accept(&mut self) -> (r: Admission)
        ensures
            (r, *final(self)) == spec_accept(*old(self)),
    {
        if self.is_busy {
            Admission::Busy
        } else {
            self.is_busy = true;
            Admission::Accepted
        }
    }

    /// The running inference has been answered.
    pub fn release(&mut self)
        ensures
            *final(self) == spec_release(*old(self)),
    {
        self.is_busy = false;
    }
}

/// One inference at a time: a request taken makes the next one wait until
/// the first is answered, and once it is answered a request is taken again.
pub proof fn law_one_inference_at_a_time(s: ServerStatus)
    ensures
        spec_accept(s).0 == Admission::Accepted ==> spec_accept(spec_accept(s).1).0 == Admission::Busy,
        spec_accept(spec_release(s)).0 == Admission::Accepted,
        spec_accept(s).0 == Admission::Busy ==> spec_accept(s).1 == s,
{
}

/// Where a model is read from, the port that takes inference requests,
/// and the port that answers status requests.
#[derive(Debug, Clone)]
pub struct LaunchConfig {
    pub param_path: String,
    pub weight_path: String,
    pub port: u16,
    pub status_port: u16,
}

/// The models the server can serve.
#[derive(Debug, Clone, Copy, PartialEq, Eq, Structural)]
pub enum Model {
    Resnet,
    Bert,
    Smollm,
    Yolo,
}

/// The port that takes inference requests (`POST /infer`).
pub open spec fn serving_port() -> u16 {
    3030
}

/// The port that answers status requests (`GET /status`).
pub open spec fn status_serving_port() -> u16 {
    3031
}

/// ResNet-18, served on the usual ports.
pub fn start_resnet() -> (r: LaunchConfig)
    ensures
        r.param_path@ == "export/resnet/resnet18.pnnx.param"@,
        r.weight_path@ == "export/resnet/resnet18.pnnx.bin"@,
        r.port == serving_port(),
        r.status_port == status_serving_port(),
{
    LaunchConfig {
        param_path: "export/resnet/resnet18.pnnx.param".to_owned(),
        weight_path: "export/resnet/resnet18.pnnx.bin".to_owned(),
        port: 3030,
        status_port: 3031,
    }
}

/// DistilBERT for filling in masked words, served on the usual ports.
pub fn start_bert() -> (r: LaunchConfig)
    ensures
        r.param_path@ == "export/bert/distilbert-base-uncased-base-fillmask.pnnx.param"@,
        r.weight_path@ == "export/bert/distilbert-base-uncased-base-fillmask.pnnx.bin"@,
        r.port == serving_port(),
        r.status_port == status_serving_port(),
{
    LaunchConfig {
        param_path: "export/bert/distilbert-base-uncased-base-fillmask.pnnx.param".to_owned(),
        weight_path: "export/bert/distilbert-base-uncased-base-fillmask.pnnx.bin".to_owned(),
        port: 3030,
        status_port: 3031,
    }
}

/// SmolLM, served on the usual ports.
pub fn start_smollm() -> (r: LaunchConfig)
    ensures
        r.param_path@ == "export/smollm/smollm.pnnx.param"@,
        r.weight_path@ == "export/smollm/smollm.pnnx.bin"@,
        r.port == serving_port(),
        r.status_port == status_serving_port(),
{
    LaunchConfig {
        param_path: "export/smollm/smollm.pnnx.param".to_owned(),
        weight_path: "export/smollm/smollm.pnnx.bin".to_owned(),
        port: 3030,
        status_port: 3031,
    }
}

/// YOLOv5-nano, served on the usual ports.
pub fn start_yolo() -> (r: LaunchConfig)
    ensures
        r.param_path@ == "export/yolo/yolov5nu.pnnx.param"@,
        r.weight_path@ == "export/yolo/yolov5nu.pnnx.bin"@,
        r.port == serving_port(),
        r.status_port == status_serving_port(),
{
    LaunchConfig {
        param_path: "export/yolo/yolov5nu.pnnx.param".to_owned(),
        weight_path: "export/yolo/yolov5nu.pnnx.bin".to_owned(),
        port: 3030,
        status_port: 3031,
    }
}

/// The model a command line asks for: its first argument after the
/// program's name, if that is a model's name.
pub open spec fn spec_choose_model(args: Seq<Seq<char>>) -> Option<Model> {
    if args.len() <= 1 {
        None
    } else if args[1] == "bert"@ {
        Some(Model::Bert)
    } else if args[1] == "smollm"@ {
        Some(Model::Smollm)
    } else if args[1] == "yolo"@ {
        Some(Model::Yolo)
    } else if args[1] == "resnet"@ {
        Some(Model::Resnet)
    } else {
        None
    }
}

pub fn choose_model(args: &Vec<String>) -> (r: Option<Model>)
    ensures
        r == spec_choose_model(args@.map_values(|a: String| a@)),
{
    if args.len() <= 1 {
        return None;
    }
    let a = chars_of(args[1].as_str());
    let a = a.as_slice();
    if chars_eq(a, "bert") {
        Some(Model::Bert)
    } else if chars_eq(a, "smollm") {
        Some(Model::Smollm)
    } else if chars_eq(a, "yolo") {
        Some(Model::Yolo)
    } else if chars_eq(a, "resnet") {
        Some(Model::Resnet)
    } else {
        None
    }
}

/// Where the chosen model is read from and served.
pub fn launch_config(m: Model) -> (r: LaunchConfig)
    ensures
        r.port == serving_port(),
        r.status_port == status_serving_port(),
        m == Model::Resnet ==> r.param_path@ == "export/resnet/resnet18.pnnx.param"@,
        m == Model::Bert ==> r.param_path@
            == "export/bert/distilbert-base-uncased-base-fillmask.pnnx.param"@,
        m == Model::Smollm ==> r.param_path@ == "export/smollm/smollm.pnnx.param"@,
        m == Model::Yolo ==> r.param_path@ == "export/yolo/yolov5nu.pnnx.param"@,
        m == Model::Resnet ==> r.weight_path@ == "export/resnet/resnet18.pnnx.bin"@,
        m == Model::Bert ==> r.weight_path@
            == "export/bert/distilbert-base-uncased-base-fillmask.pnnx.bin"@,
        m == Model::Smollm ==> r.weight_path@ == "export/smollm/smollm.pnnx.bin"@,
        m == Model::Yolo ==> r.weight_path@ == "export/yolo/yolov5nu.pnnx.bin"@,
{
    match m {
        Model::Resnet => start_resnet(),
        Model::Bert => start_bert(),
        Model::Smollm => start_smollm(),
        Model::Yolo => start_yolo(),
    }
}

/// The element type a request names: `float32`, `int64`, `bfloat16` or
/// `float16`.
pub open spec fn spec_wire_dtype(name: Seq<char>) -> Option<DataType> {
    if name == "float32"@ {
        Some(DataType::Float32)
    } else if name == "int64"@ {
        Some(DataType::Int64)
    } else if name == "bfloat16"@ {
        Some(DataType::BFloat16)
    } else if name == "float16"@ {
        Some(DataType::Float16)
    } else {
        None
    }
}

/// The name an element type goes by in a reply; booleans have none.
pub open spec fn spec_wire_name(dt: DataType) -> Option<Seq<char>> {
    match dt {
        DataType::Float32 => Some("float32"@),
        DataType::Int64 => Some("int64"@),
        DataType::BFloat16 => Some("bfloat16"@),
        DataType::Float16 => Some("float16"@),
        DataType::Boolean => None,
    }
}

pub fn wire_dtype(name: &str) -> (r: Option<DataType>)
    ensures
        r == spec_wire_dtype(name@),
{
    let n = chars_of(name);
    let n = n.as_slice();
    if chars_eq(n, "float32") {
        Some(DataType::Float32)
    } else if chars_eq(n, "int64") {
        Some(DataType::Int64)
    } else if chars_eq(n, "bfloat16") {
        Some(DataType::BFloat16)
    } else if chars_eq(n, "float16") {
        Some(DataType::Float16)
    } else {
        None
    }
}

pub fn wire_name(dt: DataType) -> (r: Option<String>)
    ensures
        match spec_wire_name(dt) {
            Some(s) => r matches Some(x) && x@ == s,
            None => r is None,
        },
{
    match dt {
        DataType::Float32 => Some("float32".to_owned()),
        DataType::Int64 => Some("int64".to_owned()),
        DataType::BFloat16 => Some("bfloat16".to_owned()),
        DataType::Float16 => Some("float16".to_owned()),
        DataType::Boolean => None,
    }
}

/// A tensor sent back in a reply is read as the same element type when it
/// comes in again.
pub proof fn law_wire_round_trip(dt: DataType)
    requires
        dt != DataType::Boolean,
    ensures
        spec_wire_name(dt) matches Some(s) && spec_wire_dtype(s) == Some(dt),
{
    reveal_strlit("float32");
    reveal_strlit("int64");
    reveal_strlit("bfloat16");
    reveal_strlit("float16");
    assert("int64"@.len() != "float32"@.len());
    assert("bfloat16"@.len() != "float32"@.len() && "bfloat16"@.len() != "int64"@.len());
    assert("float16"@[5] != "float32"@[5]);
    assert("float16"@.len() != "int64"@.len() && "float16"@.len() != "bfloat16"@.len());
}

} // verus!

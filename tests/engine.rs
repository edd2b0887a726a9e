use grafiek_engine::engine::{Engine, OperatorKind};
use grafiek_engine::error::Error;
use grafiek_engine::gpu_pool::GpuCommand;
use grafiek_engine::value::{TextureFormat, TextureHandle, TextureId};
use grafiek_engine::history::{Event, Message, Mutation};
use grafiek_engine::ops::{ArithOp, Arithmetic, Input, InputType, Operation, Output};
use grafiek_engine::value::Value;

fn eval(op: ArithOp, a: u32, b: u32) -> u32 {
    let (a, b) = (f32::from_bits(a), f32::from_bits(b));
    let r = match op {
        ArithOp::Add => a + b,
        ArithOp::Subtract => a - b,
        ArithOp::Multiply => a * b,
        ArithOp::Power => a.powf(b),
        ArithOp::Log => a.log(b),
        ArithOp::Divide => a / b,
        ArithOp::Min => a.min(b),
        ArithOp::Max => a.max(b),
        ArithOp::Abs => a.abs(),
    };
    r.to_bits()
}

fn engine() -> Engine {
    Engine::init().unwrap()
}

fn float(v: f32) -> Value {
    Value::F32(v.to_bits())
}

fn input_op() -> Operation {
    Operation::Input(Input::new(InputType::Float))
}

fn add_op() -> Operation {
    Operation::Arithmetic(Arithmetic { operation: ArithOp::Add })
}

#[test]
fn init() {
    engine();
}

#[test]
fn spawn_from_box() {
    let mut engine = engine();
    engine.add_node(input_op()).unwrap();
}

#[test]
fn spawn_from_path() {
    let mut engine = engine();
    engine.instance_node("core", "input").unwrap();
}

#[test]
fn add_with_graph_inputs() {
    let mut engine = engine();

    let input_a = engine.add_node(input_op()).unwrap();
    let input_b = engine.add_node(input_op()).unwrap();
    let add = engine.add_node(add_op()).unwrap();
    let output = engine.add_node(Operation::Output(Output)).unwrap();

    engine.connect(input_a, add, 0, 0).unwrap();
    engine.connect(input_b, add, 0, 1).unwrap();
    engine.connect(add, output, 0, 0).unwrap();

    assert_eq!(engine.node_count(), 4);
    assert_eq!(engine.edge_count(), 3);

    engine.edit_graph_input(input_a, float(3.0)).unwrap();
    engine.edit_graph_input(input_b, float(4.0)).unwrap();

    engine.execute(&eval);

    let add_node = engine.get_node(add).unwrap();
    assert_eq!(add_node.input_count(), 2);
    assert_eq!(add_node.output_count(), 1);

    match engine.result(0) {
        Some(Value::F32(v)) => assert_eq!(f32::from_bits(*v), 7.0),
        _ => panic!("expected F32"),
    }
}

#[test]
fn add_with_node_inputs() {
    let mut engine = engine();

    let add = engine.add_node(add_op()).unwrap();
    let output = engine.add_node(Operation::Output(Output)).unwrap();

    engine.connect(add, output, 0, 0).unwrap();

    engine.edit_node_input(add, 0, float(3.0)).unwrap();
    engine.edit_node_input(add, 1, float(4.0)).unwrap();

    engine.execute(&eval);

    let output_node = engine.get_node(output).unwrap();
    match output_node.input_value(0) {
        Some(Value::F32(v)) => assert_eq!(f32::from_bits(*v), 7.0),
        _ => panic!("expected F32"),
    }
}

#[test]
fn input_node_emits_dirty_on_edit() {
    let mut engine = engine();
    let input = engine.add_node(Operation::Input(Input::new(InputType::Float))).unwrap();
    engine.take_messages();

    engine.edit_graph_input(input, float(42.0)).unwrap();

    let msgs = engine.take_messages();
    assert_eq!(msgs.len(), 1);
    assert!(matches!(msgs[0], Message::Event(Event::GraphDirtied)));
}

#[test]
fn input_node_no_dirty_when_value_unchanged() {
    let mut engine = engine();
    let input = engine.add_node(Operation::Input(Input::new(InputType::Float))).unwrap();
    engine.take_messages();

    engine.edit_graph_input(input, float(0.0)).unwrap();

    let msgs = engine.take_messages();
    assert!(msgs.is_empty(), "Expected no messages, got {:?}", msgs);
}

#[test]
fn connect_emits_dirty() {
    let mut engine = engine();
    let input = engine.add_node(Operation::Input(Input::new(InputType::Float))).unwrap();
    let add = engine.add_node(add_op()).unwrap();
    engine.take_messages();

    engine.connect(input, add, 0, 0).unwrap();

    let msgs = engine.take_messages();
    assert!(
        msgs.iter().any(|m| matches!(m, Message::Event(Event::GraphDirtied))),
        "Expected GraphDirtied event, got {:?}",
        msgs
    );
}

#[test]
fn find_category() {
    let engine = engine();
    assert!(engine.node_categories().iter().any(|c| c == "core"));
}

#[test]
fn find_operator() {
    let engine = engine();
    assert!(engine.iter_category("core").iter().any(|o| o == "input"));
}

#[test]
fn diamond_executes_in_dependency_order() {
    let mut engine = engine();
    let a = engine.add_node(input_op()).unwrap();
    let b = engine.add_node(input_op()).unwrap();
    let add = engine.add_node(add_op()).unwrap();
    let out = engine.add_node(Operation::Output(Output)).unwrap();
    engine.connect(add, out, 0, 0).unwrap();
    engine.connect(b, add, 0, 1).unwrap();
    engine.connect(a, add, 0, 0).unwrap();
    engine.edit_graph_input(a, float(3.0)).unwrap();
    engine.edit_graph_input(b, float(4.0)).unwrap();
    engine.take_messages();

    engine.execute(&eval);

    let msgs = engine.take_messages();
    assert!(matches!(msgs.first(), Some(Message::Event(Event::ExecutionStarted))));
    assert!(matches!(msgs.last(), Some(Message::Event(Event::ExecutionCompleted))));
    let order: Vec<usize> = msgs
        .iter()
        .filter_map(|m| match m {
            Message::Event(Event::NodeExecuted { node }) => Some(*node),
            _ => None,
        })
        .collect();
    assert_eq!(order.len(), 4);
    let pos = |n: usize| order.iter().position(|&x| x == n).unwrap();
    assert!(pos(a) < pos(add));
    assert!(pos(b) < pos(add));
    assert!(pos(add) < pos(out));
    match engine.result(0) {
        Some(Value::F32(v)) => assert_eq!(f32::from_bits(*v), 7.0),
        _ => panic!("expected F32"),
    }
    assert_eq!(engine.results().len(), 1);
    assert!(engine.result(1).is_none());
}

#[test]
fn subtract_uses_operands_in_slot_order() {
    let mut engine = engine();
    let sub = engine.add_node(add_op()).unwrap();
    engine.edit_node_config(sub, 0, Value::I32(1)).unwrap();
    let out = engine.add_node(Operation::Output(Output)).unwrap();
    engine.connect(sub, out, 0, 0).unwrap();
    engine.edit_node_input(sub, 0, float(10.0)).unwrap();
    engine.edit_node_input(sub, 1, float(4.0)).unwrap();
    engine.execute(&eval);
    match engine.result(0) {
        Some(Value::F32(v)) => assert_eq!(f32::from_bits(*v), 6.0),
        _ => panic!("expected F32"),
    }
    let node = engine.get_node(sub).unwrap();
    assert_eq!(node.signature().inputs[0].name(), "minuend");
    assert_eq!(node.signature().inputs[1].name(), "subtrahend");
}

#[test]
fn second_driver_replaces_first() {
    let mut engine = engine();
    let a = engine.add_node(input_op()).unwrap();
    let b = engine.add_node(input_op()).unwrap();
    let c = engine.add_node(add_op()).unwrap();
    engine.connect(a, c, 0, 0).unwrap();
    engine.take_messages();

    engine.connect(b, c, 0, 0).unwrap();

    assert_eq!(engine.edge_count(), 1);
    let msgs = engine.take_messages();
    assert_eq!(msgs.len(), 4);
    match &msgs[0] {
        Message::Mutation(Mutation::Disconnect { from_node, from_slot, to_node, to_slot }) => {
            assert_eq!((*from_node, *from_slot, *to_node, *to_slot), (a, 0, c, 0));
        }
        m => panic!("expected Disconnect, got {:?}", m),
    }
    assert!(matches!(msgs[1], Message::Event(Event::GraphDirtied)));
    match &msgs[2] {
        Message::Mutation(Mutation::Connect { from_node, from_slot, to_node, to_slot }) => {
            assert_eq!((*from_node, *from_slot, *to_node, *to_slot), (b, 0, c, 0));
        }
        m => panic!("expected Connect, got {:?}", m),
    }
    assert!(engine.disconnect(a, c, 0, 0).is_err());
    engine.disconnect(b, c, 0, 0).unwrap();
    assert_eq!(engine.edge_count(), 0);
}

#[test]
fn back_edge_is_refused_as_loop() {
    let mut engine = engine();
    let a = engine.add_node(add_op()).unwrap();
    let b = engine.add_node(add_op()).unwrap();
    engine.connect(a, b, 0, 0).unwrap();
    engine.take_messages();
    let could_undo = engine.can_undo();

    let r = engine.connect(b, a, 0, 0);

    assert!(matches!(r, Err(grafiek_engine::error::Error::CreatesLoop)));
    assert_eq!(engine.edge_count(), 1);
    assert!(engine.take_messages().is_empty());
    assert_eq!(engine.can_undo(), could_undo);
    assert!(matches!(engine.connect(a, a, 0, 1), Err(grafiek_engine::error::Error::CreatesLoop)));
}

#[test]
fn connect_rejections() {
    let mut engine = engine();
    let a = engine.add_node(input_op()).unwrap();
    let b = engine.add_node(add_op()).unwrap();
    assert!(matches!(engine.connect(a, 99, 0, 0), Err(Error::NodeNotFound(99))));
    assert!(matches!(engine.connect(a, b, 5, 0), Err(Error::NoOutputSlot(5))));
    assert!(matches!(engine.connect(a, b, 0, 7), Err(Error::NoInputSlot(7))));
    engine.edit_node_config(a, 0, Value::I32(2)).unwrap();
    assert!(matches!(
        engine.connect(a, b, 0, 0),
        Err(Error::IncompatibleTypes { from_slot: 0, to_slot: 0 })
    ));
}

#[test]
fn delete_reports_each_disconnect_then_the_node() {
    let mut engine = engine();
    let a = engine.add_node(input_op()).unwrap();
    let b = engine.add_node(input_op()).unwrap();
    let c = engine.add_node(add_op()).unwrap();
    let d = engine.add_node(Operation::Output(Output)).unwrap();
    engine.connect(a, c, 0, 0).unwrap();
    engine.connect(b, c, 0, 1).unwrap();
    engine.connect(c, d, 0, 0).unwrap();
    engine.take_messages();

    engine.delete_node(c).unwrap();

    let msgs = engine.take_messages();
    let muts: Vec<&Mutation> = msgs
        .iter()
        .filter_map(|m| match m {
            Message::Mutation(m) => Some(m),
            _ => None,
        })
        .collect();
    assert_eq!(muts.len(), 4);
    assert!(muts[..3].iter().all(|m| matches!(m, Mutation::Disconnect { .. })));
    assert!(matches!(muts[3], Mutation::DeleteNode { idx, .. } if *idx == c));
    assert_eq!(engine.edge_count(), 0);
    assert_eq!(engine.node_count(), 3);
    assert!(engine.get_node(c).is_none());
    assert!(matches!(engine.delete_node(c), Err(grafiek_engine::error::Error::NodeNotFound(_))));
}

#[test]
fn editing_to_current_value_is_silent() {
    let mut engine = engine();
    let add = engine.add_node(add_op()).unwrap();
    engine.take_messages();
    engine.edit_node_input(add, 0, float(0.0)).unwrap();
    assert!(engine.take_messages().is_empty());
    engine.edit_node_input(add, 0, float(2.5)).unwrap();
    let msgs = engine.take_messages();
    assert_eq!(msgs.len(), 1);
    assert!(matches!(msgs[0], Message::Event(Event::GraphDirtied)));
    assert!(engine.get_node(add).unwrap().is_dirty());
    engine.edit_node_input(add, 0, float(2.5)).unwrap();
    assert!(engine.take_messages().is_empty());
    assert!(engine.edit_node_input(add, 0, Value::I32(1)).is_err());
    assert!(matches!(
        engine.edit_node_input(add, 9, float(1.0)),
        Err(grafiek_engine::error::Error::NoPort(9))
    ));
}

#[test]
fn config_edit_reconfigures_and_drops_invalid_edges() {
    let mut engine = engine();
    let input = engine.add_node(input_op()).unwrap();
    let add = engine.add_node(add_op()).unwrap();
    engine.connect(input, add, 0, 0).unwrap();
    engine.take_messages();

    engine.edit_node_config(input, 0, Value::I32(0)).unwrap();
    assert!(engine.take_messages().is_empty());

    engine.edit_node_config(input, 0, Value::I32(2)).unwrap();
    let msgs = engine.take_messages();
    assert!(matches!(msgs[0], Message::Event(Event::GraphDirtied)));
    assert!(msgs
        .iter()
        .any(|m| matches!(m, Message::Mutation(Mutation::Disconnect { .. }))));
    assert_eq!(engine.edge_count(), 0);
    let node = engine.get_node(input).unwrap();
    assert!(matches!(node.output(0), Some((_, Value::Texture(_)))));
}

#[test]
fn three_moves_coalesce_into_one_undo_step() {
    let mut engine = engine();
    let n = engine.add_node(input_op()).unwrap();
    let p = |x: f32, y: f32| (x.to_bits(), y.to_bits());
    engine.set_node_position(n, p(1.0, 1.0)).unwrap();
    engine.set_node_position(n, p(2.0, 2.0)).unwrap();
    engine.set_node_position(n, p(3.0, 3.0)).unwrap();
    assert_eq!(engine.get_node(n).unwrap().position(), p(3.0, 3.0));
    match engine.undo() {
        Some(Mutation::MoveNode { node, old_position, new_position }) => {
            assert_eq!(node, n);
            assert_eq!(old_position, p(3.0, 3.0));
            assert_eq!(new_position, p(0.0, 0.0));
        }
        m => panic!("expected MoveNode, got {:?}", m),
    }
    assert!(matches!(engine.undo(), Some(Mutation::DeleteNode { idx, .. }) if idx == n));
    assert!(!engine.can_undo());
    assert!(engine.can_redo());
    assert!(matches!(engine.redo(), Some(Mutation::CreateNode { idx, .. }) if idx == n));
}

#[test]
fn deleting_a_node_releases_only_its_textures() {
    let mut engine = engine();
    let t1 = engine.add_node(input_op()).unwrap();
    let t2 = engine.add_node(input_op()).unwrap();
    engine.edit_node_config(t1, 0, Value::I32(2)).unwrap();
    engine.edit_node_config(t2, 0, Value::I32(2)).unwrap();
    engine.upload_texture(t1, 0, 2, 2, vec![0; 16]).unwrap();
    engine.upload_texture(t2, 0, 1, 1, vec![0; 4]).unwrap();
    let h1 = match engine.get_node(t1).unwrap().output(0) {
        Some((_, Value::Texture(h))) => *h,
        _ => panic!("expected texture"),
    };
    let h2 = match engine.get_node(t2).unwrap().output(0) {
        Some((_, Value::Texture(h))) => *h,
        _ => panic!("expected texture"),
    };
    assert_eq!((h1.width, h1.height), (2, 2));
    assert!(engine.get_texture(&h1).is_some());
    engine.take_gpu_commands();

    engine.delete_node(t1).unwrap();

    let cmds = engine.take_gpu_commands();
    assert_eq!(cmds.len(), 1);
    assert!(matches!(cmds[0], GpuCommand::Release { id } if Some(id) == h1.id));
    assert!(engine.get_texture(&h1).is_none());
    assert!(engine.get_texture(&h2).is_some());
    let speck = TextureHandle { id: Some(TextureId(0)), width: 1, height: 1, fmt: TextureFormat::RGBAu8 };
    assert!(engine.get_texture(&speck).is_some());
}

#[test]
fn system_textures_are_created_at_init() {
    let mut engine = engine();
    let cmds = engine.take_gpu_commands();
    assert_eq!(cmds.len(), 4);
    match &cmds[3] {
        GpuCommand::Create { id, width, height, data, .. } => {
            assert_eq!(id.0, 3);
            assert_eq!((*width, *height), (2, 2));
            assert_eq!(data.as_ref().unwrap().len(), 16);
        }
        c => panic!("expected Create, got {:?}", c),
    }
}

#[test]
fn unknown_operator_is_named() {
    let mut engine = engine();
    match engine.instance_node("core", "nope") {
        Err(grafiek_engine::error::Error::UnknownOperationType(p)) => assert_eq!(p, "core/nope"),
        _ => panic!("expected UnknownOperationType"),
    }
    let i = engine.instance_node("math", "arithmetic").unwrap();
    assert!(matches!(engine.operation(i), Some(Operation::Arithmetic(_))));
    assert_eq!(engine.iter_category("math"), vec!["arithmetic".to_string()]);
    assert_eq!(engine.node_categories(), vec!["core".to_string(), "math".to_string()]);
}

#[test]
fn graph_input_requires_input_node() {
    let mut engine = engine();
    let add = engine.add_node(add_op()).unwrap();
    assert!(matches!(
        engine.edit_graph_input(add, float(1.0)),
        Err(grafiek_engine::error::Error::NotInputNode)
    ));
    assert!(matches!(
        engine.edit_graph_input(77, float(1.0)),
        Err(grafiek_engine::error::Error::NodeNotFound(77))
    ));
}

#[test]
fn labels_and_listing() {
    let mut engine = engine();
    let a = engine.add_node(input_op()).unwrap();
    let o = engine.add_node(Operation::Output(Output)).unwrap();
    assert_eq!(engine.get_node(a).unwrap().label(), "input");
    engine.set_label(a, "speed");
    assert_eq!(engine.get_node(a).unwrap().label(), "speed");
    engine.set_label(a, "");
    assert_eq!(engine.get_node(a).unwrap().label(), "input");
    assert_eq!(engine.inputs(), vec![a]);
    assert_eq!(engine.outputs(), vec![o]);
}

#[test]
fn failing_node_stays_dirty_and_pass_continues() {
    let mut engine = engine();
    let int_in = engine.add_node(input_op()).unwrap();
    engine.edit_node_config(int_in, 0, Value::I32(1)).unwrap();
    let add = engine.add_node(add_op()).unwrap();
    let out = engine.add_node(Operation::Output(Output)).unwrap();
    engine.connect(int_in, add, 0, 0).unwrap();
    engine.connect(add, out, 0, 0).unwrap();
    engine.edit_node_input(add, 1, float(1.0)).unwrap();
    engine.edit_graph_input(int_in, Value::I32(5)).unwrap();
    engine.take_messages();

    engine.execute(&eval);

    assert!(engine.get_node(add).unwrap().is_dirty());
    assert!(!engine.get_node(int_in).unwrap().is_dirty());
    let executed = engine
        .take_messages()
        .iter()
        .filter(|m| matches!(m, Message::Event(Event::NodeExecuted { .. })))
        .count();
    assert_eq!(executed, 3);
    match engine.result(0) {
        Some(Value::F32(v)) => assert_eq!(f32::from_bits(*v), 0.0),
        _ => panic!("expected F32"),
    }
}

#[test]
fn dirty_flag_is_shared() {
    let mut engine = engine();
    let n = engine.add_node(input_op()).unwrap();
    let node = engine.get_node(n).unwrap();
    assert!(!node.is_dirty());
    let flag = node.dirty_flag();
    flag.set();
    assert!(flag.get());
    assert!(engine.get_node(n).unwrap().is_dirty());
    engine.execute(&eval);
    assert!(!engine.get_node(n).unwrap().is_dirty());
    assert!(!flag.get());
    flag.set();
    flag.clear();
    assert!(!engine.get_node(n).unwrap().is_dirty());
}

#[test]
fn bulk_input_edits_stop_at_first_refusal() {
    let mut engine = engine();
    let add = engine.add_node(add_op()).unwrap();
    engine.take_messages();

    engine.edit_all_node_inputs(add, vec![float(1.0), float(2.0)]).unwrap();
    assert_eq!(engine.take_messages().len(), 1);
    engine.edit_all_node_inputs(add, vec![float(1.0), float(2.0)]).unwrap();
    assert!(engine.take_messages().is_empty());

    let r = engine.edit_all_node_inputs(add, vec![float(5.0), Value::I32(1), float(9.0)]);
    assert!(matches!(r, Err(Error::Value(_))));
    let node = engine.get_node(add).unwrap();
    assert!(matches!(node.input(0), Some((_, Value::F32(b))) if f32::from_bits(*b) == 5.0));
    assert!(matches!(node.input(1), Some((_, Value::F32(b))) if f32::from_bits(*b) == 2.0));
    assert_eq!(engine.take_messages().len(), 1);

    engine.edit_all_node_configs(add, vec![Value::I32(8)]).unwrap();
    assert_eq!(engine.get_node(add).unwrap().input_count(), 1);
    assert!(matches!(engine.edit_all_node_inputs(42, vec![]), Err(Error::NodeNotFound(42))));
}

#[test]
fn error_variants_from_the_api() {
    let mut engine = engine();
    match engine.register_op(OperatorKind::Input) {
        Err(Error::DuplicateOperationType(l, o)) => assert_eq!((l.as_str(), o.as_str()), ("core", "input")),
        _ => panic!("expected DuplicateOperationType"),
    }
    let a = engine.add_node(input_op()).unwrap();
    let b = engine.add_node(add_op()).unwrap();
    assert!(matches!(
        engine.disconnect(a, b, 0, 0),
        Err(Error::EdgeNotFound { from_slot: 0, to_slot: 0 })
    ));
    match engine.upload_texture(a, 0, 1, 1, vec![0; 4]) {
        Err(Error::Script(e)) => assert_eq!(e.errors[0].message, "Output is not a texture"),
        _ => panic!("expected Script error"),
    }
    assert!(matches!(engine.upload_texture(a, 3, 1, 1, vec![0; 4]), Err(Error::NoOutputSlot(3))));
    assert!(matches!(engine.set_node_position(99, (0, 0)), Err(Error::NodeNotFound(99))));
}

#[test]
fn upload_creates_owned_texture_with_data() {
    let mut engine = engine();
    let t = engine.add_node(input_op()).unwrap();
    engine.edit_node_config(t, 0, Value::I32(2)).unwrap();
    engine.take_gpu_commands();
    engine.upload_texture(t, 0, 2, 1, vec![1, 2, 3, 4, 5, 6, 7, 8]).unwrap();
    let cmds = engine.take_gpu_commands();
    assert_eq!(cmds.len(), 1);
    let created = match &cmds[0] {
        GpuCommand::Create { id, width, height, data, .. } => {
            assert_eq!((*width, *height), (2, 1));
            assert_eq!(data.as_deref(), Some(&[1u8, 2, 3, 4, 5, 6, 7, 8][..]));
            *id
        }
        c => panic!("expected Create, got {:?}", c),
    };
    match engine.get_node(t).unwrap().output(0) {
        Some((_, Value::Texture(h))) => assert_eq!(h.id, Some(created)),
        _ => panic!("expected texture"),
    }
    engine.upload_texture(t, 0, 1, 1, vec![0; 4]).unwrap();
    let cmds = engine.take_gpu_commands();
    assert!(matches!(cmds[0], GpuCommand::Release { id } if id == created));
    assert!(matches!(cmds[1], GpuCommand::Create { .. }));
}

#[test]
fn init_registers_builtins_in_order() {
    let engine = engine();
    assert_eq!(engine.iter_category("core"), vec!["input".to_string(), "output".to_string(), "comment".to_string()]);
    assert!(!engine.can_undo());
}

#[test]
fn connect_records_history_and_fresh_ids_increase() {
    let mut engine = engine();
    let a = engine.add_node(input_op()).unwrap();
    let b = engine.add_node(add_op()).unwrap();
    let ida = engine.get_node(a).unwrap().record().id.0;
    let idb = engine.get_node(b).unwrap().record().id.0;
    assert!(idb > ida);
    engine.connect(a, b, 0, 0).unwrap();
    assert!(matches!(engine.undo(), Some(Mutation::Disconnect { from_node, to_node, .. }) if from_node == a && to_node == b));
}

#[test]
fn dropped_edges_forget_delivered_values() {
    let mut engine = engine();
    let a = engine.add_node(input_op()).unwrap();
    let b = engine.add_node(input_op()).unwrap();
    let add = engine.add_node(add_op()).unwrap();
    engine.connect(a, add, 0, 0).unwrap();
    engine.connect(b, add, 0, 1).unwrap();
    engine.execute(&eval);
    assert!(engine.get_node(add).unwrap().incoming[0].is_some());
    assert!(engine.get_node(add).unwrap().incoming[1].is_some());

    engine.edit_node_config(a, 0, Value::I32(2)).unwrap();
    assert!(engine.get_node(add).unwrap().incoming[0].is_none());
    assert!(engine.get_node(add).unwrap().incoming[1].is_some());

    let before = engine.node_count();
    engine.delete_node(b).unwrap();
    assert!(engine.get_node(add).unwrap().incoming[1].is_none());
    assert_eq!(engine.node_count(), before - 1);
}

#[test]
fn instanced_node_carries_its_path() {
    let mut engine = engine();
    let before = engine.node_count();
    let i = engine.instance_node("math", "arithmetic").unwrap();
    assert_eq!(engine.node_count(), before + 1);
    let path = engine.get_node(i).unwrap().op_path();
    assert_eq!((path.library.as_str(), path.operator.as_str()), ("math", "arithmetic"));
}

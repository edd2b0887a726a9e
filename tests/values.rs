use grafiek_engine::error::{Error, ScriptError};
use grafiek_engine::history::{History, Mutation};
use grafiek_engine::node::ConnectionProbe;
use grafiek_engine::signature::SignatureRegistery;
use grafiek_engine::slot::SlotDef;
use grafiek_engine::numeric::{float_bits_from_int, int_from_float_bits};
use grafiek_engine::value::{GrafiekString, Value, ValueType};

const ALL: [ValueType; 5] = [ValueType::I32, ValueType::F32, ValueType::Texture, ValueType::String, ValueType::Any];

#[test]
fn cast_rules() {
    for t in ALL {
        assert!(t.can_cast_to(&t));
        assert!(t.can_cast_to(&ValueType::Any));
        assert!(ValueType::Any.can_cast_to(&t));
    }
    assert!(ValueType::I32.can_cast_to(&ValueType::F32));
    assert!(ValueType::F32.can_cast_to(&ValueType::I32));
    assert!(!ValueType::I32.can_cast_to(&ValueType::String));
    assert!(!ValueType::Texture.can_cast_to(&ValueType::F32));
    assert!(!ValueType::String.can_cast_to(&ValueType::Texture));
    for t in ALL {
        assert!(!Value::Null.can_cast_to(&t));
    }
    assert!(Value::I32(3).can_cast_to(&ValueType::F32));
    assert!(ValueType::I32.matches(&ValueType::Any));
    assert!(!ValueType::I32.matches(&ValueType::F32));
}

#[test]
fn checkpoint_detects_changes() {
    let mut v = Value::I32(5);
    let cp = v.checkpoint();
    assert!(!v.changed_since(&cp));
    v = Value::I32(6);
    assert!(v.changed_since(&cp));
    let mut w = Value::F32(1.0f32.to_bits());
    assert!(w.changed_since(&cp));

    let mut s = GrafiekString::new("abc".to_string());
    let guard = s.edit();
    assert_eq!(guard.text, "abc");
    let mut guard2 = guard;
    guard2.text.push('d');
    guard2.changed(&mut s);
    assert_eq!(s.as_str(), "abcd");
    assert!(s.is_dirty());
    let mut sv = Value::String(s);
    let cps = sv.checkpoint();
    assert!(sv.changed_since(&cps));
    assert!(!sv.changed_since(&cps));

    let mut t = GrafiekString::new("x".to_string());
    let g = t.edit();
    g.unchanged(&mut t);
    assert!(!t.is_dirty());
    assert_eq!(t.as_str(), "x");
}

#[test]
fn duplicate_slot_names_are_reported() {
    let mut reg = SignatureRegistery::new();
    reg.push_input_raw(SlotDef::new("a".to_string(), ValueType::F32));
    reg.push_output_raw(SlotDef::new("x".to_string(), ValueType::F32));
    reg.push_output_raw(SlotDef::new("x".to_string(), ValueType::I32));
    match reg.validate_unique_names() {
        Err(Error::DuplicateSlotName(n, l)) => {
            assert_eq!(n, "x");
            assert_eq!(l, "outputs");
        }
        _ => panic!("expected DuplicateSlotName"),
    }
    assert_eq!(reg.output_by_name("x", ValueType::F32), Some(0));
    assert_eq!(reg.output_by_name("x", ValueType::I32), None);
    assert_eq!(reg.input_by_name("a", ValueType::F32), Some(0));
    reg.clear_outputs();
    assert!(reg.validate_unique_names().is_ok());
}

#[test]
fn slot_defaults() {
    let mut d = SlotDef::new("v".to_string(), ValueType::I32);
    assert!(matches!(d.default_value(), Value::I32(0)));
    d.set_default(Value::I32(9));
    assert!(matches!(d.default_value(), Value::I32(9)));
    assert!(matches!(ValueType::Any.default_value(), Value::Null));
    match ValueType::Texture.default_value() {
        Value::Texture(h) => assert_eq!((h.id, h.width, h.height), (None, 1, 1)),
        _ => panic!("expected texture"),
    }
    match grafiek_engine::slot::texture_default(0, 8) {
        Value::Texture(h) => assert_eq!((h.width, h.height), (1, 8)),
        _ => panic!("expected texture"),
    }
}

#[test]
fn script_error_and_probe() {
    let e = Error::Script(ScriptError::new("bad".to_string()));
    let s = e.as_script_error().unwrap();
    assert_eq!(s.errors.len(), 1);
    assert_eq!(s.errors[0].message, "bad");
    assert_eq!((s.errors[0].line, s.errors[0].column), (0, 0));
    assert!(Error::CreatesLoop.as_script_error().is_none());
    assert_eq!(ConnectionProbe::Valid, ConnectionProbe::Valid);
}

#[test]
fn history_coalesces_and_trims() {
    let mut h = History::new(2);
    let mv = |a: u32, b: u32| Mutation::MoveNode { node: 1, old_position: (a, a), new_position: (b, b) };
    h.push(mv(0, 1));
    h.push(mv(1, 2));
    h.push(mv(2, 3));
    assert_eq!(h.undo_stack.len(), 1);
    match h.undo() {
        Some(Mutation::MoveNode { old_position, new_position, .. }) => {
            assert_eq!(old_position, (3, 3));
            assert_eq!(new_position, (0, 0));
        }
        m => panic!("unexpected {:?}", m),
    }
    h.push(Mutation::Connect { from_node: 0, from_slot: 0, to_node: 1, to_slot: 0 });
    assert!(!h.can_redo());
    h.push(Mutation::Connect { from_node: 0, from_slot: 0, to_node: 2, to_slot: 0 });
    h.push(Mutation::Connect { from_node: 0, from_slot: 0, to_node: 3, to_slot: 0 });
    assert_eq!(h.undo_stack.len(), 2);
    assert!(matches!(h.undo_stack[0], Mutation::Connect { to_node: 2, .. }));
    assert!(matches!(h.undo(), Some(Mutation::Disconnect { to_node: 3, .. })));
    assert!(matches!(h.redo(), Some(Mutation::Connect { to_node: 3, .. })));
    assert!(Mutation::Connect { from_node: 0, from_slot: 0, to_node: 1, to_slot: 0 }.dirties_graph());
    assert!(!mv(0, 1).dirties_graph());
    h.clear();
    assert!(!h.can_undo());
}

#[test]
fn set_input_edits_coalesce_per_slot() {
    let mut h = History::new(10);
    let set = |slot: usize, a: i32, b: i32| Mutation::SetInput {
        node: 4,
        slot,
        old_value: Value::I32(a),
        new_value: Value::I32(b),
    };
    h.push(set(0, 0, 1));
    h.push(set(0, 1, 2));
    h.push(set(1, 0, 5));
    assert_eq!(h.undo_stack.len(), 2);
    assert!(matches!(
        &h.undo_stack[0],
        Mutation::SetInput { old_value: Value::I32(0), new_value: Value::I32(2), .. }
    ));
}

#[test]
fn casts_convert_numbers() {
    assert!(matches!(Value::I32(3).cast(&ValueType::F32), Some(Value::F32(b)) if f32::from_bits(b) == 3.0));
    assert!(matches!(Value::F32((-2.7f32).to_bits()).cast(&ValueType::I32), Some(Value::I32(-2))));
    assert!(matches!(Value::F32(2.9f32.to_bits()).cast(&ValueType::I32), Some(Value::I32(2))));
    assert!(matches!(Value::I32(5).cast(&ValueType::Any), Some(Value::I32(5))));
    assert!(matches!(Value::I32(5).cast(&ValueType::I32), Some(Value::I32(5))));
    assert!(Value::I32(5).cast(&ValueType::String).is_none());
    assert!(Value::Null.cast(&ValueType::Any).is_none());
    assert_eq!(int_from_float_bits(f32::NAN.to_bits()), 0);
    assert_eq!(int_from_float_bits(1e10f32.to_bits()), i32::MAX);
    assert_eq!(int_from_float_bits((-1e10f32).to_bits()), i32::MIN);
    assert_eq!(int_from_float_bits(f32::INFINITY.to_bits()), i32::MAX);
    assert_eq!(f32::from_bits(float_bits_from_int(16_777_217)), 16_777_216.0);
    assert_eq!(f32::from_bits(float_bits_from_int(16_777_219)), 16_777_220.0);
    assert_eq!(f32::from_bits(float_bits_from_int(i32::MIN)), -2_147_483_648.0);
    assert_eq!(f32::from_bits(float_bits_from_int(i32::MAX)), 2_147_483_648.0);
}

#[test]
fn conversions_agree_with_as() {
    let mut x: i64 = i32::MIN as i64;
    while x <= i32::MAX as i64 {
        let i = x as i32;
        assert_eq!(float_bits_from_int(i), (i as f32).to_bits(), "int {}", i);
        x += 65_521;
    }
    for i in -70_000i32..70_000 {
        assert_eq!(float_bits_from_int(i), (i as f32).to_bits(), "int {}", i);
    }
    let mut b: u64 = 0;
    while b <= u32::MAX as u64 {
        let bits = b as u32;
        assert_eq!(int_from_float_bits(bits), f32::from_bits(bits) as i32, "bits {:#x}", bits);
        b += 40_009;
    }
}

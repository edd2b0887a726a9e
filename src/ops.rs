//! The built-in operations, as a closed set of variants dispatched by `match`.
//! Float arithmetic is left to an evaluator supplied by the caller, which
//! works on IEEE-754 bit patterns.

use vstd::prelude::*;
use crate::error::{Error, ValueError};
use crate::signature::{SignatureRegistery, names_unique};
use crate::slot::{SlotDef, ExtendedMetadata, FloatRange, IntEnum, TextureMeta};
use crate::value::{Value, ValueType, TextureHandle, TextureId, TextureFormat, type_of};

verus! {

/// Identifies an operation type in the registry.
#[derive(Debug, Clone, PartialEq, Eq)]
pub struct OpPath {
    pub library: String,
    pub operator: String,
}

impl OpPath {
    /// An exact copy of this path.
    pub fn duplicate(&self) -> (r: OpPath)
        ensures
            r == *self,
    {
        OpPath { library: self.library.clone(), operator: self.operator.clone() }
    }
}

/// Groups under which operations are listed.
#[derive(Debug, Copy, Clone, PartialEq, Eq)]
pub enum OpCategory {
    Arithmetic,
    Scripting,
    Graphics,
    Vector,
    Engine,
    Logic,
    Color,
}

/// The type a graph input emits.
#[derive(Debug, Default, Copy, Clone, PartialEq, Eq, Structural)]
pub enum InputType {
    #[default]
    Float,
    Int,
    Texture,
}

/// The arithmetic an `Arithmetic` node performs.
#[derive(Debug, Default, Copy, Clone, PartialEq, Eq, Structural)]
pub enum ArithOp {
    #[default]
    Add,
    Subtract,
    Multiply,
    Power,
    Log,
    Divide,
    Min,
    Max,
    Abs,
}

/// A graph input: emits the value it holds on its one output.
#[derive(Debug, Clone)]
pub struct Input {
    pub value_type: InputType,
    pub value: Value,
}

/// A graph output: records the value on its one input.
#[derive(Debug, Clone, Copy)]
pub struct Output;

/// A note for the frontend; no slots.
#[derive(Debug, Clone, Copy)]
pub struct Comment;

/// A binary (or, for `Abs`, unary) float operation.
#[derive(Debug, Clone, Copy)]
pub struct Arithmetic {
    pub operation: ArithOp,
}

/// The behaviour of a node.
#[derive(Debug, Clone)]
pub enum Operation {
    Input(Input),
    Output(Output),
    Arithmetic(Arithmetic),
    Comment(Comment),
}

/// The texture that stands in for a missing image: the pool's reserved 1x1
/// black texture.
pub open spec fn speck() -> TextureHandle {
    TextureHandle { id: Some(TextureId(0)), width: 1, height: 1, fmt: TextureFormat::RGBAu8 }
}

pub fn speck_handle() -> (r: TextureHandle)
    ensures
        r == speck(),
{
    TextureHandle { id: Some(TextureId(0)), width: 1, height: 1, fmt: TextureFormat::RGBAu8 }
}

/// The slot type an input of kind `t` emits.
pub open spec fn input_value_type(t: InputType) -> ValueType {
    match t {
        InputType::Float => ValueType::F32,
        InputType::Int => ValueType::I32,
        InputType::Texture => ValueType::Texture,
    }
}

/// The value an input of kind `t` starts with.
pub open spec fn input_initial(t: InputType) -> Value {
    match t {
        InputType::Float => Value::F32(0),
        InputType::Int => Value::I32(0),
        InputType::Texture => Value::Texture(speck()),
    }
}

/// The input kind a config integer selects; unknown integers select the
/// default, `Float`.
pub open spec fn input_type_of(k: i32) -> InputType {
    if k == 1 {
        InputType::Int
    } else if k == 2 {
        InputType::Texture
    } else {
        InputType::Float
    }
}

/// The operation a config integer selects; unknown integers select `Add`.
pub open spec fn arith_op_of(k: i32) -> ArithOp {
    if k == 1 {
        ArithOp::Subtract
    } else if k == 2 {
        ArithOp::Multiply
    } else if k == 3 {
        ArithOp::Power
    } else if k == 4 {
        ArithOp::Log
    } else if k == 5 {
        ArithOp::Divide
    } else if k == 6 {
        ArithOp::Min
    } else if k == 7 {
        ArithOp::Max
    } else if k == 8 {
        ArithOp::Abs
    } else {
        ArithOp::Add
    }
}

/// How many operands an operation takes.
pub open spec fn arity(op: ArithOp) -> nat {
    if op == ArithOp::Abs { 1 } else { 2 }
}

/// The names of an operation's operands.
pub open spec fn operand_names(op: ArithOp) -> Seq<Seq<char>> {
    match op {
        ArithOp::Subtract => seq!["minuend"@, "subtrahend"@],
        ArithOp::Power => seq!["base"@, "exponent"@],
        ArithOp::Log => seq!["base"@, "a"@],
        ArithOp::Divide => seq!["dividend"@, "divisor"@],
        ArithOp::Abs => seq!["a"@],
        _ => seq!["a"@, "b"@],
    }
}

proof fn lemma_operands_distinct(op: ArithOp)
    ensures
        operand_names(op).len() == arity(op),
        names_distinct(operand_names(op)),
{
    reveal_strlit("a");
    reveal_strlit("b");
    reveal_strlit("minuend");
    reveal_strlit("subtrahend");
    reveal_strlit("base");
    reveal_strlit("exponent");
    reveal_strlit("dividend");
    reveal_strlit("divisor");
    assert("a"@[0] != "b"@[0]);
    assert("minuend"@[0] != "subtrahend"@[0]);
    assert("base"@[0] != "exponent"@[0]);
    assert("base"@[0] != "a"@[0]);
    assert("dividend"@.len() != "divisor"@.len());
}

/// The names in `s` are pairwise different.
pub open spec fn names_distinct(s: Seq<Seq<char>>) -> bool {
    forall|i: int, j: int| 0 <= i < j < s.len() ==> s[i] != s[j]
}

impl InputType {
    pub fn from_config(k: i32) -> (r: InputType)
        ensures
            r == input_type_of(k),
    {
        if k == 1 {
            InputType::Int
        } else if k == 2 {
            InputType::Texture
        } else {
            InputType::Float
        }
    }
}

impl ArithOp {
    pub fn from_config(k: i32) -> (r: ArithOp)
        ensures
            r == arith_op_of(k),
    {
        if k == 1 {
            ArithOp::Subtract
        } else if k == 2 {
            ArithOp::Multiply
        } else if k == 3 {
            ArithOp::Power
        } else if k == 4 {
            ArithOp::Log
        } else if k == 5 {
            ArithOp::Divide
        } else if k == 6 {
            ArithOp::Min
        } else if k == 7 {
            ArithOp::Max
        } else if k == 8 {
            ArithOp::Abs
        } else {
            ArithOp::Add
        }
    }
}

impl Input {
    pub open spec fn stored(&self) -> Value {
        self.value
    }

    /// An input of kind `value_type`, holding that kind's initial value.
    pub fn new(value_type: InputType) -> (r: Input)
        ensures
            r.value_type == value_type,
            r.stored() == input_initial(value_type),
    {
        let value = match value_type {
            InputType::Float => Value::F32(0),
            InputType::Int => Value::I32(0),
            InputType::Texture => Value::Texture(speck_handle()),
        };
        Input { value_type, value }
    }

    pub fn value(&self) -> (r: &Value)
        ensures
            *r == self.stored(),
    {
        &self.value
    }

    pub fn value_mut(&mut self) -> (r: &mut Value)
        ensures
            *r == old(self).value,
            final(self).value == *final(r),
            final(self).value_type == old(self).value_type,
    {
        &mut self.value
    }

    pub fn set_value(&mut self, value: Value)
        ensures
            final(self).stored() == value,
            final(self).value_type == old(self).value_type,
    {
        self.value = value;
    }
}

/// Named choices `("label", index)` in order.
fn int_enum(labels: Vec<String>) -> (r: ExtendedMetadata)
    ensures
        r is IntEnum,
{
    let mut options: Vec<(String, i32)> = Vec::new();
    let mut i: usize = 0;
    while i < labels.len() && i < 1000
        invariant
            i <= labels@.len(),
        decreases labels@.len() - i,
    {
        options.push((labels[i].clone(), i as i32));
        i = i + 1;
    }
    ExtendedMetadata::IntEnum(IntEnum { options })
}

/// The float range offered for arithmetic operands: all finite floats, in
/// steps of 0.1.
fn operand_range() -> (r: ExtendedMetadata)
    ensures
        r is FloatRange,
{
    ExtendedMetadata::FloatRange(FloatRange { min: 0xff7f_ffff, max: 0x7f7f_ffff, step: 0x3dcc_cccd })
}

fn float_operand(name: &str) -> (r: SlotDef)
    ensures
        r.name@ == name@,
        r.value_type == ValueType::F32,
        r.default_override is None,
{
    let mut d = SlotDef::new(name.to_owned(), ValueType::F32);
    d.set_extended(operand_range());
    d
}

/// The input slots of an arithmetic node.
fn push_operands(reg: &mut SignatureRegistery, op: ArithOp)
    requires
        old(reg).inputs@.len() == 0,
    ensures
        final(reg).inputs@.len() == arity(op),
        forall|i: int| 0 <= i < arity(op) ==> #[trigger] final(reg).inputs@[i].name@ == operand_names(op)[i]
            && final(reg).inputs@[i].value_type == ValueType::F32,
        final(reg).outputs@ == old(reg).outputs@,
        final(reg).config@ == old(reg).config@,
        names_unique(final(reg).inputs@),
{
    let (first, second) = match op {
        ArithOp::Subtract => ("minuend", "subtrahend"),
        ArithOp::Power => ("base", "exponent"),
        ArithOp::Log => ("base", "a"),
        ArithOp::Divide => ("dividend", "divisor"),
        _ => ("a", "b"),
    };
    reg.push_input_raw(float_operand(first));
    if !matches!(op, ArithOp::Abs) {
        reg.push_input_raw(float_operand(second));
    }
    proof {
        reveal_strlit("a");
        reveal_strlit("b");
        reveal_strlit("minuend");
        reveal_strlit("subtrahend");
        reveal_strlit("base");
        reveal_strlit("exponent");
        reveal_strlit("dividend");
        reveal_strlit("divisor");
        lemma_operands_distinct(op);
    }
}

/// The output slot of an input node of kind `t`.
fn input_output_slot(t: InputType) -> (r: SlotDef)
    ensures
        r.name@ == "value"@,
        r.value_type == input_value_type(t),
        t == InputType::Texture ==> r.default_override == Some(Value::Texture(speck())),
        t != InputType::Texture ==> r.default_override is None,
{
    match t {
        InputType::Float => SlotDef::new("value".to_owned(), ValueType::F32),
        InputType::Int => SlotDef::new("value".to_owned(), ValueType::I32),
        InputType::Texture => {
            let mut d = SlotDef::new("value".to_owned(), ValueType::Texture);
            d.set_default(Value::Texture(speck_handle()));
            d.set_extended(ExtendedMetadata::Texture(TextureMeta { preview: true, allow_file: true }));
            d
        },
    }
}

/// Reads config slot 0 as an integer.
fn config_int(config: &Vec<Value>) -> (r: Result<i32, Error>)
    ensures
        config@.len() == 0 ==> r matches Err(Error::Value(ValueError::Index(0))),
        config@.len() > 0 ==> match config@[0] {
            Value::I32(k) => r == Ok::<i32, Error>(k),
            v => r matches Err(Error::Value(ValueError::TypeMismatch { wanted, found }))
                && wanted == ValueType::I32 && found == type_of(v),
        },
{
    if config.len() == 0 {
        return Err(Error::Value(ValueError::Index(0)));
    }
    match &config[0] {
        Value::I32(k) => Ok(*k),
        v => Err(Error::Value(ValueError::TypeMismatch { wanted: ValueType::I32, found: v.discriminant() })),
    }
}

impl Operation {
    /// Library and operator name of this operation.
    pub fn op_path(&self) -> (r: OpPath)
        ensures
            r.library@ == op_library(*self),
            r.operator@ == op_operator(*self),
    {
        let (l, o) = match self {
            Operation::Input(_) => ("core", "input"),
            Operation::Output(_) => ("core", "output"),
            Operation::Arithmetic(_) => ("math", "arithmetic"),
            Operation::Comment(_) => ("core", "comment"),
        };
        OpPath { library: l.to_owned(), operator: o.to_owned() }
    }

    /// Whether repeated execution has side effects; none of these has.
    pub fn is_stateful(&self) -> (r: bool)
        ensures
            !r,
    {
        false
    }

    /// First declaration of the signature into an empty registry.
    pub fn setup(&mut self, reg: &mut SignatureRegistery)
        requires
            old(reg).inputs@.len() == 0,
            old(reg).outputs@.len() == 0,
            old(reg).config@.len() == 0,
        ensures
            *final(self) == *old(self),
            final(reg).unique_names(),
            setup_shape(*old(self), *final(reg)),
    {
        match self {
            Operation::Input(_) => {
                reg.push_output_raw(SlotDef::new("value".to_owned(), ValueType::F32));
                let mut labels: Vec<String> = Vec::new();
                labels.push("Float".to_owned());
                labels.push("Int".to_owned());
                labels.push("Texture".to_owned());
                let mut d = SlotDef::new("type".to_owned(), ValueType::I32);
                d.set_extended(int_enum(labels));
                d.set_on_node_body(true);
                reg.push_config_raw(d);
            },
            Operation::Output(_) => {
                reg.push_input_raw(SlotDef::new("value".to_owned(), ValueType::Any));
            },
            Operation::Arithmetic(_) => {
                push_operands(reg, ArithOp::Add);
                reg.push_output_raw(SlotDef::new("result".to_owned(), ValueType::F32));
                let mut labels: Vec<String> = Vec::new();
                labels.push("Add".to_owned());
                labels.push("Subtract".to_owned());
                labels.push("Multiply".to_owned());
                labels.push("Power".to_owned());
                labels.push("Log".to_owned());
                labels.push("Divide".to_owned());
                labels.push("Min".to_owned());
                labels.push("Max".to_owned());
                labels.push("Abs".to_owned());
                let mut d = SlotDef::new("operation".to_owned(), ValueType::I32);
                d.set_extended(int_enum(labels));
                reg.push_config_raw(d);
            },
            Operation::Comment(_) => {},
        }
        proof {
            reveal_strlit("a");
            reveal_strlit("b");
        }
    }

    /// Re-derive the signature from the config values.
    pub fn configure(&mut self, config: &Vec<Value>, reg: &mut SignatureRegistery) -> (r: Result<
        (),
        Error,
    >)
        requires
            old(reg).unique_names(),
        ensures
            final(reg).unique_names(),
            final(reg).config@ == old(reg).config@,
            r is Err ==> *final(self) == *old(self) && *final(reg) == *old(reg),
            configure_shape(*old(self), config@, r is Ok, *final(self), *old(reg), *final(reg)),
    {
        match self {
            Operation::Input(inp) => {
                let k = match config_int(config) {
                    Ok(k) => k,
                    Err(e) => return Err(e),
                };
                let t = InputType::from_config(k);
                let old_type = inp.value_type;
                inp.value_type = t;
                reg.clear_outputs();
                reg.push_output_raw(input_output_slot(t));
                if t != old_type {
                    inp.value = match t {
                        InputType::Float => Value::F32(0),
                        InputType::Int => Value::I32(0),
                        InputType::Texture => Value::Texture(speck_handle()),
                    };
                }
                proof {
                    assert(inp.value_type == t);
                    assert(reg.outputs@.len() == 1);
                    assert(reg.outputs@[0].value_type == input_value_type(t));
                    assert(config@[0]->I32_0 == k);
                }
                Ok(())
            },
            Operation::Arithmetic(ar) => {
                let k = match config_int(config) {
                    Ok(k) => k,
                    Err(e) => return Err(e),
                };
                let op = ArithOp::from_config(k);
                ar.operation = op;
                reg.clear_inputs();
                push_operands(reg, op);
                proof {
                    reveal_strlit("a");
                    reveal_strlit("b");
                    reveal_strlit("minuend");
                    reveal_strlit("subtrahend");
                    reveal_strlit("base");
                    reveal_strlit("exponent");
                    reveal_strlit("dividend");
                    reveal_strlit("divisor");
                }
                Ok(())
            },
            _ => Ok(()),
        }
    }
}

/// The operand an arithmetic node reads from input slot `i`: the float held
/// there, or zero for a missing or non-float second operand.
pub open spec fn operand(inputs: Seq<Value>, i: int) -> u32 {
    if 0 <= i < inputs.len() && inputs[i] is F32 {
        inputs[i]->F32_0
    } else {
        0
    }
}

/// Whether `op` can run on these inputs and outputs: an input node needs an
/// output of its value's type, an arithmetic node a float first operand and a
/// float output.
pub open spec fn can_execute(op: Operation, inputs: Seq<Value>, outputs: Seq<Value>) -> bool {
    match op {
        Operation::Input(i) => outputs.len() > 0 && type_of(outputs[0]) == type_of(i.value),
        Operation::Arithmetic(_) => inputs.len() > 0 && inputs[0] is F32 && outputs.len() > 0
            && outputs[0] is F32,
        _ => true,
    }
}

/// What a successful compute step leaves in the outputs.
pub open spec fn executed<F: Fn(ArithOp, u32, u32) -> u32>(
    op: Operation,
    inputs: Seq<Value>,
    before: Seq<Value>,
    after: Seq<Value>,
    eval: F,
) -> bool {
    match op {
        Operation::Input(i) => after == before.update(0, i.value),
        Operation::Arithmetic(ar) => {
            &&& after.len() == before.len()
            &&& forall|k: int| 1 <= k < before.len() ==> after[k] == before[k]
            &&& after[0] matches Value::F32(x) && call_ensures(
                eval,
                (ar.operation, operand(inputs, 0), operand(inputs, 1)),
                x,
            )
        },
        _ => after == before,
    }
}

impl Operation {
    /// One compute step. An input node writes its value to output 0; an
    /// arithmetic node writes `eval(op, a, b)` to output 0; the others do
    /// nothing. On failure the outputs are left as they were.
    pub fn execute<F: Fn(ArithOp, u32, u32) -> u32>(
        &self,
        inputs: &Vec<Value>,
        outputs: &mut Vec<Value>,
        eval: &F,
    ) -> (r: Result<(), Error>)
        requires
            forall|o: ArithOp, a: u32, b: u32| eval.requires((o, a, b)),
        ensures
            r is Ok <==> can_execute(*self, inputs@, old(outputs)@),
            r is Err ==> final(outputs)@ == old(outputs)@,
            r is Ok ==> executed(*self, inputs@, old(outputs)@, final(outputs)@, *eval),
    {
        match self {
            Operation::Input(i) => {
                if outputs.len() == 0 {
                    return Err(Error::Value(ValueError::Index(0)));
                }
                let want = i.value.discriminant();
                let have = outputs[0].discriminant();
                if want != have {
                    return Err(Error::Value(ValueError::TypeMismatch { wanted: have, found: want }));
                }
                outputs.set(0, i.value.duplicate());
                Ok(())
            },
            Operation::Arithmetic(ar) => {
                if inputs.len() == 0 {
                    return Err(Error::Value(ValueError::Index(0)));
                }
                let a = match &inputs[0] {
                    Value::F32(a) => *a,
                    v => {
                        return Err(
                            Error::Value(ValueError::TypeMismatch { wanted: ValueType::F32, found: v.discriminant() }),
                        );
                    },
                };
                let b = if inputs.len() > 1 {
                    match &inputs[1] {
                        Value::F32(b) => *b,
                        _ => 0,
                    }
                } else {
                    0
                };
                if outputs.len() == 0 {
                    return Err(Error::Value(ValueError::Index(0)));
                }
                if !matches!(outputs[0], Value::F32(_)) {
                    return Err(
                        Error::Value(ValueError::TypeMismatch { wanted: ValueType::F32, found: outputs[0].discriminant() }),
                    );
                }
                let x = eval(ar.operation, a, b);
                outputs.set(0, Value::F32(x));
                Ok(())
            },
            _ => Ok(()),
        }
    }
}

/// The library an operation is registered under.
pub open spec fn op_library(op: Operation) -> Seq<char> {
    match op {
        Operation::Arithmetic(_) => "math"@,
        _ => "core"@,
    }
}

/// The operator name of an operation.
pub open spec fn op_operator(op: Operation) -> Seq<char> {
    match op {
        Operation::Input(_) => "input"@,
        Operation::Output(_) => "output"@,
        Operation::Arithmetic(_) => "arithmetic"@,
        Operation::Comment(_) => "comment"@,
    }
}

/// The signature that `setup` declares.
pub open spec fn setup_shape(op: Operation, reg: SignatureRegistery) -> bool {
    match op {
        Operation::Input(_) => {
            &&& reg.inputs@.len() == 0
            &&& reg.outputs@.len() == 1
            &&& reg.outputs@[0].value_type == ValueType::F32
            &&& reg.config@.len() == 1
            &&& reg.config@[0].value_type == ValueType::I32
            &&& reg.config@[0].default_override is None
        },
        Operation::Output(_) => {
            &&& reg.inputs@.len() == 1
            &&& reg.inputs@[0].value_type == ValueType::Any
            &&& reg.outputs@.len() == 0
            &&& reg.config@.len() == 0
        },
        Operation::Arithmetic(_) => {
            &&& reg.inputs@.len() == 2
            &&& reg.inputs@[0].value_type == ValueType::F32
            &&& reg.inputs@[1].value_type == ValueType::F32
            &&& reg.outputs@.len() == 1
            &&& reg.outputs@[0].value_type == ValueType::F32
            &&& reg.config@.len() == 1
            &&& reg.config@[0].value_type == ValueType::I32
            &&& reg.config@[0].default_override is None
        },
        Operation::Comment(_) => {
            &&& reg.inputs@.len() == 0
            &&& reg.outputs@.len() == 0
            &&& reg.config@.len() == 0
        },
    }
}

/// What `configure` does: an input node takes its kind from config slot 0
/// and re-declares its output (resetting its value when the kind changes);
/// an arithmetic node takes its operation from config slot 0 and re-declares
/// its operands; the others keep their signature. Config slot 0 must hold an
/// integer for the first two.
pub open spec fn configure_shape(
    op: Operation,
    config: Seq<Value>,
    ok: bool,
    op2: Operation,
    reg: SignatureRegistery,
    reg2: SignatureRegistery,
) -> bool {
    match op {
        Operation::Input(i) => {
            &&& ok <==> (config.len() > 0 && config[0] is I32)
            &&& ok ==> {
                let t = input_type_of(config[0]->I32_0);
                &&& op2 matches Operation::Input(i2)
                &&& i2.value_type == t
                &&& i2.stored() == (if t == i.value_type { i.stored() } else { input_initial(t) })
                &&& reg2.inputs@ == reg.inputs@
                &&& reg2.outputs@.len() == 1
                &&& reg2.outputs@[0].value_type == input_value_type(t)
                &&& t != InputType::Texture ==> reg2.outputs@[0].default_override is None
                &&& t == InputType::Texture ==> reg2.outputs@[0].default_override == Some(
                    Value::Texture(speck()),
                )
            }
        },
        Operation::Arithmetic(_) => {
            &&& ok <==> (config.len() > 0 && config[0] is I32)
            &&& ok ==> {
                let o = arith_op_of(config[0]->I32_0);
                &&& op2 == Operation::Arithmetic(Arithmetic { operation: o })
                &&& reg2.outputs@ == reg.outputs@
                &&& reg2.inputs@.len() == arity(o)
                &&& forall|i: int| 0 <= i < arity(o) ==> #[trigger] reg2.inputs@[i].name@
                    == operand_names(o)[i] && reg2.inputs@[i].value_type == ValueType::F32
            }
        },
        _ => ok && op2 == op && reg2 == reg,
    }
}

} // verus!

use vstd::prelude::*;
use crate::numeric::{float_bits_from_int, float_of_int, int_from_float_bits, int_of_float};

verus! {

/// Stable identifier of a texture held by the resource pool.
#[derive(Debug, Clone, Copy, PartialEq, Eq, Hash, Default, Structural)]
pub struct TextureId(pub u64);

/// Pixel layout of a texture.
#[derive(Debug, Clone, Copy, PartialEq, Eq, Hash, Default, Structural)]
pub enum TextureFormat {
    #[default]
    RGBAu8,
    RGBAu16,
    RGBAF32,
    BGRA8,
}

/// A value-level reference to a texture: the pool id (if allocated), its size
/// and its format.
#[derive(Debug, Clone, Copy, PartialEq, Eq, Structural)]
pub struct TextureHandle {
    pub id: Option<TextureId>,
    pub width: u32,
    pub height: u32,
    pub fmt: TextureFormat,
}

impl TextureHandle {
    /// An unallocated 1x1 handle: what a texture slot holds by default.
    pub fn unallocated() -> (r: TextureHandle)
        ensures
            r.id is None,
            r.width == 1,
            r.height == 1,
            r.fmt == TextureFormat::RGBAu8,
    {
        TextureHandle { id: None, width: 1, height: 1, fmt: TextureFormat::RGBAu8 }
    }
}

/// The type of a slot.
#[derive(Debug, Clone, Copy, PartialEq, Eq, Hash, Structural)]
pub enum ValueType {
    I32,
    F32,
    Texture,
    String,
    Any,
}

/// What `can_cast_to` decides: identity, `Any` on either side, and the two
/// numeric conversions.
pub open spec fn castable(from: ValueType, to: ValueType) -> bool {
    from == to || from == ValueType::Any || to == ValueType::Any
        || (from == ValueType::I32 && to == ValueType::F32)
        || (from == ValueType::F32 && to == ValueType::I32)
}

impl ValueType {
    /// Whether this type matches another, with `Any` as a wildcard.
    pub fn matches(&self, other: &ValueType) -> (r: bool)
        ensures
            r == (*self == ValueType::Any || *other == ValueType::Any || *self == *other),
    {
        match (self, other) {
            (ValueType::Any, _) | (_, ValueType::Any) => true,
            _ => *self == *other,
        }
    }

    /// Whether a value of this type can be cast to `target`.
    pub fn can_cast_to(&self, target: &ValueType) -> (r: bool)
        ensures
            r == castable(*self, *target),
    {
        match (self, target) {
            (_, ValueType::Any) => true,
            (ValueType::Any, _) => true,
            (ValueType::I32, ValueType::F32) => true,
            (ValueType::F32, ValueType::I32) => true,
            _ => *self == *target,
        }
    }
}


/// A string that records whether it was changed, so that frontends need not
/// compare whole strings on every frame.
#[derive(Debug, Clone, PartialEq, Eq, Default)]
pub struct GrafiekString {
    inner: String,
    dirty: bool,
}

impl GrafiekString {
    pub closed spec fn text(&self) -> Seq<char> {
        self.inner@
    }

    pub closed spec fn dirty_spec(&self) -> bool {
        self.dirty
    }

    /// A clean string holding `s`.
    pub fn new(s: String) -> (r: GrafiekString)
        ensures
            r.text() == s@,
            !r.dirty_spec(),
    {
        GrafiekString { inner: s, dirty: false }
    }

    pub fn as_str(&self) -> (r: &str)
        ensures
            r@ == self.text(),
    {
        self.inner.as_str()
    }

    /// An exact copy, dirty bit included.
    pub fn duplicate(&self) -> (r: GrafiekString)
        ensures
            r == *self,
    {
        GrafiekString { inner: self.inner.clone(), dirty: self.dirty }
    }

    pub fn is_dirty(&self) -> (r: bool)
        ensures
            r == self.dirty_spec(),
    {
        self.dirty
    }

    pub fn clear_dirty(&mut self)
        ensures
            final(self).text() == old(self).text(),
            !final(self).dirty_spec(),
    {
        self.dirty = false;
    }

    /// Take the text out for editing. The guard must be handed back with
    /// `changed` or `unchanged`, which puts the text back.
    pub fn edit(&mut self) -> (r: StringGuard)
        ensures
            r.text@ == old(self).text(),
            final(self).dirty_spec() == old(self).dirty_spec(),
    {
        let text = self.inner.clone();
        self.inner = String::new();
        StringGuard { text }
    }
}

/// The text of a `GrafiekString` while it is being edited.
pub struct StringGuard {
    pub text: String,
}

impl StringGuard {
    /// Put the edited text back and mark the string changed.
    pub fn changed(self, target: &mut GrafiekString)
        ensures
            final(target).text() == self.text@,
            final(target).dirty_spec(),
    {
        target.inner = self.text;
        target.dirty = true;
    }

    /// Put the text back without marking a change.
    pub fn unchanged(self, target: &mut GrafiekString)
        ensures
            final(target).text() == self.text@,
            final(target).dirty_spec() == old(target).dirty_spec(),
    {
        target.inner = self.text;
    }
}

/// A slot value. `F32` holds the IEEE-754 bit pattern of a single-precision
/// float (as `f32::to_bits` gives it); `Null` stands for "no value".
#[derive(Debug, Clone)]
pub enum Value {
    I32(i32),
    F32(u32),
    Texture(TextureHandle),
    String(GrafiekString),
    Null,
}

/// A cheap snapshot of a value: the value itself for the copyable kinds, only
/// the kind for strings, whose own dirty bit tells of changes.
#[derive(Debug, Clone, Copy, PartialEq, Eq, Structural)]
pub enum ValueCheckpoint {
    I32(i32),
    F32(u32),
    Texture(TextureHandle),
    String,
    Null,
}

/// The type of a value; `Null` has type `Any`.
pub open spec fn type_of(v: Value) -> ValueType {
    match v {
        Value::I32(_) => ValueType::I32,
        Value::F32(_) => ValueType::F32,
        Value::Texture(_) => ValueType::Texture,
        Value::String(_) => ValueType::String,
        Value::Null => ValueType::Any,
    }
}

/// `v` is the value a slot of type `t` holds when nothing else is given.
pub open spec fn is_default_of(v: Value, t: ValueType) -> bool {
    match t {
        ValueType::I32 => v == Value::I32(0),
        ValueType::F32 => v == Value::F32(0),
        ValueType::Texture => v == Value::Texture(
            TextureHandle { id: None, width: 1, height: 1, fmt: TextureFormat::RGBAu8 },
        ),
        ValueType::String => v matches Value::String(s) && s.text().len() == 0 && !s.dirty_spec(),
        ValueType::Any => v is Null,
    }
}

/// The checkpoint of a value.
pub open spec fn checkpoint_of(v: Value) -> ValueCheckpoint {
    match v {
        Value::I32(x) => ValueCheckpoint::I32(x),
        Value::F32(x) => ValueCheckpoint::F32(x),
        Value::Texture(x) => ValueCheckpoint::Texture(x),
        Value::String(_) => ValueCheckpoint::String,
        Value::Null => ValueCheckpoint::Null,
    }
}

/// Whether `v` differs from the state recorded in `c`: a different kind, a
/// different copyable value, or a string marked dirty.
pub open spec fn differs_from(v: Value, c: ValueCheckpoint) -> bool {
    match (v, c) {
        (Value::I32(x), ValueCheckpoint::I32(y)) => x != y,
        (Value::F32(x), ValueCheckpoint::F32(y)) => x != y,
        (Value::Texture(x), ValueCheckpoint::Texture(y)) => x != y,
        (Value::String(s), ValueCheckpoint::String) => s.dirty_spec(),
        (Value::Null, ValueCheckpoint::Null) => false,
        _ => true,
    }
}

/// `w` is `v` with the dirty bit of a string payload cleared.
pub open spec fn settled(w: Value, v: Value) -> bool {
    match v {
        Value::String(s) => w matches Value::String(t) && t.text() == s.text() && !t.dirty_spec(),
        _ => w == v,
    }
}

impl ValueType {
    /// The default value of this type.
    pub fn default_value(&self) -> (r: Value)
        ensures
            is_default_of(r, *self),
            type_of(r) == *self,
    {
        match self {
            ValueType::I32 => Value::I32(0),
            ValueType::F32 => Value::F32(0),
            ValueType::Texture => Value::Texture(TextureHandle::unallocated()),
            ValueType::String => Value::String(GrafiekString::new(String::new())),
            ValueType::Any => Value::Null,
        }
    }
}

/// What `cast` gives: nothing for `Null` or where the types do not cast;
/// the value itself for identity and `Any`; the nearest float for an
/// integer; the float truncated toward zero (saturating, NaN to 0) for a
/// float narrowed to an integer.
pub open spec fn cast_of(v: Value, t: ValueType) -> Option<Value> {
    if v is Null || !castable(type_of(v), t) {
        None
    } else {
        match (v, t) {
            (_, ValueType::Any) => Some(v),
            (Value::I32(i), ValueType::F32) => Some(Value::F32(float_of_int(i))),
            (Value::F32(b), ValueType::I32) => Some(Value::I32(int_of_float(b))),
            _ => Some(v),
        }
    }
}

impl Value {
    /// Convert this value to `target`, where `can_cast_to` allows it.
    pub fn cast(&self, target: &ValueType) -> (r: Option<Value>)
        ensures
            r == cast_of(*self, *target),
    {
        if !self.can_cast_to(target) {
            return None;
        }
        match (self, target) {
            (_, ValueType::Any) => Some(self.duplicate()),
            (Value::I32(i), ValueType::F32) => Some(Value::F32(float_bits_from_int(*i))),
            (Value::F32(b), ValueType::I32) => Some(Value::I32(int_from_float_bits(*b))),
            _ => Some(self.duplicate()),
        }
    }

    /// The type of this value.
    pub fn discriminant(&self) -> (r: ValueType)
        ensures
            r == type_of(*self),
    {
        match self {
            Value::I32(_) => ValueType::I32,
            Value::F32(_) => ValueType::F32,
            Value::Texture(_) => ValueType::Texture,
            Value::String(_) => ValueType::String,
            Value::Null => ValueType::Any,
        }
    }

    /// Whether this value may be cast to `ty`. `Null` casts to nothing, `Any`
    /// included.
    pub fn can_cast_to(&self, ty: &ValueType) -> (r: bool)
        ensures
            r == (!(*self is Null) && castable(type_of(*self), *ty)),
    {
        if let Value::Null = self {
            return false;
        }
        self.discriminant().can_cast_to(ty)
    }

    /// Snapshot this value for a later `changed_since`.
    pub fn checkpoint(&self) -> (r: ValueCheckpoint)
        ensures
            r == checkpoint_of(*self),
    {
        match self {
            Value::I32(v) => ValueCheckpoint::I32(*v),
            Value::F32(v) => ValueCheckpoint::F32(*v),
            Value::Texture(v) => ValueCheckpoint::Texture(*v),
            Value::String(_) => ValueCheckpoint::String,
            Value::Null => ValueCheckpoint::Null,
        }
    }

    /// Whether the value changed since `checkpoint` was taken; a string's
    /// dirty bit is cleared on the way.
    pub fn changed_since(&mut self, checkpoint: &ValueCheckpoint) -> (r: bool)
        ensures
            r == differs_from(*old(self), *checkpoint),
            *checkpoint is String ==> settled(*final(self), *old(self)),
            !(*checkpoint is String) ==> *final(self) == *old(self),
    {
        match (self, checkpoint) {
            (Value::I32(v), ValueCheckpoint::I32(c)) => *v != *c,
            (Value::F32(v), ValueCheckpoint::F32(c)) => *v != *c,
            (Value::Texture(v), ValueCheckpoint::Texture(c)) => *v != *c,
            (Value::String(v), ValueCheckpoint::String) => {
                let dirty = v.is_dirty();
                v.clear_dirty();
                dirty
            },
            (Value::Null, ValueCheckpoint::Null) => false,
            _ => true,
        }
    }
}

/// The cast rules: every type casts to itself; `Any` casts to and from
/// every type; among distinct concrete types only `I32` and `F32` cast, both
/// ways; and a `Null` value casts to nothing, `Any` included.
pub proof fn lemma_cast_rules(t: ValueType, u: ValueType, v: Value)
    ensures
        castable(t, t),
        castable(t, ValueType::Any) && castable(ValueType::Any, t),
        t != u && t != ValueType::Any && u != ValueType::Any ==> (castable(t, u) <==> (
        t == ValueType::I32 && u == ValueType::F32 || t == ValueType::F32 && u == ValueType::I32)),
        v is Null ==> !(!(v is Null) && castable(type_of(v), u)),
{
}

/// Writing a value over itself is no change: the checkpoint of a value does
/// not tell it apart from the value, unless it is a string explicitly marked
/// dirty. So an edit to the current value marks nothing and reports nothing.
pub proof fn lemma_same_value_unchanged(v: Value)
    requires
        !(v matches Value::String(s) && s.dirty_spec()),
    ensures
        !differs_from(v, checkpoint_of(v)),
{
}

} // verus!

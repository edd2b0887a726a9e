use vstd::prelude::*;
use crate::value::{Value, ValueType, TextureHandle, type_of, is_default_of};

verus! {

/// Presentation hints shared by every slot.
#[derive(Debug, Clone)]
pub struct CommonMetadata {
    /// Text shown on hover.
    pub tooltip: Option<String>,
    /// Whether updating the value every frame is fine.
    pub interactive: bool,
    /// Whether the value is editable from a frontend.
    pub enabled: bool,
    /// Whether the slot is shown at all.
    pub visible: bool,
    /// Whether the slot is drawn on the node body rather than in an inspector.
    pub on_node_body: bool,
}

impl CommonMetadata {
    /// Visible, enabled, interactive, no tooltip, not on the node body.
    pub fn new() -> (r: CommonMetadata)
        ensures
            r.tooltip is None,
            r.interactive && r.enabled && r.visible && !r.on_node_body,
    {
        CommonMetadata {
            tooltip: None,
            interactive: true,
            enabled: true,
            visible: true,
            on_node_body: false,
        }
    }
}

/// A float range; bounds and step are IEEE-754 bit patterns.
#[derive(Debug, Clone)]
pub struct FloatRange {
    pub min: u32,
    pub max: u32,
    pub step: u32,
}

#[derive(Debug, Clone, Copy, PartialEq, Eq, Default)]
pub enum AngleUnit {
    #[default]
    Radians,
    Degrees,
}

/// An angle range; bounds are IEEE-754 bit patterns.
#[derive(Debug, Clone)]
pub struct Angle {
    pub min: u32,
    pub max: u32,
    pub unit: AngleUnit,
}

#[derive(Debug, Clone)]
pub struct IntRange {
    pub min: i32,
    pub max: i32,
    pub step: i32,
}

/// Named integer choices.
#[derive(Debug, Clone)]
pub struct IntEnum {
    pub options: Vec<(String, i32)>,
}

#[derive(Debug, Clone, Copy, PartialEq, Eq, Default)]
pub enum StringKind {
    #[default]
    Plain,
    Glsl,
    Rune,
    Json,
}

#[derive(Debug, Clone)]
pub struct StringMeta {
    pub kind: StringKind,
    pub multi_line: bool,
}

#[derive(Debug, Clone)]
pub struct TextureMeta {
    /// Show the image on the node body.
    pub preview: bool,
    /// Allow a file picker to assign the data.
    pub allow_file: bool,
}

/// Type-specific metadata of a slot.
#[derive(Debug, Clone)]
pub enum ExtendedMetadata {
    Unset,
    FloatRange(FloatRange),
    Angle(Angle),
    IntRange(IntRange),
    IntEnum(IntEnum),
    Texture(TextureMeta),
    String(StringMeta),
    Custom(Vec<u8>),
}

/// Metadata `m` may describe a slot of type `t`.
pub open spec fn meta_fits(m: ExtendedMetadata, t: ValueType) -> bool {
    match m {
        ExtendedMetadata::Unset => true,
        ExtendedMetadata::Custom(_) => true,
        ExtendedMetadata::FloatRange(_) => t == ValueType::F32,
        ExtendedMetadata::Angle(_) => t == ValueType::F32,
        ExtendedMetadata::IntRange(_) => t == ValueType::I32,
        ExtendedMetadata::IntEnum(_) => t == ValueType::I32,
        ExtendedMetadata::Texture(_) => t == ValueType::Texture,
        ExtendedMetadata::String(_) => t == ValueType::String,
    }
}

/// Declaration of one slot.
#[derive(Debug, Clone)]
pub struct SlotDef {
    pub value_type: ValueType,
    pub name: String,
    pub extended: ExtendedMetadata,
    pub common: CommonMetadata,
    pub default_override: Option<Value>,
}

/// A slot declaration is consistent: its metadata and default fit its type.
pub open spec fn slot_wf(d: SlotDef) -> bool {
    &&& meta_fits(d.extended, d.value_type)
    &&& d.default_override matches Some(v) ==> type_of(v) == d.value_type
}

/// `v` is what a slot declared as `d` holds before any edit.
pub open spec fn is_slot_default(v: Value, d: SlotDef) -> bool {
    match d.default_override {
        Some(o) => v == o,
        None => is_default_of(v, d.value_type),
    }
}

impl Value {
    /// An exact copy of this value.
    pub fn duplicate(&self) -> (r: Value)
        ensures
            r == *self,
    {
        match self {
            Value::I32(v) => Value::I32(*v),
            Value::F32(v) => Value::F32(*v),
            Value::Texture(h) => Value::Texture(*h),
            Value::String(s) => Value::String(s.duplicate()),
            Value::Null => Value::Null,
        }
    }
}

impl SlotDef {
    /// A slot named `name` of type `value_type`, with no metadata, default
    /// presentation hints and the type's default value.
    pub fn new(name: String, value_type: ValueType) -> (r: SlotDef)
        ensures
            r.name@ == name@,
            r.value_type == value_type,
            r.extended is Unset,
            r.default_override is None,
            r.common.visible && r.common.interactive && r.common.enabled,
            !r.common.on_node_body,
            slot_wf(r),
    {
        SlotDef {
            value_type,
            name,
            extended: ExtendedMetadata::Unset,
            common: CommonMetadata::new(),
            default_override: None,
        }
    }

    pub fn name(&self) -> (r: &str)
        ensures
            r@ == self.name@,
    {
        self.name.as_str()
    }

    pub fn value_type(&self) -> (r: ValueType)
        ensures
            r == self.value_type,
    {
        self.value_type
    }

    pub fn extended(&self) -> (r: &ExtendedMetadata)
        ensures
            *r == self.extended,
    {
        &self.extended
    }

    pub fn is_visible(&self) -> (r: bool)
        ensures
            r == self.common.visible,
    {
        self.common.visible
    }

    pub fn on_node_body(&self) -> (r: bool)
        ensures
            r == self.common.on_node_body,
    {
        self.common.on_node_body
    }

    /// The override if one is set, else the type's default.
    pub fn default_value(&self) -> (r: Value)
        ensures
            is_slot_default(r, *self),
            slot_wf(*self) ==> type_of(r) == self.value_type,
    {
        match &self.default_override {
            Some(v) => v.duplicate(),
            None => self.value_type.default_value(),
        }
    }

    pub fn set_default(&mut self, v: Value)
        requires
            type_of(v) == old(self).value_type,
        ensures
            *final(self) == (SlotDef { default_override: Some(v), ..*old(self) }),
    {
        self.default_override = Some(v);
    }

    /// Attach metadata; it must describe this slot's type.
    pub fn set_extended(&mut self, meta: ExtendedMetadata)
        requires
            meta_fits(meta, old(self).value_type),
        ensures
            *final(self) == (SlotDef { extended: meta, ..*old(self) }),
    {
        self.extended = meta;
    }

    pub fn set_visible(&mut self, visible: bool)
        ensures
            final(self).common.visible == visible,
            final(self).name == old(self).name,
            final(self).value_type == old(self).value_type,
            final(self).extended == old(self).extended,
            final(self).default_override == old(self).default_override,
    {
        self.common.visible = visible;
    }

    pub fn set_enabled(&mut self, enabled: bool)
        ensures
            final(self).common.enabled == enabled,
            final(self).name == old(self).name,
            final(self).value_type == old(self).value_type,
            final(self).extended == old(self).extended,
            final(self).default_override == old(self).default_override,
    {
        self.common.enabled = enabled;
    }

    pub fn set_on_node_body(&mut self, on_node_body: bool)
        ensures
            final(self).common.on_node_body == on_node_body,
            final(self).name == old(self).name,
            final(self).value_type == old(self).value_type,
            final(self).extended == old(self).extended,
            final(self).default_override == old(self).default_override,
    {
        self.common.on_node_body = on_node_body;
    }

    pub fn set_interactive(&mut self, interactive: bool)
        ensures
            final(self).common.interactive == interactive,
            final(self).name == old(self).name,
            final(self).value_type == old(self).value_type,
            final(self).extended == old(self).extended,
            final(self).default_override == old(self).default_override,
    {
        self.common.interactive = interactive;
    }

    pub fn set_tooltip(&mut self, tooltip: String)
        ensures
            final(self).common.tooltip == Some(tooltip),
            final(self).name == old(self).name,
            final(self).value_type == old(self).value_type,
            final(self).extended == old(self).extended,
            final(self).default_override == old(self).default_override,
    {
        self.common.tooltip = Some(tooltip);
    }

    pub fn set_label(&mut self, label: String)
        ensures
            final(self).name == label,
            final(self).value_type == old(self).value_type,
            final(self).extended == old(self).extended,
            final(self).default_override == old(self).default_override,
    {
        self.name = label;
    }
}

/// Texture slots hold a sized handle: a default of the given dimensions,
/// each at least 1.
pub fn texture_default(width: u32, height: u32) -> (r: Value)
    ensures
        r matches Value::Texture(h) && h.id is None && h.width == (if width == 0 { 1 } else {
            width
        }) && h.height == (if height == 0 { 1 } else { height }),
{
    let mut h = TextureHandle::unallocated();
    h.width = if width == 0 { 1 } else { width };
    h.height = if height == 0 { 1 } else { height };
    Value::Texture(h)
}

} // verus!

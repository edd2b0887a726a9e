use vstd::prelude::*;
use crate::error::Error;
use crate::slot::SlotDef;
use crate::value::ValueType;

verus! {

/// No two slots of `s` share a name.
pub open spec fn names_unique(s: Seq<SlotDef>) -> bool {
    forall|i: int, j: int| 0 <= i < j < s.len() ==> s[i].name@ != s[j].name@
}

/// Some two slots of `s` are named `n`.
pub open spec fn name_repeated(s: Seq<SlotDef>, n: Seq<char>) -> bool {
    exists|i: int, j: int| 0 <= i < j < s.len() && s[i].name@ == n && s[j].name@ == n
}

/// The first slot of `s` named `n`, if any.
pub open spec fn first_named(s: Seq<SlotDef>, n: Seq<char>, i: int) -> bool {
    &&& 0 <= i < s.len()
    &&& s[i].name@ == n
    &&& forall|j: int| 0 <= j < i ==> s[j].name@ != n
}

/// Index of the first slot whose name an earlier slot already has.
fn find_duplicate(slots: &Vec<SlotDef>) -> (r: Option<usize>)
    ensures
        r is None <==> names_unique(slots@),
        r matches Some(k) ==> k < slots@.len() && name_repeated(slots@, slots@[k as int].name@),
{
    let mut i: usize = 0;
    while i < slots.len()
        invariant
            i <= slots@.len(),
            forall|a: int, b: int| 0 <= a < b < i ==> slots@[a].name@ != slots@[b].name@,
        decreases slots@.len() - i,
    {
        let mut j: usize = 0;
        while j < i
            invariant
                i < slots@.len(),
                j <= i,
                forall|a: int| 0 <= a < j ==> slots@[a].name@ != slots@[i as int].name@,
            decreases i - j,
        {
            if slots[j].name == slots[i].name {
                return Some(i);
            }
            j = j + 1;
        }
        i = i + 1;
    }
    None
}

/// Index of the first slot of `slots` named `name`.
fn find_by_name(slots: &Vec<SlotDef>, name: &str) -> (r: Option<usize>)
    ensures
        r matches Some(i) ==> first_named(slots@, name@, i as int),
        r is None ==> forall|j: int| 0 <= j < slots@.len() ==> slots@[j].name@ != name@,
{
    let wanted = name.to_owned();
    let mut i: usize = 0;
    while i < slots.len()
        invariant
            i <= slots@.len(),
            wanted@ == name@,
            forall|j: int| 0 <= j < i ==> slots@[j].name@ != name@,
        decreases slots@.len() - i,
    {
        if slots[i].name == wanted {
            return Some(i);
        }
        i = i + 1;
    }
    None
}

/// The ordered input, output and config slots of a node.
#[derive(Debug, Clone)]
pub struct SignatureRegistery {
    pub inputs: Vec<SlotDef>,
    pub outputs: Vec<SlotDef>,
    pub config: Vec<SlotDef>,
}

impl SignatureRegistery {
    /// Names are unique within each of the three lists.
    pub open spec fn unique_names(&self) -> bool {
        names_unique(self.inputs@) && names_unique(self.outputs@) && names_unique(self.config@)
    }

    pub fn new() -> (r: SignatureRegistery)
        ensures
            r.inputs@.len() == 0,
            r.outputs@.len() == 0,
            r.config@.len() == 0,
    {
        SignatureRegistery { inputs: Vec::new(), outputs: Vec::new(), config: Vec::new() }
    }

    pub fn push_input_raw(&mut self, def: SlotDef)
        ensures
            final(self).inputs@ == old(self).inputs@.push(def),
            final(self).outputs@ == old(self).outputs@,
            final(self).config@ == old(self).config@,
    {
        self.inputs.push(def);
    }

    pub fn push_output_raw(&mut self, def: SlotDef)
        ensures
            final(self).outputs@ == old(self).outputs@.push(def),
            final(self).inputs@ == old(self).inputs@,
            final(self).config@ == old(self).config@,
    {
        self.outputs.push(def);
    }

    pub fn push_config_raw(&mut self, def: SlotDef)
        ensures
            final(self).config@ == old(self).config@.push(def),
            final(self).inputs@ == old(self).inputs@,
            final(self).outputs@ == old(self).outputs@,
    {
        self.config.push(def);
    }

    pub fn input(&self, index: usize) -> (r: Option<&SlotDef>)
        ensures
            index < self.inputs@.len() ==> r == Some(&self.inputs@[index as int]),
            index >= self.inputs@.len() ==> r is None,
    {
        if index < self.inputs.len() {
            Some(&self.inputs[index])
        } else {
            None
        }
    }

    pub fn output(&self, index: usize) -> (r: Option<&SlotDef>)
        ensures
            index < self.outputs@.len() ==> r == Some(&self.outputs@[index as int]),
            index >= self.outputs@.len() ==> r is None,
    {
        if index < self.outputs.len() {
            Some(&self.outputs[index])
        } else {
            None
        }
    }

    pub fn config(&self, index: usize) -> (r: Option<&SlotDef>)
        ensures
            index < self.config@.len() ==> r == Some(&self.config@[index as int]),
            index >= self.config@.len() ==> r is None,
    {
        if index < self.config.len() {
            Some(&self.config[index])
        } else {
            None
        }
    }

    pub fn input_count(&self) -> (r: usize)
        ensures
            r == self.inputs@.len(),
    {
        self.inputs.len()
    }

    pub fn output_count(&self) -> (r: usize)
        ensures
            r == self.outputs@.len(),
    {
        self.outputs.len()
    }

    pub fn config_count(&self) -> (r: usize)
        ensures
            r == self.config@.len(),
    {
        self.config.len()
    }

    pub fn clear_inputs(&mut self)
        ensures
            final(self).inputs@.len() == 0,
            final(self).outputs@ == old(self).outputs@,
            final(self).config@ == old(self).config@,
    {
        self.inputs.clear();
    }

    pub fn clear_outputs(&mut self)
        ensures
            final(self).outputs@.len() == 0,
            final(self).inputs@ == old(self).inputs@,
            final(self).config@ == old(self).config@,
    {
        self.outputs.clear();
    }

    pub fn clear_config(&mut self)
        ensures
            final(self).config@.len() == 0,
            final(self).inputs@ == old(self).inputs@,
            final(self).outputs@ == old(self).outputs@,
    {
        self.config.clear();
    }

    pub fn clear(&mut self)
        ensures
            final(self).inputs@.len() == 0,
            final(self).outputs@.len() == 0,
            final(self).config@.len() == 0,
    {
        self.inputs.clear();
        self.outputs.clear();
        self.config.clear();
    }

    /// Index of the first input named `name`, if it has type `ty`.
    pub fn input_by_name(&self, name: &str, ty: ValueType) -> (r: Option<usize>)
        ensures
            r matches Some(i) ==> first_named(self.inputs@, name@, i as int)
                && self.inputs@[i as int].value_type == ty,
            r is None ==> forall|i: int| #[trigger] first_named(self.inputs@, name@, i)
                ==> self.inputs@[i].value_type != ty,
    {
        match find_by_name(&self.inputs, name) {
            Some(i) => if self.inputs[i].value_type == ty {
                Some(i)
            } else {
                None
            },
            None => None,
        }
    }

    /// Index of the first output named `name`, if it has type `ty`.
    pub fn output_by_name(&self, name: &str, ty: ValueType) -> (r: Option<usize>)
        ensures
            r matches Some(i) ==> first_named(self.outputs@, name@, i as int)
                && self.outputs@[i as int].value_type == ty,
            r is None ==> forall|i: int| #[trigger] first_named(self.outputs@, name@, i)
                ==> self.outputs@[i].value_type != ty,
    {
        match find_by_name(&self.outputs, name) {
            Some(i) => if self.outputs[i].value_type == ty {
                Some(i)
            } else {
                None
            },
            None => None,
        }
    }

    /// Index of the first config slot named `name`, if it has type `ty`.
    pub fn config_by_name(&self, name: &str, ty: ValueType) -> (r: Option<usize>)
        ensures
            r matches Some(i) ==> first_named(self.config@, name@, i as int)
                && self.config@[i as int].value_type == ty,
            r is None ==> forall|i: int| #[trigger] first_named(self.config@, name@, i)
                ==> self.config@[i].value_type != ty,
    {
        match find_by_name(&self.config, name) {
            Some(i) => if self.config[i].value_type == ty {
                Some(i)
            } else {
                None
            },
            None => None,
        }
    }

    /// Fails, naming the slot and its list, when two slots of one list share
    /// a name; inputs are checked first, then outputs, then config.
    pub fn validate_unique_names(&self) -> (r: Result<(), Error>)
        ensures
            r is Ok <==> self.unique_names(),
            r matches Err(e) ==> e matches Error::DuplicateSlotName(n, l) && (
            if !names_unique(self.inputs@) {
                l@ == "inputs"@ && name_repeated(self.inputs@, n@)
            } else if !names_unique(self.outputs@) {
                l@ == "outputs"@ && name_repeated(self.outputs@, n@)
            } else {
                l@ == "config"@ && name_repeated(self.config@, n@)
            }),
    {
        if let Some(k) = find_duplicate(&self.inputs) {
            return Err(Error::DuplicateSlotName(self.inputs[k].name.clone(), "inputs".to_owned()));
        }
        if let Some(k) = find_duplicate(&self.outputs) {
            return Err(
                Error::DuplicateSlotName(self.outputs[k].name.clone(), "outputs".to_owned()),
            );
        }
        if let Some(k) = find_duplicate(&self.config) {
            return Err(Error::DuplicateSlotName(self.config[k].name.clone(), "config".to_owned()));
        }
        Ok(())
    }
}

} // verus!

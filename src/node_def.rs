//! The TensorFlow `NodeDef` record: one node of a TensorFlow graph as
//! decoded from its protobuf form.
use vstd::prelude::*;
use std::collections::HashMap;
use crate::datum::DatumType;

verus! {

/// The value of a node attribute.
#[derive(Debug, Clone)]
pub enum AttrValue {
    /// A byte string.
    S(Vec<u8>),
    I(i64),
    B(bool),
    /// An element type.
    Type(DatumType),
    /// A list of integers.
    Ints(Vec<i64>),
}

/// A node of a TensorFlow graph: its name, the name of its operation, the
/// names of its inputs, the device it is placed on, and its attributes.
#[derive(Debug)]
pub struct NodeDef {
    pub name: String,
    pub op: String,
    pub input: Vec<String>,
    pub device: String,
    pub attr: HashMap<String, AttrValue>,
}

impl Default for NodeDef {
    fn default() -> (r: NodeDef)
        ensures
            r.name@ == Seq::<char>::empty(),
            r.op@ == Seq::<char>::empty(),
            r.input@.len() == 0,
            r.device@ == Seq::<char>::empty(),
            r.attr@ == Map::<String, AttrValue>::empty(),
    {
        NodeDef {
            name: String::new(),
            op: String::new(),
            input: Vec::new(),
            device: String::new(),
            attr: HashMap::new(),
        }
    }
}

impl NodeDef {
    /// The record with every field empty.
    pub fn new() -> (r: NodeDef)
        ensures
            r.name@ == Seq::<char>::empty(),
            r.op@ == Seq::<char>::empty(),
            r.input@.len() == 0,
            r.device@ == Seq::<char>::empty(),
            r.attr@ == Map::<String, AttrValue>::empty(),
    {
        NodeDef::default()
    }

    /// Empties every field.
    pub fn clear(&mut self)
        ensures
            final(self).name@ == Seq::<char>::empty(),
            final(self).op@ == Seq::<char>::empty(),
            final(self).input@.len() == 0,
            final(self).device@ == Seq::<char>::empty(),
            final(self).attr@ == Map::<String, AttrValue>::empty(),
    {
        self.clear_name();
        self.clear_op();
        self.clear_input();
        self.clear_device();
        self.clear_attr();
    }

    /// Empties the `name` field.
    pub fn clear_name(&mut self)
        ensures
            final(self).name@ == Seq::<char>::empty(),
            final(self).op == old(self).op,
            final(self).input == old(self).input,
            final(self).device == old(self).device,
            final(self).attr == old(self).attr,
    {
        self.name = String::new();
    }

    /// Replaces the `name` field.
    pub fn set_name(&mut self, v: String)
        ensures
            final(self).name == v,
            final(self).op == old(self).op,
            final(self).input == old(self).input,
            final(self).device == old(self).device,
            final(self).attr == old(self).attr,
    {
        self.name = v;
    }

    /// The `name` field, for modification.
    pub fn mut_name(&mut self) -> (r: &mut String)
        ensures
            *r == old(self).name,
    {
        &mut self.name
    }

    /// Moves the `name` field out, leaving it empty.
    pub fn take_name(&mut self) -> (r: String)
        ensures
            r == old(self).name,
            final(self).name@ == Seq::<char>::empty(),
            final(self).op == old(self).op,
            final(self).input == old(self).input,
            final(self).device == old(self).device,
            final(self).attr == old(self).attr,
    {
        let mut r: String = String::new();
        std::mem::swap(&mut r, &mut self.name);
        r
    }

    /// The `name` field.
    pub fn get_name(&self) -> (r: &str)
        ensures
            r@ == self.name@,
    {
        self.name.as_str()
    }

    fn get_name_for_reflect(&self) -> (r: &String)
        ensures
            *r == self.name,
    {
        &self.name
    }

    fn mut_name_for_reflect(&mut self) -> (r: &mut String)
        ensures
            *r == old(self).name,
    {
        &mut self.name
    }

    /// Empties the `op` field.
    pub fn clear_op(&mut self)
        ensures
            final(self).op@ == Seq::<char>::empty(),
            final(self).name == old(self).name,
            final(self).input == old(self).input,
            final(self).device == old(self).device,
            final(self).attr == old(self).attr,
    {
        self.op = String::new();
    }

    /// Replaces the `op` field.
    pub fn set_op(&mut self, v: String)
        ensures
            final(self).op == v,
            final(self).name == old(self).name,
            final(self).input == old(self).input,
            final(self).device == old(self).device,
            final(self).attr == old(self).attr,
    {
        self.op = v;
    }

    /// The `op` field, for modification.
    pub fn mut_op(&mut self) -> (r: &mut String)
        ensures
            *r == old(self).op,
    {
        &mut self.op
    }

    /// Moves the `op` field out, leaving it empty.
    pub fn take_op(&mut self) -> (r: String)
        ensures
            r == old(self).op,
            final(self).op@ == Seq::<char>::empty(),
            final(self).name == old(self).name,
            final(self).input == old(self).input,
            final(self).device == old(self).device,
            final(self).attr == old(self).attr,
    {
        let mut r: String = String::new();
        std::mem::swap(&mut r, &mut self.op);
        r
    }

    /// The `op` field.
    pub fn get_op(&self) -> (r: &str)
        ensures
            r@ == self.op@,
    {
        self.op.as_str()
    }

    fn get_op_for_reflect(&self) -> (r: &String)
        ensures
            *r == self.op,
    {
        &self.op
    }

    fn mut_op_for_reflect(&mut self) -> (r: &mut String)
        ensures
            *r == old(self).op,
    {
        &mut self.op
    }

    /// Empties the `input` field.
    pub fn clear_input(&mut self)
        ensures
            final(self).input@.len() == 0,
            final(self).name == old(self).name,
            final(self).op == old(self).op,
            final(self).device == old(self).device,
            final(self).attr == old(self).attr,
    {
        self.input = Vec::new();
    }

    /// Replaces the `input` field.
    pub fn set_input(&mut self, v: Vec<String>)
        ensures
            final(self).input == v,
            final(self).name == old(self).name,
            final(self).op == old(self).op,
            final(self).device == old(self).device,
            final(self).attr == old(self).attr,
    {
        self.input = v;
    }

    /// The `input` field, for modification.
    pub fn mut_input(&mut self) -> (r: &mut Vec<String>)
        ensures
            *r == old(self).input,
    {
        &mut self.input
    }

    /// Moves the `input` field out, leaving it empty.
    pub fn take_input(&mut self) -> (r: Vec<String>)
        ensures
            r == old(self).input,
            final(self).input@.len() == 0,
            final(self).name == old(self).name,
            final(self).op == old(self).op,
            final(self).device == old(self).device,
            final(self).attr == old(self).attr,
    {
        let mut r: Vec<String> = Vec::new();
        std::mem::swap(&mut r, &mut self.input);
        r
    }

    /// The `input` field.
    pub fn get_input(&self) -> (r: &[String])
        ensures
            r@ == self.input@,
    {
        self.input.as_slice()
    }

    fn get_input_for_reflect(&self) -> (r: &Vec<String>)
        ensures
            *r == self.input,
    {
        &self.input
    }

    fn mut_input_for_reflect(&mut self) -> (r: &mut Vec<String>)
        ensures
            *r == old(self).input,
    {
        &mut self.input
    }

    /// Empties the `device` field.
    pub fn clear_device(&mut self)
        ensures
            final(self).device@ == Seq::<char>::empty(),
            final(self).name == old(self).name,
            final(self).op == old(self).op,
            final(self).input == old(self).input,
            final(self).attr == old(self).attr,
    {
        self.device = String::new();
    }

    /// Replaces the `device` field.
    pub fn set_device(&mut self, v: String)
        ensures
            final(self).device == v,
            final(self).name == old(self).name,
            final(self).op == old(self).op,
            final(self).input == old(self).input,
            final(self).attr == old(self).attr,
    {
        self.device = v;
    }

    /// The `device` field, for modification.
    pub fn mut_device(&mut self) -> (r: &mut String)
        ensures
            *r == old(self).device,
    {
        &mut self.device
    }

    /// Moves the `device` field out, leaving it empty.
    pub fn take_device(&mut self) -> (r: String)
        ensures
            r == old(self).device,
            final(self).device@ == Seq::<char>::empty(),
            final(self).name == old(self).name,
            final(self).op == old(self).op,
            final(self).input == old(self).input,
            final(self).attr == old(self).attr,
    {
        let mut r: String = String::new();
        std::mem::swap(&mut r, &mut self.device);
        r
    }

    /// The `device` field.
    pub fn get_device(&self) -> (r: &str)
        ensures
            r@ == self.device@,
    {
        self.device.as_str()
    }

    fn get_device_for_reflect(&self) -> (r: &String)
        ensures
            *r == self.device,
    {
        &self.device
    }

    fn mut_device_for_reflect(&mut self) -> (r: &mut String)
        ensures
            *r == old(self).device,
    {
        &mut self.device
    }

    /// Empties the `attr` field.
    pub fn clear_attr(&mut self)
        ensures
            final(self).attr@ == Map::<String, AttrValue>::empty(),
            final(self).name == old(self).name,
            final(self).op == old(self).op,
            final(self).input == old(self).input,
            final(self).device == old(self).device,
    {
        self.attr.clear();
    }

    /// Replaces the `attr` field.
    pub fn set_attr(&mut self, v: HashMap<String, AttrValue>)
        ensures
            final(self).attr == v,
            final(self).name == old(self).name,
            final(self).op == old(self).op,
            final(self).input == old(self).input,
            final(self).device == old(self).device,
    {
        self.attr = v;
    }

    /// The `attr` field, for modification.
    pub fn mut_attr(&mut self) -> (r: &mut HashMap<String, AttrValue>)
        ensures
            *r == old(self).attr,
    {
        &mut self.attr
    }

    /// Moves the `attr` field out, leaving it empty.
    pub fn take_attr(&mut self) -> (r: HashMap<String, AttrValue>)
        ensures
            r == old(self).attr,
            final(self).attr@ == Map::<String, AttrValue>::empty(),
            final(self).name == old(self).name,
            final(self).op == old(self).op,
            final(self).input == old(self).input,
            final(self).device == old(self).device,
    {
        let mut r: HashMap<String, AttrValue> = HashMap::new();
        std::mem::swap(&mut r, &mut self.attr);
        r
    }

    /// The `attr` field.
    pub fn get_attr(&self) -> (r: &HashMap<String, AttrValue>)
        ensures
            *r == self.attr,
    {
        &self.attr
    }

    fn get_attr_for_reflect(&self) -> (r: &HashMap<String, AttrValue>)
        ensures
            *r == self.attr,
    {
        &self.attr
    }

    fn mut_attr_for_reflect(&mut self) -> (r: &mut HashMap<String, AttrValue>)
        ensures
            *r == old(self).attr,
    {
        &mut self.attr
    }
}

} // verus!

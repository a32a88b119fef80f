//! The parts of the glTF structural-metadata extension that the attribute
//! tables are written with.

use vstd::prelude::*;

verus! {

/// The element type of a class property.
#[derive(Debug, Clone, Copy, PartialEq, Eq, Structural)]
pub enum ClassPropertyType {
    Scalar,
    Vec2,
    Vec3,
    Vec4,
    Mat2,
    Mat3,
    Mat4,
    String,
    Boolean,
    Enum,
}

impl Default for ClassPropertyType {
    fn default() -> (r: Self)
        ensures
            r == ClassPropertyType::Scalar,
    {
        ClassPropertyType::Scalar
    }
}

/// The component type of a numeric class property.
#[derive(Debug, Clone, Copy, PartialEq, Eq, Structural)]
pub enum ClassPropertyComponentType {
    Int8,
    UInt8,
    Int16,
    UInt16,
    Int32,
    UInt32,
    Int64,
    UInt64,
    Float32,
    Float64,
}

/// One property of a class.
#[derive(Debug)]
pub struct ClassProperty {
    pub description: Option<String>,
    pub type_: ClassPropertyType,
    pub component_type: Option<ClassPropertyComponentType>,
}

/// What a [`ClassProperty`] holds.
pub struct ClassPropertyModel {
    pub description: Option<Seq<char>>,
    pub type_: ClassPropertyType,
    pub component_type: Option<ClassPropertyComponentType>,
}

impl View for ClassProperty {
    type V = ClassPropertyModel;

    open spec fn view(&self) -> ClassPropertyModel {
        ClassPropertyModel {
            description: match self.description {
                Some(d) => Some(d@),
                None => None,
            },
            type_: self.type_,
            component_type: self.component_type,
        }
    }
}

/// A class: its properties by name, each name once, in the order in which
/// the names were first set.
#[derive(Debug)]
pub struct Class {
    pub name: Option<String>,
    pub description: Option<String>,
    pub properties: Vec<(String, ClassProperty)>,
}

/// Where the values of one property of a property table are stored: the
/// buffer view of the values and, for strings, that of their offsets.
#[derive(Debug, Clone, Copy, PartialEq, Eq, Structural)]
pub struct PropertyTableProperty {
    pub values: u32,
    pub string_offsets: Option<u32>,
}

/// A property table: the values of the properties of `count` features of
/// one class. Each property stands once, in the order in which the names
/// were first set.
#[derive(Debug)]
pub struct PropertyTable {
    pub class: String,
    pub properties: Vec<(String, PropertyTableProperty)>,
    pub count: u32,
}

} // verus!

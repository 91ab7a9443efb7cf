use vstd::prelude::*;
use vstd::string::*;

verus! {

/// A number and a label.
pub struct UndocumentedStruct {
    /// The number.
    pub field1: i32,
    /// The label.
    pub field2: String,
}

/// Three shapes of variant.
pub enum UndocumentedEnum {
    Variant1,
    Variant2(i32),
    Variant3 { x: i32, y: i32 },
}

/// Something that yields a number.
pub trait UndocumentedTrait {
    /// The number.
    fn method(&self) -> i32;
}

/// Twice `x`.
pub fn undocumented_function(x: i32) -> (r: i32)
    requires
        i32::MIN <= 2 * x <= i32::MAX,
    ensures
        r == 2 * x,
{
    x * 2
}

/// The answer, as a constant function.
pub fn nested_undocumented() -> (r: i32)
    ensures
        r == 42,
{
    42
}

impl UndocumentedStruct {
    /// The number.
    pub fn public_method(&self) -> (r: i32)
        ensures
            r == self.field1,
    {
        self.field1
    }

    /// The label.
    pub fn private_method(&self) -> (r: &str)
        ensures
            r@ == self.field2@,
    {
        self.field2.as_str()
    }
}

/// A struct with one public and one private field.
pub struct StructWithPublicFields {
    /// The public part.
    pub important_field: i32,
    private_field: String,
}

impl UndocumentedTrait for UndocumentedStruct {
    fn method(&self) -> i32 {
        self.field1
    }
}

/// The value itself.
pub fn generic_undocumented<T>(value: T) -> (r: T)
    ensures
        r == value,
{
    value
}

/// A struct with a documented field.
pub struct DocumentedStruct {
    /// The field.
    pub documented_field: i32,
}

/// Twice `x`.
pub fn documented_function(x: i32) -> (r: i32)
    requires
        i32::MIN <= 2 * x <= i32::MAX,
    ensures
        r == 2 * x,
{
    x * 2
}

} // verus!

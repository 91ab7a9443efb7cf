use vstd::prelude::*;
use vstd::string::*;

verus! {

/// A user's name and age.
#[allow(non_camel_case_types)]
pub struct user_profile {
    pub name: String,
    pub age: u32,
}

/// A fixed user name.
#[allow(non_snake_case)]
pub fn getUserName() -> (r: String)
    ensures
        r@ == "John Doe"@,
{
    String::from_str("John Doe")
}

/// Whether there is any data.
#[allow(non_snake_case)]
pub fn ProcessData(data: &str) -> (r: bool)
    ensures
        r == (data@.len() > 0),
{
    !data.is_empty()
}

/// Starts the user management system; it has nothing to set up.
pub fn init() {
}

impl user_profile {
    /// The age.
    #[allow(non_snake_case)]
    pub fn getUserAge(&self) -> (r: u32)
        ensures
            r == self.age,
    {
        self.age
    }

    /// Replaces the name.
    #[allow(non_snake_case)]
    pub fn UpdateName(&mut self, name: String)
        ensures
            final(self).name@ == name@,
            final(self).age == old(self).age,
    {
        self.name = name;
    }
}

/// The value itself.
pub fn generic_function<T>(value: T) -> (r: T)
    ensures
        r == value,
{
    value
}

} // verus!

//! One attribute of a start tag under construction.

use vstd::prelude::*;
use crate::text::push_char;

verus! {

/// A `(name, value)` pair; both sides grow one character at a time.
#[derive(Debug, Clone, PartialEq, Eq)]
pub struct Attribute {
    pub name: String,
    pub value: String,
}

impl View for Attribute {
    type V = (Seq<char>, Seq<char>);

    open spec fn view(&self) -> (Seq<char>, Seq<char>) {
        (self.name@, self.value@)
    }
}

/// The pair after appending `c` to its name side (`is_name`) or value side.
pub open spec fn attr_with_char(a: (Seq<char>, Seq<char>), c: char, is_name: bool) -> (
    Seq<char>,
    Seq<char>,
) {
    if is_name {
        (a.0.push(c), a.1)
    } else {
        (a.0, a.1.push(c))
    }
}

impl Attribute {
    pub fn new() -> (r: Self)
        ensures
            r@ == (Seq::<char>::empty(), Seq::<char>::empty()),
    {
        Attribute { name: String::new(), value: String::new() }
    }

    pub fn add_char(&mut self, c: char, is_name: bool)
        ensures
            final(self)@ == attr_with_char(old(self)@, c, is_name),
    {
        if is_name {
            push_char(&mut self.name, c);
        } else {
            push_char(&mut self.value, c);
        }
    }

    pub fn name(&self) -> (r: String)
        ensures
            r@ == self.name@,
    {
        self.name.clone()
    }

    pub fn value(&self) -> (r: String)
        ensures
            r@ == self.value@,
    {
        self.value.clone()
    }
}

} // verus!

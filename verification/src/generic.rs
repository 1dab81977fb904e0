//! A generic container and a trait that turns values into text.

use crate::decimal::{int_digits, push_signed};
use vstd::prelude::*;
use vstd::string::*;

verus! {

/// A container for one value of any type.
pub struct Test<T> {
    pub data: T,
}

impl<T> Test<T> {
    /// Borrows the value that the container holds.
    pub fn get(&self) -> (data: &T)
        ensures
            *data == self.data,
    {
        &self.data
    }
}

/// The notice that is printed for a value whose type has no line of its own.
pub open spec fn default_notice() -> Seq<char> {
    "print 메소드의 기본 동작임"@
}

/// Values that can show themselves as text.
#[allow(non_camel_case_types)]
pub trait toString {
    /// The text of this value.
    spec fn text(&self) -> Seq<char>;

    /// The line that is printed for this value: the default notice, unless the
    /// type chooses another.
    open spec fn print_text(&self) -> Seq<char> {
        default_notice()
    }

    /// Writes this value out as text.
    fn string(&self) -> (s: String)
        ensures
            s@ == self.text(),
    ;

    /// The line to print for this value. A type that keeps the default notice
    /// as its `print_text` gets exactly that notice from here.
    fn print(&self) -> (line: String)
        ensures
            self.print_text() == default_notice() ==> line@ == self.print_text(),
    {
        String::from_str("print 메소드의 기본 동작임")
    }
}

/// A point of the plane.
pub struct Pos {
    pub x: i32,
    pub y: i32,
}

/// A message.
pub struct Msg {
    pub data: String,
}

impl toString for Pos {
    /// Both coordinates in decimal, between `Pos(x : `, `, y : ` and `)`.
    open spec fn text(&self) -> Seq<char> {
        "Pos(x : "@ + int_digits(self.x as int) + ", y : "@ + int_digits(self.y as int) + ")"@
    }

    fn string(&self) -> (s: String) {
        let mut s = String::from_str("Pos(x : ");
        push_signed(&mut s, self.x as i64);
        s.append(", y : ");
        push_signed(&mut s, self.y as i64);
        s.append(")");
        s
    }
}

impl toString for Msg {
    /// `Msg(data : ` and then the message as it is; no bracket closes it.
    open spec fn text(&self) -> Seq<char> {
        "Msg(data : "@ + self.data@
    }

    fn string(&self) -> (s: String) {
        let mut s = String::from_str("Msg(data : ");
        s.append(self.data.as_str());
        s
    }
}

} // verus!

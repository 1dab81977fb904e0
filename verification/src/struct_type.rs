//! Plain records: a user, a colour and a rectangle.

use vstd::prelude::*;

verus! {

/// A user account.
pub struct User {
    pub name: String,
    pub email: String,
    pub age: u64,
}

/// A colour by its red, green and blue parts.
pub struct Color(pub u8, pub u8, pub u8);

/// A rectangle by the lengths of its sides.
pub struct Rectangle {
    pub width: u32,
    pub height: u32,
}

impl Rectangle {
    /// A rectangle with the given sides.
    pub fn gen(width: u32, height: u32) -> (rectangle: Rectangle)
        ensures
            rectangle.width == width,
            rectangle.height == height,
    {
        Rectangle { width, height }
    }

    /// The area that the rectangle covers.
    pub fn area(&self) -> (area: u32)
        requires
            self.width * self.height <= u32::MAX,
        ensures
            area == self.width * self.height,
    {
        self.width * self.height
    }
}

/// A user made of the three given parts, each field named in full.
pub fn gen_user_1(name: String, age: u64, email: String) -> (user: User)
    ensures
        user.name == name,
        user.age == age,
        user.email == email,
{
    User { name: name, age: age, email: email }
}

/// A user made of the three given parts, by the short form for fields.
pub fn gen_user_2(name: String, age: u64, email: String) -> (user: User)
    ensures
        user.name == name,
        user.age == age,
        user.email == email,
{
    User { name, age, email }
}

/// The same user under another name: every other field is taken over.
pub fn rename_user(user: User, name: String) -> (renamed: User)
    ensures
        renamed.name == name,
        renamed.age == user.age,
        renamed.email == user.email,
{
    User { name: name, ..user }
}

} // verus!

//! Enumerations with and without data, and what is read out of them.

use crate::decimal::{nat_digits, push_unsigned};
use vstd::prelude::*;
use vstd::string::*;

verus! {

/// The two families of internet addresses.
pub enum IpAddrKind {
    IPv4,
    IPv6,
}

/// An internet address of either family.
pub enum IpAddr {
    IPv4(u8, u8, u8, u8),
    IPv6(String),
}

/// A message with one of four meanings, each with data of its own.
pub enum Message {
    Quit,
    Move { x: i32, y: i32 },
    Write(String),
    ChangeColor(i32, i32, i32),
}

impl IpAddrKind {
    /// The sentence that names the family.
    pub open spec fn sentence(self) -> Seq<char> {
        match self {
            IpAddrKind::IPv4 => "it is IPv4!"@,
            IpAddrKind::IPv6 => "it is IPv6!"@,
        }
    }

    /// Names the family in a sentence.
    pub fn describe(&self) -> (sentence: &'static str)
        ensures
            sentence@ == self.sentence(),
    {
        match self {
            IpAddrKind::IPv4 => "it is IPv4!",
            IpAddrKind::IPv6 => "it is IPv6!",
        }
    }
}

impl IpAddr {
    /// The address as a line of text: the four parts of an IPv4 address in
    /// decimal with dots between them, an IPv6 address as it was given.
    pub open spec fn line(self) -> Seq<char> {
        match self {
            IpAddr::IPv4(a, b, c, d) => "ip : "@ + nat_digits(a as nat) + "."@ + nat_digits(
                b as nat,
            ) + "."@ + nat_digits(c as nat) + "."@ + nat_digits(d as nat),
            IpAddr::IPv6(text) => "ip : "@ + text@,
        }
    }

    /// Writes the address out as a line of text.
    pub fn describe(&self) -> (line: String)
        ensures
            line@ == self.line(),
    {
        let mut line = String::from_str("ip : ");
        match self {
            IpAddr::IPv4(a, b, c, d) => {
                push_unsigned(&mut line, *a as u64);
                line.append(".");
                push_unsigned(&mut line, *b as u64);
                line.append(".");
                push_unsigned(&mut line, *c as u64);
                line.append(".");
                push_unsigned(&mut line, *d as u64);
            },
            IpAddr::IPv6(text) => {
                line.append(text.as_str());
            },
        }
        line
    }
}

impl Message {
    /// The text of a `Write` message; nothing for the other three kinds.
    pub fn written(&self) -> (text: Option<&String>)
        ensures
            match *self {
                Message::Write(written) => text == Some(&written),
                _ => text is None,
            },
    {
        match self {
            Message::Write(text) => Some(text),
            _ => None,
        }
    }
}

/// Adds one to a number that may be absent.
pub fn int_plus(num: Option<i32>) -> (next: Option<i32>)
    requires
        num matches Some(n) ==> n < i32::MAX,
    ensures
        match num {
            None => next is None,
            Some(n) => next == Some((n + 1) as i32),
        },
{
    match num {
        None => None,
        Some(num) => Some(num + 1),
    }
}

} // verus!

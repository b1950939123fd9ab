//! Keys under which values are kept.

use crate::text::same_text;
use vstd::prelude::*;
use vstd::string::*;

verus! {

/// What can be a key.
pub trait Key: Sized {
    /// What two equal keys have in common.
    type Id;

    /// What this key has in common with its equals.
    spec fn id(&self) -> Self::Id;

    /// Whether two keys are equal.
    fn same(&self, other: &Self) -> (b: bool)
        ensures
            b == (self.id() == other.id()),
    ;

    /// An equal key.
    fn duplicate(&self) -> (k: Self)
        ensures
            k.id() == self.id(),
    ;
}

impl Key for String {
    type Id = Seq<char>;

    open spec fn id(&self) -> Seq<char> {
        self@
    }

    fn same(&self, other: &String) -> (b: bool) {
        same_text(self.as_str(), other.as_str())
    }

    fn duplicate(&self) -> (k: String) {
        self.clone()
    }
}

impl Key for &str {
    type Id = Seq<char>;

    open spec fn id(&self) -> Seq<char> {
        self@
    }

    fn same(&self, other: &Self) -> (b: bool) {
        same_text(self, other)
    }

    fn duplicate(&self) -> (k: Self) {
        *self
    }
}

impl Key for u64 {
    type Id = u64;

    open spec fn id(&self) -> u64 {
        *self
    }

    fn same(&self, other: &u64) -> (b: bool) {
        *self == *other
    }

    fn duplicate(&self) -> (k: u64) {
        *self
    }
}

impl Key for u32 {
    type Id = u32;

    open spec fn id(&self) -> u32 {
        *self
    }

    fn same(&self, other: &u32) -> (b: bool) {
        *self == *other
    }

    fn duplicate(&self) -> (k: u32) {
        *self
    }
}

impl Key for i64 {
    type Id = i64;

    open spec fn id(&self) -> i64 {
        *self
    }

    fn same(&self, other: &i64) -> (b: bool) {
        *self == *other
    }

    fn duplicate(&self) -> (k: i64) {
        *self
    }
}

impl Key for i32 {
    type Id = i32;

    open spec fn id(&self) -> i32 {
        *self
    }

    fn same(&self, other: &i32) -> (b: bool) {
        *self == *other
    }

    fn duplicate(&self) -> (k: i32) {
        *self
    }
}

impl Key for u8 {
    type Id = u8;

    open spec fn id(&self) -> u8 {
        *self
    }

    fn same(&self, other: &u8) -> (b: bool) {
        *self == *other
    }

    fn duplicate(&self) -> (k: u8) {
        *self
    }
}

impl Key for u16 {
    type Id = u16;

    open spec fn id(&self) -> u16 {
        *self
    }

    fn same(&self, other: &u16) -> (b: bool) {
        *self == *other
    }

    fn duplicate(&self) -> (k: u16) {
        *self
    }
}

impl Key for u128 {
    type Id = u128;

    open spec fn id(&self) -> u128 {
        *self
    }

    fn same(&self, other: &u128) -> (b: bool) {
        *self == *other
    }

    fn duplicate(&self) -> (k: u128) {
        *self
    }
}

impl Key for usize {
    type Id = usize;

    open spec fn id(&self) -> usize {
        *self
    }

    fn same(&self, other: &usize) -> (b: bool) {
        *self == *other
    }

    fn duplicate(&self) -> (k: usize) {
        *self
    }
}

impl Key for i8 {
    type Id = i8;

    open spec fn id(&self) -> i8 {
        *self
    }

    fn same(&self, other: &i8) -> (b: bool) {
        *self == *other
    }

    fn duplicate(&self) -> (k: i8) {
        *self
    }
}

impl Key for i16 {
    type Id = i16;

    open spec fn id(&self) -> i16 {
        *self
    }

    fn same(&self, other: &i16) -> (b: bool) {
        *self == *other
    }

    fn duplicate(&self) -> (k: i16) {
        *self
    }
}

impl Key for i128 {
    type Id = i128;

    open spec fn id(&self) -> i128 {
        *self
    }

    fn same(&self, other: &i128) -> (b: bool) {
        *self == *other
    }

    fn duplicate(&self) -> (k: i128) {
        *self
    }
}

impl Key for isize {
    type Id = isize;

    open spec fn id(&self) -> isize {
        *self
    }

    fn same(&self, other: &isize) -> (b: bool) {
        *self == *other
    }

    fn duplicate(&self) -> (k: isize) {
        *self
    }
}

impl Key for bool {
    type Id = bool;

    open spec fn id(&self) -> bool {
        *self
    }

    fn same(&self, other: &bool) -> (b: bool) {
        *self == *other
    }

    fn duplicate(&self) -> (k: bool) {
        *self
    }
}

impl Key for char {
    type Id = char;

    open spec fn id(&self) -> char {
        *self
    }

    fn same(&self, other: &char) -> (b: bool) {
        *self == *other
    }

    fn duplicate(&self) -> (k: char) {
        *self
    }
}

impl<A: Key, B: Key> Key for (A, B) {
    type Id = (A::Id, B::Id);

    open spec fn id(&self) -> (A::Id, B::Id) {
        (self.0.id(), self.1.id())
    }

    fn same(&self, other: &(A, B)) -> (b: bool) {
        self.0.same(&other.0) && self.1.same(&other.1)
    }

    fn duplicate(&self) -> (k: (A, B)) {
        (self.0.duplicate(), self.1.duplicate())
    }
}

impl<A: Key, B: Key, C: Key> Key for (A, B, C) {
    type Id = (A::Id, B::Id, C::Id);

    open spec fn id(&self) -> (A::Id, B::Id, C::Id) {
        (self.0.id(), self.1.id(), self.2.id())
    }

    fn same(&self, other: &(A, B, C)) -> (b: bool) {
        self.0.same(&other.0) && self.1.same(&other.1) && self.2.same(&other.2)
    }

    fn duplicate(&self) -> (k: (A, B, C)) {
        (self.0.duplicate(), self.1.duplicate(), self.2.duplicate())
    }
}

/// Keys that are numbers without a sign are equal exactly when the numbers are.
pub proof fn unsigned_keys_differ(
    a: (u8, u16, u32, u64, u128, usize),
    b: (u8, u16, u32, u64, u128, usize),
)
    ensures
        a.0.id() == b.0.id() <==> a.0 == b.0,
        a.1.id() == b.1.id() <==> a.1 == b.1,
        a.2.id() == b.2.id() <==> a.2 == b.2,
        a.3.id() == b.3.id() <==> a.3 == b.3,
        a.4.id() == b.4.id() <==> a.4 == b.4,
        a.5.id() == b.5.id() <==> a.5 == b.5,
{
}

/// Keys that are numbers with a sign are equal exactly when the numbers are.
pub proof fn signed_keys_differ(
    a: (i8, i16, i32, i64, i128, isize),
    b: (i8, i16, i32, i64, i128, isize),
)
    ensures
        a.0.id() == b.0.id() <==> a.0 == b.0,
        a.1.id() == b.1.id() <==> a.1 == b.1,
        a.2.id() == b.2.id() <==> a.2 == b.2,
        a.3.id() == b.3.id() <==> a.3 == b.3,
        a.4.id() == b.4.id() <==> a.4 == b.4,
        a.5.id() == b.5.id() <==> a.5 == b.5,
{
}

/// Keys that are texts are equal exactly when they hold the same characters, whichever form
/// they have, and truth values and characters when they are the same.
pub proof fn text_keys_differ(
    a: String,
    b: String,
    s: &str,
    t: &str,
    x: bool,
    y: bool,
    c: char,
    d: char,
)
    ensures
        a.id() == b.id() <==> a@ == b@,
        s.id() == t.id() <==> s@ == t@,
        x.id() == y.id() <==> x == y,
        c.id() == d.id() <==> c == d,
{
}

/// Keys made of several are equal exactly when each of theirs is.
pub proof fn compound_keys_differ<A: Key, B: Key, C: Key>(a: (A, B, C), b: (A, B, C))
    ensures
        a.id() == b.id() <==> a.0.id() == b.0.id() && a.1.id() == b.1.id() && a.2.id() == b.2.id(),
        (a.0, a.1).id() == (b.0, b.1).id() <==> a.0.id() == b.0.id() && a.1.id() == b.1.id(),
{
}

} // verus!

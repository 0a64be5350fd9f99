//! The runtime value union: a number or a byte string, with type-coercing
//! comparison and compound assignment. Mixed number/string operations render
//! the number into a caller-supplied scratch buffer and then work on
//! strings.

use vstd::prelude::*;

use crate::errors::RuntimeErr;
use crate::errors::ValueResult;
use crate::number::Number;
use crate::number::number_str;
use crate::number::wrap64;
use crate::ystring::YString;
use crate::ystring::bytes_le;
use crate::ystring::bytes_lt;
use crate::ystring::str_sub;

verus! {

/// A runtime value: exactly one of a number or a string.
#[derive(Debug)]
pub enum Value {
    Number(Number),
    Str(YString),
}

/// Non-strict comparison over values: number against number natively,
/// anything involving a string lexicographically, with the number side
/// rendered to its decimal string.
pub open spec fn value_le(a: Value, b: Value) -> bool {
    match (a, b) {
        (Value::Number(l), Value::Number(r)) => l.raw() <= r.raw(),
        (Value::Number(l), Value::Str(r)) => bytes_le(number_str(l.raw()), r@),
        (Value::Str(l), Value::Number(r)) => bytes_le(l@, number_str(r.raw())),
        (Value::Str(l), Value::Str(r)) => bytes_le(l@, r@),
    }
}

/// Strict comparison over values, mixed cases as in [`value_le`].
pub open spec fn value_lt(a: Value, b: Value) -> bool {
    match (a, b) {
        (Value::Number(l), Value::Number(r)) => l.raw() < r.raw(),
        (Value::Number(l), Value::Str(r)) => bytes_lt(number_str(l.raw()), r@),
        (Value::Str(l), Value::Number(r)) => bytes_lt(l@, number_str(r.raw())),
        (Value::Str(l), Value::Str(r)) => bytes_lt(l@, r@),
    }
}

/// What the scratch buffer holds after a mixed operation: the rendered
/// number; after a same-type operation it is untouched.
pub open spec fn scratch_after(a: Value, b: Value, buf0: Seq<u8>) -> Seq<u8> {
    match (a, b) {
        (Value::Number(l), Value::Str(_)) => number_str(l.raw()),
        (Value::Str(_), Value::Number(r)) => number_str(r.raw()),
        _ => buf0,
    }
}

impl Value {
    /// Structural equality over the underlying number or bytes.
    pub open spec fn same(self, other: Value) -> bool {
        match (self, other) {
            (Value::Number(l), Value::Number(r)) => l.raw() == r.raw(),
            (Value::Str(l), Value::Str(r)) => l@ == r@,
            _ => false,
        }
    }

    /// Narrow to the number variant; the caller guarantees the tag.
    pub fn as_number_unchecked(&self) -> (r: &Number)
        requires
            self is Number,
        ensures
            *r == self->Number_0,
    {
        match self {
            Value::Number(n) => n,
            Value::Str(_) => unreached(),
        }
    }

    /// Narrow mutably to the number variant; the caller guarantees the tag.
    pub fn as_number_unchecked_mut(&mut self) -> (r: &mut Number)
        requires
            (*old(self)) is Number,
        ensures
            *r == (*old(self))->Number_0,
            *final(self) == Value::Number(*final(r)),
    {
        match self {
            Value::Number(n) => n,
            Value::Str(_) => unreached(),
        }
    }

    /// Narrow to the string variant; the caller guarantees the tag.
    pub fn as_ystring_unchecked(&self) -> (r: &YString)
        requires
            self is Str,
        ensures
            r@ == self->Str_0@,
    {
        match self {
            Value::Str(s) => s,
            Value::Number(_) => unreached(),
        }
    }

    /// Narrow mutably to the string variant; the caller guarantees the tag.
    pub fn as_ystring_unchecked_mut(&mut self) -> (r: &mut YString)
        requires
            (*old(self)) is Str,
        ensures
            r@ == (*old(self))->Str_0@,
            (*final(self)) is Str && (*final(self))->Str_0@ == final(r)@,
    {
        match self {
            Value::Str(s) => s,
            Value::Number(_) => unreached(),
        }
    }

    /// Non-strict comparison; a mixed pair renders its number side into the
    /// scratch buffer first.
    pub fn le(&self, other: &Self, buffer: &mut YString) -> (r: bool)
        ensures
            r == value_le(*self, *other),
            final(buffer)@ == scratch_after(*self, *other, old(buffer)@),
    {
        match (self, other) {
            (Value::Number(l), Value::Number(r)) => l.0 <= r.0,
            (Value::Number(l), Value::Str(r)) => {
                buffer.clear();
                l.stringify_with_buffer(buffer);
                proof {
                    assert(Seq::<u8>::empty() + number_str(l.raw()) =~= number_str(l.raw()));
                }
                buffer.le(r)
            },
            (Value::Str(l), Value::Number(r)) => {
                buffer.clear();
                r.stringify_with_buffer(buffer);
                proof {
                    assert(Seq::<u8>::empty() + number_str(r.raw()) =~= number_str(r.raw()));
                }
                l.le(buffer)
            },
            (Value::Str(l), Value::Str(r)) => l.le(r),
        }
    }

    /// Strict comparison; a mixed pair renders its number side into the
    /// scratch buffer first.
    pub fn lt(&self, other: &Self, buffer: &mut YString) -> (r: bool)
        ensures
            r == value_lt(*self, *other),
            final(buffer)@ == scratch_after(*self, *other, old(buffer)@),
    {
        match (self, other) {
            (Value::Number(l), Value::Number(r)) => l.0 < r.0,
            (Value::Number(l), Value::Str(r)) => {
                buffer.clear();
                l.stringify_with_buffer(buffer);
                proof {
                    assert(Seq::<u8>::empty() + number_str(l.raw()) =~= number_str(l.raw()));
                }
                buffer.lt(r)
            },
            (Value::Str(l), Value::Number(r)) => {
                buffer.clear();
                r.stringify_with_buffer(buffer);
                proof {
                    assert(Seq::<u8>::empty() + number_str(r.raw()) =~= number_str(r.raw()));
                }
                l.lt(buffer)
            },
            (Value::Str(l), Value::Str(r)) => l.lt(r),
        }
    }

    /// Compound addition: numbers add with wrapping; any string involvement
    /// concatenates, the number side rendered first. A number to which a
    /// string is added becomes a string.
    pub fn add_assign(&mut self, other: &Self, buffer: &mut YString)
        ensures
            (*old(self)) is Number && other is Number ==> (*final(self)) is Number && (*final(self))->Number_0.raw() == wrap64((*old(self))->Number_0.raw() + other->Number_0.raw()),
            (*old(self)) is Number && other is Str ==> (*final(self)) is Str && (*final(self))->Str_0@
                == number_str((*old(self))->Number_0.raw()) + other->Str_0@,
            (*old(self)) is Str && other is Number ==> (*final(self)) is Str && (*final(self))->Str_0@
                == (*old(self))->Str_0@ + number_str(other->Number_0.raw()),
            (*old(self)) is Str && other is Str ==> (*final(self)) is Str && (*final(self))->Str_0@ == (*old(self))->Str_0@ + other->Str_0@,
            final(buffer)@ == scratch_after(*old(self), *other, old(buffer)@),
    {
        match (&mut *self, other) {
            (Value::Number(l), Value::Number(r)) => {
                l.add_assign(*r);
            },
            (Value::Number(l), Value::Str(r)) => {
                buffer.clear();
                l.stringify_with_buffer(buffer);
                proof {
                    assert(Seq::<u8>::empty() + number_str(l.raw()) =~= number_str(l.raw()));
                }
                let mut ls = buffer.clone();
                ls.add_assign(r);
                *self = Value::Str(ls);
            },
            (Value::Str(l), Value::Number(r)) => {
                buffer.clear();
                r.stringify_with_buffer(buffer);
                proof {
                    assert(Seq::<u8>::empty() + number_str(r.raw()) =~= number_str(r.raw()));
                }
                l.add_assign(buffer);
            },
            (Value::Str(l), Value::Str(r)) => {
                l.add_assign(r);
            },
        }
    }

    /// Compound subtraction: numbers subtract with wrapping; any string
    /// involvement removes the last occurrence of the subtrahend string,
    /// the number side rendered first.
    pub fn sub_assign(&mut self, other: &Self, buffer: &mut YString)
        ensures
            (*old(self)) is Number && other is Number ==> (*final(self)) is Number && (*final(self))->Number_0.raw() == wrap64((*old(self))->Number_0.raw() - other->Number_0.raw()),
            (*old(self)) is Number && other is Str ==> (*final(self)) is Str && (*final(self))->Str_0@
                == str_sub(number_str((*old(self))->Number_0.raw()), other->Str_0@),
            (*old(self)) is Str && other is Number ==> (*final(self)) is Str && (*final(self))->Str_0@
                == str_sub((*old(self))->Str_0@, number_str(other->Number_0.raw())),
            (*old(self)) is Str && other is Str ==> (*final(self)) is Str && (*final(self))->Str_0@
                == str_sub((*old(self))->Str_0@, other->Str_0@),
            final(buffer)@ == scratch_after(*old(self), *other, old(buffer)@),
    {
        match (&mut *self, other) {
            (Value::Number(l), Value::Number(r)) => {
                l.sub_assign(*r);
            },
            (Value::Number(l), Value::Str(r)) => {
                buffer.clear();
                l.stringify_with_buffer(buffer);
                proof {
                    assert(Seq::<u8>::empty() + number_str(l.raw()) =~= number_str(l.raw()));
                }
                let mut ls = buffer.clone();
                ls.sub_assign(r);
                *self = Value::Str(ls);
            },
            (Value::Str(l), Value::Number(r)) => {
                buffer.clear();
                r.stringify_with_buffer(buffer);
                proof {
                    assert(Seq::<u8>::empty() + number_str(r.raw()) =~= number_str(r.raw()));
                }
                l.sub_assign(buffer);
            },
            (Value::Str(l), Value::Str(r)) => {
                l.sub_assign(r);
            },
        }
    }

    /// Increment: a number gains one whole unit (wrapping); a string gains
    /// one leading space character.
    pub fn pre_inc(&mut self)
        ensures
            (*old(self)) is Number ==> (*final(self)) is Number && (*final(self))->Number_0.raw()
                == wrap64((*old(self))->Number_0.raw() + 1000),
            (*old(self)) is Str ==> (*final(self)) is Str && (*final(self))->Str_0@ == seq![32u8] + (*old(self))->Str_0@,
    {
        match self {
            Value::Number(n) => n.pre_inc(),
            Value::Str(s) => s.pre_inc(),
        }
    }

    /// Decrement: a number loses one whole unit (wrapping); a string loses
    /// its last character, which fails on an empty string.
    pub fn pre_dec(&mut self) -> (r: ValueResult<()>)
        ensures
            (*old(self)) is Number ==> r == Ok::<(), RuntimeErr>(()) && (*final(self)) is Number
                && (*final(self))->Number_0.raw() == wrap64((*old(self))->Number_0.raw() - 1000),
            (*old(self)) is Str && (*old(self))->Str_0@.len() == 0 ==> r == Err::<(), RuntimeErr>(
                RuntimeErr::EmptyStr,
            ) && (*final(self)).same(*old(self)),
            (*old(self)) is Str && (*old(self))->Str_0@.len() > 0 ==> r == Ok::<(), RuntimeErr>(())
                && (*final(self)) is Str && (*final(self))->Str_0@ == (*old(self))->Str_0@.drop_last(),
    {
        match self {
            Value::Number(n) => {
                n.pre_dec();
                Ok(())
            },
            Value::Str(s) => s.pre_dec(),
        }
    }

    /// Only numbers carry truth: a string is always false.
    pub fn as_bool(&self) -> (r: bool)
        ensures
            r == (self is Number && self->Number_0.raw() != 0),
    {
        match self {
            Value::Number(n) => n.as_bool(),
            Value::Str(_) => false,
        }
    }

    /// Whether the value is a number.
    pub fn is_number(&self) -> (r: bool)
        ensures
            r == (self is Number),
    {
        matches!(self, Value::Number(..))
    }

    /// Whether the value is a string.
    pub fn is_str(&self) -> (r: bool)
        ensures
            r == (self is Str),
    {
        matches!(self, Value::Str(..))
    }

    /// The number held, if the value is one.
    pub fn as_number(&self) -> (r: Option<Number>)
        ensures
            self is Number ==> r == Some(self->Number_0),
            self is Str ==> r is None,
    {
        match self {
            Value::Number(n) => Some(*n),
            Value::Str(_) => None,
        }
    }

    /// Mutable access to the number held, if the value is one.
    pub fn as_number_mut(&mut self) -> (r: Option<&mut Number>)
        ensures
            (*old(self)) is Number ==> (r matches Some(n) && *n == (*old(self))->Number_0
                && *final(self) == Value::Number(*final(n))),
            (*old(self)) is Str ==> r is None && (*final(self)).same(*old(self)),
    {
        match self {
            Value::Number(n) => Some(n),
            Value::Str(_) => None,
        }
    }

    /// A borrow of the string held, if the value is one.
    pub fn as_ystring(&self) -> (r: Option<&YString>)
        ensures
            self is Str ==> (r matches Some(s) && s@ == self->Str_0@),
            self is Number ==> r is None,
    {
        match self {
            Value::Str(s) => Some(s),
            Value::Number(_) => None,
        }
    }

    /// Mutable access to the string held, if the value is one.
    pub fn as_ystring_mut(&mut self) -> (r: Option<&mut YString>)
        ensures
            (*old(self)) is Str ==> (r matches Some(s) && s@ == (*old(self))->Str_0@
                && (*final(self)) is Str && (*final(self))->Str_0@ == final(s)@),
            (*old(self)) is Number ==> r is None && (*final(self)).same(*old(self)),
    {
        match self {
            Value::Str(s) => Some(s),
            Value::Number(_) => None,
        }
    }

    /// Boolean negation: the negation of a number, and zero for a string.
    pub fn not(&self) -> (r: Number)
        ensures
            self is Number ==> r.raw() == (if self->Number_0.raw() == 0 {
                1000int
            } else {
                0int
            }),
            self is Str ==> r.raw() == 0,
    {
        match self {
            Value::Number(n) => n.not(),
            Value::Str(_) => Number(0),
        }
    }
}

impl Clone for Value {
    /// Cloning copies the number or the string's bytes.
    fn clone(&self) -> (r: Self)
        ensures
            r.same(*self),
    {
        match self {
            Value::Number(n) => Value::Number(*n),
            Value::Str(s) => Value::Str(s.clone()),
        }
    }
}

impl Value {
    /// Take another value's content; a string assigned over a string reuses
    /// this value's buffer.
    pub fn clone_from(&mut self, source: &Value)
        ensures
            (*final(self)).same(*source),
    {
        match (&mut *self, source) {
            (Value::Str(l), Value::Str(r)) => {
                l.clone_from(r);
            },
            (l, r) => {
                *l = r.clone();
            },
        }
    }
}

impl Default for Value {
    /// The default value is the number zero.
    fn default() -> (r: Self)
        ensures
            r == Value::Number(Number(0)),
    {
        Value::Number(Number(0))
    }
}

impl PartialEq for Value {
    fn eq(&self, other: &Value) -> (r: bool) {
        match (self, other) {
            (Value::Number(l), Value::Number(r)) => l.0 == r.0,
            (Value::Str(l), Value::Str(r)) => l == r,
            _ => false,
        }
    }
}

impl Eq for Value {

}

impl vstd::std_specs::cmp::PartialEqSpecImpl for Value {
    open spec fn obeys_eq_spec() -> bool {
        true
    }

    open spec fn eq_spec(&self, other: &Value) -> bool {
        self.same(*other)
    }
}

impl From<Number> for Value {
    /// A number wrapped as a value.
    fn from(n: Number) -> (r: Self) {
        Value::Number(n)
    }
}

impl vstd::std_specs::convert::FromSpecImpl<Number> for Value {
    open spec fn obeys_from_spec() -> bool {
        true
    }

    open spec fn from_spec(n: Number) -> Value {
        Value::Number(n)
    }
}

impl From<YString> for Value {
    /// A string wrapped as a value.
    fn from(s: YString) -> (r: Self) {
        Value::Str(s)
    }
}

impl vstd::std_specs::convert::FromSpecImpl<YString> for Value {
    open spec fn obeys_from_spec() -> bool {
        true
    }

    open spec fn from_spec(s: YString) -> Value {
        Value::Str(s)
    }
}

} // verus!

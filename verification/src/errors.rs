//! Typed runtime errors for value and number operations, with their exact
//! user-facing message texts.

use vstd::prelude::*;

use crate::ystring::YString;
use crate::ystring::str_bytes;

verus! {

/// Which kind of operand an operation expected.
#[derive(Clone, Copy, Debug, PartialEq, Eq, Structural)]
pub enum ExpectedTy {
    Number,
    Str,
}

/// The word used for an operand kind in error messages.
pub open spec fn expected_ty_chars(t: ExpectedTy) -> Seq<char> {
    match t {
        ExpectedTy::Number => "number"@,
        ExpectedTy::Str => "string"@,
    }
}

impl ExpectedTy {
    /// The word used for this operand kind in error messages.
    pub fn message(&self) -> (r: &'static str)
        ensures
            r@ == expected_ty_chars(*self),
            r.is_ascii(),
    {
        proof {
            reveal_strlit("number");
            reveal_strlit("string");
        }
        match self {
            ExpectedTy::Number => "number",
            ExpectedTy::Str => "string",
        }
    }
}

/// Which argument of an operation had the wrong type.
#[derive(Clone, Copy, Debug, PartialEq, Eq, Structural)]
pub enum WrongArgType {
    Left,
    Right,
    Both,
    Only,
}

/// The phrase used for an argument position in error messages.
pub open spec fn wrong_arg_chars(a: WrongArgType) -> Seq<char> {
    match a {
        WrongArgType::Left => "left arg"@,
        WrongArgType::Right => "right arg"@,
        WrongArgType::Both => "both args"@,
        WrongArgType::Only => "the arg"@,
    }
}

impl WrongArgType {
    /// The phrase used for this argument position in error messages.
    pub fn message(&self) -> (r: &'static str)
        ensures
            r@ == wrong_arg_chars(*self),
            r.is_ascii(),
    {
        proof {
            reveal_strlit("left arg");
            reveal_strlit("right arg");
            reveal_strlit("both args");
            reveal_strlit("the arg");
        }
        match self {
            WrongArgType::Left => "left arg",
            WrongArgType::Right => "right arg",
            WrongArgType::Both => "both args",
            WrongArgType::Only => "the arg",
        }
    }
}

/// A recoverable fault from evaluating a value or number operation.
#[derive(Clone, Copy, Debug, PartialEq, Eq, Structural)]
pub enum RuntimeErr {
    /// An operand had the wrong type.
    Expected(ExpectedTy, WrongArgType),
    /// A string operation needed a non-empty string.
    EmptyStr,
    /// Division by a zero-valued number.
    DivZero,
    /// Modulo by a zero-valued number.
    ModZero,
}

/// Each error's user-facing message.
pub open spec fn runtime_err_msg(e: RuntimeErr) -> Seq<u8> {
    match e {
        RuntimeErr::Expected(t, a) => str_bytes("expected a "@) + str_bytes(
            expected_ty_chars(t),
        ) + str_bytes(" in "@) + str_bytes(wrong_arg_chars(a)),
        RuntimeErr::EmptyStr => str_bytes("string was empty"@),
        RuntimeErr::DivZero => str_bytes("division by zero"@),
        RuntimeErr::ModZero => str_bytes("mod by zero"@),
    }
}

impl RuntimeErr {
    /// Append this error's message to a buffer.
    pub fn write_message(&self, buf: &mut YString)
        ensures
            final(buf)@ == old(buf)@ + runtime_err_msg(*self),
    {
        proof {
            reveal_strlit("expected a ");
            reveal_strlit(" in ");
            reveal_strlit("string was empty");
            reveal_strlit("division by zero");
            reveal_strlit("mod by zero");
        }
        match self {
            RuntimeErr::Expected(t, a) => {
                buf.push_str("expected a ");
                buf.push_str(t.message());
                buf.push_str(" in ");
                buf.push_str(a.message());
                proof {
                    assert(buf@ =~= old(buf)@ + runtime_err_msg(*self));
                }
            },
            RuntimeErr::EmptyStr => {
                buf.push_str("string was empty");
            },
            RuntimeErr::DivZero => {
                buf.push_str("division by zero");
            },
            RuntimeErr::ModZero => {
                buf.push_str("mod by zero");
            },
        }
    }

    /// This error's message as a fresh string.
    pub fn message(&self) -> (r: YString)
        ensures
            r@ == runtime_err_msg(*self),
    {
        let mut buf = YString::new();
        self.write_message(&mut buf);
        proof {
            assert(Seq::<u8>::empty() + runtime_err_msg(*self) =~= runtime_err_msg(*self));
        }
        buf
    }
}

/// The result type of fallible value and number operations.
pub type ValueResult<T> = Result<T, RuntimeErr>;

} // verus!

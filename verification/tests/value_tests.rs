use yvm::ExpectedTy;
use yvm::Number;
use yvm::RuntimeErr;
use yvm::Value;
use yvm::WrongArgType;
use yvm::YString;

fn ys(s: &str) -> YString {
    YString { data: s.as_bytes().to_vec() }
}

#[test]
fn ystring_concat_and_compare() {
    let mut a = ys("ab");
    a.add_assign(&ys("cd"));
    assert_eq!(a, ys("abcd"));
    assert!(ys("ab").lt(&ys("abc")));
    assert!(ys("ab").le(&ys("ab")));
    assert!(!ys("ab").lt(&ys("ab")));
    assert!(ys("Z").lt(&ys("a")));
    assert!(!ys("b").le(&ys("a")));
    assert!(ys("").le(&ys("")));
    assert!(ys("").lt(&ys("a")));
}

#[test]
fn ystring_subtraction_removes_last_occurrence() {
    let mut a = ys("abcabc");
    a.sub_assign(&ys("bc"));
    assert_eq!(a, ys("abca"));
    let mut b = ys("hello");
    b.sub_assign(&ys("xyz"));
    assert_eq!(b, ys("hello"));
    let mut c = ys("aaa");
    c.sub_assign(&ys("a"));
    assert_eq!(c, ys("aa"));
    let mut d = ys("abc");
    d.sub_assign(&ys(""));
    assert_eq!(d, ys("abc"));
}

#[test]
fn ystring_decrement() {
    let mut a = ys("ab");
    assert_eq!(a.pre_dec(), Ok(()));
    assert_eq!(a, ys("a"));
    assert_eq!(a.pre_dec(), Ok(()));
    assert_eq!(a.pre_dec(), Err(RuntimeErr::EmptyStr));
}

#[test]
fn value_comparison_coerces_numbers_to_strings() {
    let mut buffer = YString::new();
    let n = Value::Number(Number(1500));
    let s = Value::Str(ys("1.5"));
    assert!(n.le(&s, &mut buffer));
    assert_eq!(buffer, ys("1.5"));
    assert!(!n.lt(&s, &mut buffer));
    assert!(s.le(&n, &mut buffer));
    assert!(Value::Number(Number(1400)).lt(&s, &mut buffer));
    assert!(Value::Str(ys("1.4")).lt(&n, &mut buffer));
}

#[test]
fn value_comparison_native_cases() {
    let mut buffer = YString::new();
    assert!(Value::Number(Number(1)).le(&Value::Number(Number(2)), &mut buffer));
    assert!(Value::Number(Number(1)).lt(&Value::Number(Number(2)), &mut buffer));
    assert!(!Value::Number(Number(2)).le(&Value::Number(Number(1)), &mut buffer));
    assert!(Value::Str(ys("a")).lt(&Value::Str(ys("b")), &mut buffer));
    assert!(buffer.is_empty());
}

#[test]
fn value_add_assign_all_shapes() {
    let mut buffer = YString::new();

    let mut v = Value::Number(Number(1000));
    v.add_assign(&Value::Number(Number(500)), &mut buffer);
    assert_eq!(v, Value::Number(Number(1500)));

    let mut v = Value::Number(Number(1500));
    v.add_assign(&Value::Str(ys("x")), &mut buffer);
    assert_eq!(v, Value::Str(ys("1.5x")));

    let mut v = Value::Str(ys("n="));
    v.add_assign(&Value::Number(Number(2000)), &mut buffer);
    assert_eq!(v, Value::Str(ys("n=2")));

    let mut v = Value::Str(ys("ab"));
    v.add_assign(&Value::Str(ys("cd")), &mut buffer);
    assert_eq!(v, Value::Str(ys("abcd")));
}

#[test]
fn value_sub_assign_all_shapes() {
    let mut buffer = YString::new();

    let mut v = Value::Number(Number(1000));
    v.sub_assign(&Value::Number(Number(400)), &mut buffer);
    assert_eq!(v, Value::Number(Number(600)));

    let mut v = Value::Number(Number(1500));
    v.sub_assign(&Value::Str(ys("5")), &mut buffer);
    assert_eq!(v, Value::Str(ys("1.")));

    let mut v = Value::Str(ys("1.5x"));
    v.sub_assign(&Value::Number(Number(1500)), &mut buffer);
    assert_eq!(v, Value::Str(ys("x")));

    let mut v = Value::Str(ys("abcabc"));
    v.sub_assign(&Value::Str(ys("bc")), &mut buffer);
    assert_eq!(v, Value::Str(ys("abca")));
}

#[test]
fn value_increment_prepends_a_space_to_strings() {
    let mut v = Value::Str(ys("hi"));
    v.pre_inc();
    assert_eq!(v, Value::Str(ys(" hi")));
    let mut n = Value::Number(Number(0));
    n.pre_inc();
    assert_eq!(n, Value::Number(Number(1000)));
}

#[test]
fn value_decrement() {
    let mut v = Value::Str(ys("hi"));
    assert_eq!(v.pre_dec(), Ok(()));
    assert_eq!(v, Value::Str(ys("h")));
    let mut e = Value::Str(ys(""));
    assert_eq!(e.pre_dec(), Err(RuntimeErr::EmptyStr));
    let mut n = Value::Number(Number(1000));
    assert_eq!(n.pre_dec(), Ok(()));
    assert_eq!(n, Value::Number(Number(0)));
}

#[test]
fn value_truthiness_and_accessors() {
    assert!(Value::Number(Number(1)).as_bool());
    assert!(!Value::Number(Number(0)).as_bool());
    assert!(!Value::Str(ys("true")).as_bool());

    let v = Value::Number(Number(7));
    assert!(v.is_number());
    assert!(!v.is_str());
    assert_eq!(v.as_number(), Some(Number(7)));
    assert_eq!(*v.as_number_unchecked(), Number(7));

    let s = Value::Str(ys("a"));
    assert!(s.is_str());
    assert_eq!(s.as_number(), None);
    assert_eq!(*s.as_ystring().unwrap(), ys("a"));
    assert_eq!(*s.as_ystring_unchecked(), ys("a"));
}

#[test]
fn value_not_and_default() {
    assert_eq!(Value::Number(Number(0)).not(), Number(1000));
    assert_eq!(Value::Number(Number(5)).not(), Number(0));
    assert_eq!(Value::Str(ys("x")).not(), Number(0));
    assert_eq!(Value::default(), Value::Number(Number(0)));
    assert_eq!(YString::default(), ys(""));
    assert_eq!(Number::default(), Number(0));
}

#[test]
fn value_mutable_accessors() {
    let mut v = Value::Number(Number(3));
    if let Some(n) = v.as_number_mut() {
        *n = Number(9);
    }
    assert_eq!(v, Value::Number(Number(9)));
    assert!(v.as_ystring_mut().is_none());

    let mut s = Value::Str(ys("ab"));
    if let Some(y) = s.as_ystring_mut() {
        y.push(b'c');
    }
    assert_eq!(s, Value::Str(ys("abc")));
    assert!(s.as_number_mut().is_none());
}

#[test]
fn value_clone_and_clone_from() {
    let s = Value::Str(ys("abc"));
    let c = s.clone();
    assert_eq!(c, s);
    let mut t = Value::Str(ys("zzzzzz"));
    t.clone_from(&s);
    assert_eq!(t, s);
    let mut u = Value::Number(Number(1));
    u.clone_from(&s);
    assert_eq!(u, s);
}

#[test]
fn type_error_messages() {
    assert_eq!(ExpectedTy::Number.message(), "number");
    assert_eq!(ExpectedTy::Str.message(), "string");
    assert_eq!(WrongArgType::Left.message(), "left arg");
    assert_eq!(WrongArgType::Right.message(), "right arg");
    assert_eq!(WrongArgType::Both.message(), "both args");
    assert_eq!(WrongArgType::Only.message(), "the arg");
    assert_eq!(
        RuntimeErr::Expected(ExpectedTy::Number, WrongArgType::Left).message().data,
        b"expected a number in left arg".to_vec()
    );
    assert_eq!(
        RuntimeErr::Expected(ExpectedTy::Str, WrongArgType::Both).message().data,
        b"expected a string in both args".to_vec()
    );
}

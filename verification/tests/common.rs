use redrust::common::{clone_value, Value};
use redrust::error::{EOFError, Error};
use redrust::protocol::cmd::Verb;

#[test]
fn simple_text_of_each_kind() {
    assert_eq!(Value::String("abc".to_owned()).simple_to_str(), "abc");
    assert_eq!(Value::Int64(-5).simple_to_str(), "-5");
    assert_eq!(Value::Int32(17).simple_to_str(), "17");
    assert_eq!(
        Value::VectorString(vec!["a".to_owned(), "b".to_owned(), "c".to_owned()]).simple_to_str(),
        "a, b, c"
    );
    assert_eq!(Value::VectorString(vec![]).simple_to_str(), "");
    assert_eq!(Value::Empty.simple_to_str(), "");
    assert_eq!(Value::Vector(vec![Value::Int64(1)]).simple_to_str(), "");
}

#[test]
fn text_of_an_array_joins_its_elements() {
    let v = Value::Vector(vec![
        Value::String("SET".to_owned()),
        Value::Int64(3),
        Value::Vector(vec![Value::Int64(1)]),
        Value::Empty,
        Value::String("x".to_owned()),
    ]);
    assert_eq!(v.custom_to_string(), "SET, 3, , , x");
    assert_eq!(Value::Vector(vec![]).custom_to_string(), "");
    assert_eq!(Value::Vector(vec![Value::Int32(9)]).custom_to_string(), "9");
    assert_eq!(Value::Int64(i64::MIN).custom_to_string(), "-9223372036854775808");
}

#[test]
fn clone_copies_nested_values() {
    let v = Value::Vector(vec![
        Value::String("a".to_owned()),
        Value::Vector(vec![Value::Int64(1), Value::Int32(2), Value::Empty]),
        Value::VectorString(vec!["x".to_owned(), "y".to_owned()]),
    ]);
    assert_eq!(v.clone(), v);
    assert_eq!(clone_value(&v), v);
}

#[test]
fn every_error_has_its_message() {
    assert_eq!(Error::NoData.message(), "No data");
    assert_eq!(
        Error::CrossProtocol.message(),
        "possible cross protocol scripting attack detected"
    );
    assert_eq!(Error::Incomplete.message(), "incomplete frame");
    assert_eq!(Error::InvalidUtf8.message(), "invalid utf-8 sequence");
    assert_eq!(Error::InvalidNumber.message(), "invalid number");
    assert_eq!(Error::EndOfFile.message(), "End of file has reached!");
    assert_eq!(Error::NotAnArray.message(), "Value is not a Vec type");
    assert_eq!(Error::EmptyCommand.message(), "empty command");
    assert_eq!(
        Error::WrongArity(Verb::Ping).message(),
        "ERR wrong number of arguments for 'ping' commands"
    );
    assert_eq!(
        Error::WrongArity(Verb::Expire).message(),
        "ERR wrong number of arguments for 'expire' commands"
    );
    assert_eq!(Error::Syntax.message(), "ERR syntax error");
    assert_eq!(
        Error::NotAnInteger.message(),
        "ERR value is not an integer or out of range"
    );
    assert_eq!(Error::WrongType.message(), "the operation is not permitted on this type");
    assert_eq!(Error::WrongData.message(), "wrong data type for 'incr' command");
}

#[test]
fn end_of_file_converts_into_the_general_error() {
    assert_eq!(EOFError.message(), "End of file has reached!");
    assert_eq!(Error::from(EOFError), Error::EndOfFile);
}

#[test]
fn verbs_are_selected_by_exact_upper_case_names() {
    assert_eq!(Verb::of(&"PING".to_owned()), Verb::Ping);
    assert_eq!(Verb::of(&"SET".to_owned()), Verb::SetValue);
    assert_eq!(Verb::of(&"GET".to_owned()), Verb::GetValue);
    assert_eq!(Verb::of(&"TTL".to_owned()), Verb::Ttl);
    assert_eq!(Verb::of(&"DEL".to_owned()), Verb::Del);
    assert_eq!(Verb::of(&"EXPIRE".to_owned()), Verb::Expire);
    assert_eq!(Verb::of(&"BGREWRITEAOF".to_owned()), Verb::BgRewriteAof);
    assert_eq!(Verb::of(&"INCR".to_owned()), Verb::Incr);
    assert_eq!(Verb::of(&"get".to_owned()), Verb::Ping);
    assert_eq!(Verb::of(&"FLUSHALL".to_owned()), Verb::Ping);
    assert_eq!(Verb::Incr.label(), "incr");
    assert_eq!(Verb::BgRewriteAof.label(), "bgrewriteaof");
}

use cargo_templated_examples::errors::ExampleError;
use cargo_templated_examples::parsing::parse_string_if_quoted;

#[test]
fn test_parse_if_quoted() {
    assert_eq!(parse_string_if_quoted("\"test\"").unwrap(), "test");
    assert_eq!(parse_string_if_quoted("\"test\\\\\"").unwrap(), "test\\");
    assert_eq!(parse_string_if_quoted("\"test\\\"\"").unwrap(), "test\"");
    assert_eq!(parse_string_if_quoted("test\\\"").unwrap(), "test\\\"");
}

#[test]
fn quoted_string_errors() {
    assert_eq!(
        parse_string_if_quoted("\"test\\\""),
        Err(ExampleError::FormatError)
    );
    assert_eq!(parse_string_if_quoted("\"test"), Err(ExampleError::FormatError));
    assert_eq!(parse_string_if_quoted("\""), Err(ExampleError::FormatError));
    assert_eq!(parse_string_if_quoted("'test\""), Err(ExampleError::FormatError));
    assert_eq!(parse_string_if_quoted("'a b'").unwrap(), "a b");
    assert_eq!(parse_string_if_quoted("").unwrap(), "");
    assert_eq!(parse_string_if_quoted("\"\"").unwrap(), "");
}

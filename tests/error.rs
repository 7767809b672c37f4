use feml::data_type::DataType;
use feml::error::{Error, ErrorKind};
use feml::shape::Shape;
use std::io;

#[test]
fn test_error_new() {
    let err = Error::new(ErrorKind::Msg("test error".into()));
    assert!(matches!(err.kind, ErrorKind::Msg(_)));
    assert!(err.context.is_empty());
    assert!(err.path.is_none());
}

#[test]
fn test_error_msg() {
    let err = Error::msg("static string");
    assert!(matches!(err.kind, ErrorKind::Msg(_)));

    let err = Error::msg(&String::from("owned string"));
    assert!(matches!(err.kind, ErrorKind::Msg(_)));
}

#[test]
fn test_error_context() {
    let err = Error::msg("base error").context("first context").context("second context");

    assert_eq!(err.context.len(), 2);
    assert_eq!(err.context[0], "first context");
    assert_eq!(err.context[1], "second context");
}

#[test]
fn test_error_with_path() {
    let err = Error::msg("file error").with_path("/tmp/test.txt");
    assert_eq!(err.path.map(std::path::PathBuf::from), Some(std::path::PathBuf::from("/tmp/test.txt")));
}

#[test]
fn test_error_builder_chain() {
    let err = Error::msg("operation failed")
        .context("while processing tensor")
        .context("in forward pass")
        .with_path("/model/weights.bin");

    assert_eq!(err.context.len(), 2);
    assert_eq!(err.path.map(std::path::PathBuf::from), Some(std::path::PathBuf::from("/model/weights.bin")));
}

#[test]
fn test_display_unexpected_dtype() {
    let kind =
        ErrorKind::UnexpectedDType { msg: "type mismatch", expected: DataType::F32, got: DataType::I32 };
    let s = kind.to_string();
    assert!(s.contains("type mismatch"));
    assert!(s.contains("F32") || s.contains("I32"));
}

#[test]
fn test_display_unsupported_dtype() {
    let kind = ErrorKind::UnsupportedDataTypeForOp { dtype: DataType::F16, op: "conv2d" };
    let s = kind.to_string();
    assert!(s.contains("F16") || s.contains("conv2d"));
    assert!(s.contains("unsupported"));
}

#[test]
fn test_display_unexpected_dims() {
    let shape = Shape([1, 3, 224, 224]);
    let kind = ErrorKind::UnexpectedNumberOfDims { expected: 3, got: 4, shape };
    let s = kind.to_string();
    assert!(s.contains("unexpected rank"));
    assert!(s.contains("expected: 3"));
    assert!(s.contains("got: 4"));
}

#[test]
fn test_display_io() {
    let io_err = io::Error::new(io::ErrorKind::NotFound, "file not found");
    let kind = ErrorKind::Io(io_err);
    let s = kind.to_string();
    assert!(s.contains("file not found"));
}

#[test]
fn test_display_parse_int() {
    let parse_err = "abc".parse::<i32>().unwrap_err();
    let kind = ErrorKind::ParseInt(parse_err);
    let s = kind.to_string();
    assert!(!s.is_empty());
}

#[test]
fn test_display_msg() {
    let kind = ErrorKind::Msg("custom error message".into());
    let s = kind.to_string();
    assert_eq!(s, "custom error message");
}

#[test]
fn test_display_full_error() {
    let err = Error::msg("base error").context("context 1").context("context 2").with_path("/test/path");
    let s = err.to_string();
    assert!(s.contains("base error"));
    assert!(s.contains("context: context 1"));
    assert!(s.contains("context: context 2"));
    assert!(s.contains("path: \"/test/path\""));
}

#[test]
fn test_from_io_error() {
    let io_err = io::Error::new(io::ErrorKind::Other, "io error");
    let err: Error = io_err.into();
    assert!(matches!(err.kind, ErrorKind::Io(_)));
}

#[test]
fn test_from_parse_int_error() {
    let parse_err = "not a number".parse::<i32>().unwrap_err();
    let err: Error = parse_err.into();
    assert!(matches!(err.kind, ErrorKind::ParseInt(_)));
}

#[test]
fn test_backtrace_captured() {
    let err = Error::msg("test");
    let _ = err.backtrace;
}

#[test]
fn display_texts_are_exact() {
    let kind =
        ErrorKind::UnexpectedDType { msg: "type mismatch", expected: DataType::F32, got: DataType::I32 };
    assert_eq!(kind.to_string(), "type mismatch, expected: F32, got: I32");
    let kind = ErrorKind::UnsupportedDataTypeForOp { dtype: DataType::F16, op: "conv2d" };
    assert_eq!(kind.to_string(), "unsupported dtype F16 for op conv2d");
    let kind = ErrorKind::UnexpectedNumberOfDims { expected: 3, got: 40, shape: Shape([1, 3, 224, 0]) };
    assert_eq!(kind.to_string(), "unexpected rank, expected: 3, got: 40 (Shape([1, 3, 224, 0]))");
    let err = Error::msg("base").context("a").context("b");
    assert_eq!(err.to_string(), "base\ncontext: a\ncontext: b");
}

#[test]
fn std_messages_come_through() {
    let parse_err = "abc".parse::<i32>().unwrap_err();
    let expected = parse_err.to_string();
    assert_eq!(ErrorKind::ParseInt(parse_err).to_string(), expected);
    let err = Error::msg("x").with_path("/a b");
    assert_eq!(err.to_string(), "x\npath: \"/a b\"");
    let err = Error::msg("y").with_path("q\"t");
    assert_eq!(err.to_string(), "y\npath: \"q\\\"t\"");
}

#[test]
fn conversions_start_bare() {
    let err: Error = io::Error::new(io::ErrorKind::Other, "x").into();
    assert!(err.context.is_empty() && err.path.is_none() && err.backtrace.is_none());
}

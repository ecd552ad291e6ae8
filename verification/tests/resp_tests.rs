use redis_lite::enums::sign::Sign;
use redis_lite::errors::app_errors::AppError;
use redis_lite::resp::handler::parse_command_with_args;
use redis_lite::resp::parser::{extract_set_command_args, Parser};

#[test]
fn serialize_simple_string() {
    assert_eq!(Parser::SimpleString("PONG".to_string()).serialize(), "+PONG\r\n");
}

#[test]
fn serialize_simple_error() {
    assert_eq!(Parser::SimpleError("oops".to_string()).serialize(), "-oops\r\n");
}

#[test]
fn serialize_bulk_string_counts_bytes() {
    assert_eq!(Parser::BulkString("hello".to_string()).serialize(), "$5\r\nhello\r\n");
    // The length is the byte count, not the character count.
    assert_eq!(Parser::BulkString("é".to_string()).serialize(), "$2\r\né\r\n");
}

#[test]
fn serialize_null_bulk_string() {
    assert_eq!(Parser::NullBulkString.serialize(), "$-1\r\n");
}

#[test]
fn serialize_array() {
    let v = vec!["a".to_string(), "bb".to_string()];
    assert_eq!(Parser::Array(v).serialize(), "*2\r\n$1\r\na\r\n$2\r\nbb\r\n");
    assert_eq!(Parser::Array(Vec::new()).serialize(), "*0\r\n");
}

#[test]
fn serialize_integer() {
    assert_eq!(Parser::Integer(None, 5).serialize(), ":5\r\n");
    assert_eq!(Parser::Integer(None, 1234).serialize(), ":1234\r\n");
    assert_eq!(Parser::Integer(Some(Sign::Plus), 7).serialize(), ":+7\r\n");
    assert_eq!(Parser::Integer(Some(Sign::Minus), 7).serialize(), ":-7\r\n");
}

#[test]
fn extract_set_args_without_px() {
    let args = vec!["k".to_string(), "v".to_string()];
    let (k, v, exp) = extract_set_command_args(args).unwrap();
    assert_eq!((k.as_str(), v.as_str(), exp), ("k", "v", 0));
}

#[test]
fn extract_set_args_with_px() {
    let args = vec!["k".to_string(), "v".to_string(), "px".to_string(), "50".to_string()];
    let (_, _, exp) = extract_set_command_args(args).unwrap();
    assert_eq!(exp, 50);
}

#[test]
fn extract_set_args_rejects_bad_px_value() {
    let args = vec!["k".to_string(), "v".to_string(), "px".to_string(), "abc".to_string()];
    match extract_set_command_args(args) {
        Err(AppError::InvalidExpirationValue) => (),
        other => panic!("expected InvalidExpirationValue, got {:?}", other.map(|_| ())),
    }
}

#[test]
fn extract_set_args_rejects_arity() {
    match extract_set_command_args(vec!["k".to_string()]) {
        Err(AppError::WrongNumberOfArgumentsError) => (),
        other => panic!("expected arity error, got {:?}", other.map(|_| ())),
    }
}

#[test]
fn extract_set_args_accepts_uppercase_px_marker() {
    // The option keyword is recognized in either letter case.
    let args = vec!["k".to_string(), "v".to_string(), "PX".to_string(), "50".to_string()];
    let (_, _, exp) = extract_set_command_args(args).unwrap();
    assert_eq!(exp, 50);
    let args = vec!["k".to_string(), "v".to_string(), "Px".to_string(), "75".to_string()];
    let (_, _, exp) = extract_set_command_args(args).unwrap();
    assert_eq!(exp, 75);
}

#[test]
fn extract_set_args_rejects_bad_value_after_uppercase_px() {
    let args = vec!["k".to_string(), "v".to_string(), "PX".to_string(), "abc".to_string()];
    match extract_set_command_args(args) {
        Err(AppError::InvalidExpirationValue) => (),
        other => panic!("expected InvalidExpirationValue, got {:?}", other.map(|_| ())),
    }
}

#[test]
fn extract_set_args_ignores_other_third_argument() {
    // Only the PX keyword selects an expiry; anything else means none.
    let args = vec!["k".to_string(), "v".to_string(), "ex".to_string(), "50".to_string()];
    let (_, _, exp) = extract_set_command_args(args).unwrap();
    assert_eq!(exp, 0);
}

#[test]
fn parse_frame_ping() {
    let (cmd, args) = parse_command_with_args("*1\r\n$4\r\nPING\r\n");
    assert_eq!(cmd, "ping");
    assert!(args.is_empty());
}

#[test]
fn parse_frame_set_with_args() {
    let (cmd, args) = parse_command_with_args("*3\r\n$3\r\nSET\r\n$1\r\nk\r\n$1\r\nv\r\n");
    assert_eq!(cmd, "set");
    assert_eq!(args, vec!["k".to_string(), "v".to_string()]);
}

#[test]
fn parse_frame_lowercases_command_only() {
    let (cmd, args) = parse_command_with_args("*2\r\n$4\r\nECHO\r\n$2\r\nHi\r\n");
    assert_eq!(cmd, "echo");
    assert_eq!(args, vec!["Hi".to_string()]);
}

#[test]
fn parse_frame_not_an_array_yields_empty_command() {
    let (cmd, args) = parse_command_with_args("hello there");
    assert_eq!(cmd, "");
    assert!(args.is_empty());
}

#[test]
fn parse_frame_bad_count_yields_empty_command() {
    let (cmd, args) = parse_command_with_args("*x\r\n$4\r\nPING\r\n");
    assert_eq!(cmd, "");
    assert!(args.is_empty());
}

#[test]
fn parse_frame_scans_what_it_can_from_malformed_input() {
    // The second element has no length line starting with `$`, so only
    // the first element is kept.
    let (cmd, args) = parse_command_with_args("*2\r\n$4\r\nECHO\r\nhi");
    assert_eq!(cmd, "echo");
    assert!(args.is_empty());
}

use benchbot::config::{decode_config, encode_config};
use benchbot::message::{decode_message, encode_message};
use benchbot::types::{BenchConfig, BenchError, BenchMessage};

#[test]
fn message_encodes_canonical_json() {
    let m = BenchMessage {
        repository: String::from("https://example/repo"),
        branch: String::from("main"),
        commit: String::from("abcd123"),
    };
    let s = encode_message(&m);
    assert_eq!(
        s,
        "{\"repository\":\"https://example/repo\",\"branch\":\"main\",\"commit\":\"abcd123\"}"
    );
}

#[test]
fn message_round_trip() {
    let m = BenchMessage {
        repository: String::from("https://example/repo"),
        branch: String::from("main"),
        commit: String::from("abcd123"),
    };
    let s = encode_message(&m);
    let back = decode_message(&s).unwrap();
    assert_eq!(back, m);
}

#[test]
fn message_round_trip_with_escapes() {
    let m = BenchMessage {
        repository: String::from("we\"ird\\repo"),
        branch: String::from("line\nbreak\tand\rmore"),
        commit: String::from(""),
    };
    let s = encode_message(&m);
    let back = decode_message(&s).unwrap();
    assert_eq!(back, m);
}

#[test]
fn message_decode_rejects_garbage() {
    assert_eq!(decode_message("not json"), Err(BenchError::Decode));
    assert_eq!(decode_message(""), Err(BenchError::Decode));
    assert_eq!(
        decode_message("{\"repository\":\"a\",\"branch\":\"b\"}"),
        Err(BenchError::Decode)
    );
    assert_eq!(
        decode_message("{\"repository\":\"a\",\"branch\":\"b\",\"commit\":\"c\"} "),
        Err(BenchError::Decode)
    );
}

#[test]
fn config_round_trip() {
    let config = BenchConfig {
        mongodb_bencher_uri: String::from("mongodb://bencher@db/one"),
        mongodb_server_uri: String::from("mongodb://server@db/two"),
        rabbitmq_uri: String::from("amqp://queue:5672"),
        mongodb_db: String::from("benchmarks"),
    };
    let s = encode_config(&config);
    let back = decode_config(&s).unwrap();
    assert_eq!(back, config);
}

#[test]
fn config_encodes_canonical_json() {
    let config = BenchConfig {
        mongodb_bencher_uri: String::from("a"),
        mongodb_server_uri: String::from("b"),
        rabbitmq_uri: String::from("c"),
        mongodb_db: String::from("d"),
    };
    let s = encode_config(&config);
    assert_eq!(
        s,
        "{\"mongodb_bencher_uri\":\"a\",\"mongodb_server_uri\":\"b\",\"rabbitmq_uri\":\"c\",\"mongodb_db\":\"d\"}"
    );
}

#[test]
fn config_decode_rejects_garbage() {
    assert_eq!(decode_config("{}"), Err(BenchError::Config));
    assert_eq!(decode_config(""), Err(BenchError::Config));
}

use benchbot::csv::parse_csv;
use benchbot::types::BenchError;

#[test]
fn parse_two_columns_two_rows() {
    let (headers, columns) = parse_csv("a,b\n1,2\n3,4\n").unwrap();
    assert_eq!(headers, vec![String::from("a"), String::from("b")]);
    assert_eq!(
        columns,
        vec![
            vec![String::from("1"), String::from("3")],
            vec![String::from("2"), String::from("4")],
        ]
    );
}

#[test]
fn parse_without_trailing_newline() {
    let (headers, columns) = parse_csv("a,b\n1,2\n3,4").unwrap();
    assert_eq!(headers.len(), 2);
    assert_eq!(columns[0], vec![String::from("1"), String::from("3")]);
}

#[test]
fn parse_crlf_lines() {
    let (headers, columns) = parse_csv("a,b\r\n1.5,2.5\r\n").unwrap();
    assert_eq!(headers, vec![String::from("a"), String::from("b")]);
    assert_eq!(columns, vec![vec![String::from("1.5")], vec![String::from("2.5")]]);
}

#[test]
fn parse_header_only_gives_empty_columns() {
    let (headers, columns) = parse_csv("a,b\n").unwrap();
    assert_eq!(headers.len(), 2);
    assert_eq!(columns, vec![Vec::<String>::new(), Vec::<String>::new()]);
}

#[test]
fn parse_accepts_float_shapes() {
    let (_, columns) =
        parse_csv("a,b,c,d,e\n1e5,-2.5,.5,+3.,2E-3\n").unwrap();
    assert_eq!(columns.len(), 5);
    assert_eq!(columns[0], vec![String::from("1e5")]);
    assert_eq!(columns[4], vec![String::from("2E-3")]);
}

#[test]
fn parse_rejects_non_numeric_cell() {
    assert_eq!(parse_csv("a,b\n1,x\n"), Err(BenchError::Parse));
    assert_eq!(parse_csv("a,b\n--1,2\n"), Err(BenchError::Parse));
    assert_eq!(parse_csv("a,b\n1.,e5\n"), Err(BenchError::Parse));
    assert_eq!(parse_csv("a,b\n,2\n"), Err(BenchError::Parse));
}

#[test]
fn parse_rejects_ragged_rows() {
    assert_eq!(parse_csv("a,b\n1\n"), Err(BenchError::Parse));
    assert_eq!(parse_csv("a,b\n1,2,3\n"), Err(BenchError::Parse));
}

#[test]
fn parse_rejects_empty_file() {
    assert_eq!(parse_csv(""), Err(BenchError::Parse));
}

use benchbot::server::{
    distinct_field_values, graph_csv_filter, query_latest_branch_date, RecordField,
};
use benchbot::types::{BenchCSVEntry, BenchContext, BenchKey, BenchPlatform};

fn entry(branch: &str, date: i64, name: &str, backend: &str) -> BenchCSVEntry {
    BenchCSVEntry {
        key: BenchKey {
            commit: String::from("abcd123"),
            branch: String::from(branch),
            date,
        },
        context: BenchContext {
            name: String::from(name),
            backend: String::from(backend),
        },
        platform: BenchPlatform { compiler: String::from("rustc 1.70.0") },
        timings: vec![String::from("1.0")],
    }
}

#[test]
fn latest_branch_date_picks_the_maximum() {
    let entries = vec![
        entry("main", 100, "a", "rapier"),
        entry("main", 300, "a", "rapier"),
        entry("dev", 900, "a", "rapier"),
        entry("main", 200, "b", "other"),
    ];
    assert_eq!(query_latest_branch_date(&entries, "main"), Some(300));
    assert_eq!(query_latest_branch_date(&entries, "dev"), Some(900));
    assert_eq!(query_latest_branch_date(&entries, "gone"), None);
    assert_eq!(query_latest_branch_date(&Vec::new(), "main"), None);
}

#[test]
fn graph_filter_restricts_to_reference_backend() {
    let entries = vec![
        entry("main", 100, "a", "rapier"),
        entry("main", 100, "a", "other"),
        entry("main", 200, "a", "rapier"),
    ];
    let only_reference = graph_csv_filter(&entries, 100, false);
    assert_eq!(only_reference.len(), 1);
    assert_eq!(only_reference[0].context.backend, "rapier");
    assert_eq!(only_reference[0].key.date, 100);

    let all_backends = graph_csv_filter(&entries, 100, true);
    assert_eq!(all_backends.len(), 2);
    assert_eq!(all_backends[1].context.backend, "other");

    let nothing = graph_csv_filter(&entries, 999, true);
    assert!(nothing.is_empty());
}

#[test]
fn distinct_values_keep_first_occurrence_order() {
    let entries = vec![
        entry("main", 100, "a", "rapier"),
        entry("main", 100, "a", "other"),
        entry("dev", 100, "b", "rapier"),
    ];
    assert_eq!(
        distinct_field_values(&entries, RecordField::Backend),
        vec![String::from("rapier"), String::from("other")]
    );
    assert_eq!(
        distinct_field_values(&entries, RecordField::Branch),
        vec![String::from("main"), String::from("dev")]
    );
    assert_eq!(
        distinct_field_values(&entries, RecordField::Commit),
        vec![String::from("abcd123")]
    );
    assert!(distinct_field_values(&Vec::new(), RecordField::Name).is_empty());
}

use aws_tool::fields::{present_prefix, FetchError};
use aws_tool::instances::{
    format_row, get_instance_name, get_instance_state_name, instance_row, list_rows, name_precedes,
    sort_rows_by_name, state_width, Instance, InstanceState, Reservation, Row, Tag,
};

fn tag(key: Option<&str>, value: Option<&str>) -> Tag {
    Tag { key: key.map(String::from), value: value.map(String::from) }
}

fn instance(id: Option<&str>, name: Option<&str>, state: Option<&str>) -> Instance {
    Instance {
        instance_id: id.map(String::from),
        tags: name.map(|n| vec![tag(Some("env"), Some("prod")), tag(Some("Name"), Some(n))]),
        state: Some(InstanceState { name: state.map(String::from) }),
    }
}

fn row(id: &str, name: &str, state: &str) -> Row {
    Row { id: id.to_string(), name: name.to_string(), state: state.to_string() }
}

fn names(rows: &[Row]) -> Vec<&str> {
    rows.iter().map(|r| r.name.as_str()).collect()
}

#[test]
fn name_tag_is_found() {
    let i = instance(Some("i-1"), Some("web"), None);
    assert_eq!(get_instance_name(&i), Some("web".to_string()));
}

#[test]
fn name_tag_without_value_is_skipped() {
    let i = Instance {
        instance_id: None,
        tags: Some(vec![tag(Some("Name"), None), tag(Some("name"), Some("low")), tag(Some("Name"), Some("db"))]),
        state: None,
    };
    assert_eq!(get_instance_name(&i), Some("db".to_string()));
    let none = Instance { instance_id: None, tags: None, state: None };
    assert_eq!(get_instance_name(&none), None);
}

#[test]
fn state_name_is_read() {
    assert_eq!(get_instance_state_name(&instance(None, None, Some("running"))), Some("running".to_string()));
    let no_state = Instance { instance_id: None, tags: None, state: None };
    assert_eq!(get_instance_state_name(&no_state), None);
}

#[test]
fn placeholders_fill_missing_fields() {
    let r = instance_row(&Instance { instance_id: None, tags: None, state: None });
    assert_eq!(r.id, "i-?????????????????");
    assert_eq!(r.name, "<no-name>");
    assert_eq!(r.state, "unknown");
}

#[test]
fn rows_are_sorted_by_name() {
    let sorted = sort_rows_by_name(vec![row("1", "web", "a"), row("2", "api", "b"), row("3", "db", "c"), row("4", "api-2", "d")]);
    assert_eq!(names(&sorted), vec!["api", "api-2", "db", "web"]);
    assert!(name_precedes(&"Zed".to_string(), &"abc".to_string()));
    assert!(!name_precedes(&"abd".to_string(), &"abc".to_string()));
    assert!(name_precedes(&"ab".to_string(), &"ab".to_string()));
}

#[test]
fn listing_flattens_reservations() {
    let res = vec![
        Reservation { instances: Some(vec![instance(Some("i-b"), Some("zeta"), Some("running"))]) },
        Reservation { instances: None },
        Reservation {
            instances: Some(vec![instance(Some("i-a"), Some("alpha"), Some("stopped")), instance(None, None, None)]),
        },
    ];
    let rows = list_rows(Some(res)).unwrap();
    assert_eq!(names(&rows), vec!["<no-name>", "alpha", "zeta"]);
    assert_eq!(rows[1].id, "i-a");
    assert_eq!(state_width(&rows), 7);
}

#[test]
fn listing_without_reservations_fails() {
    match list_rows(None) {
        Err(err) => {
            assert_eq!(err.message(), "missing reservations field");
            assert_eq!(err, FetchError::MissingField("reservations field".to_string()));
        }
        _ => panic!("expected a missing field"),
    }
}

#[test]
fn width_of_no_rows_is_zero() {
    assert_eq!(state_width(&Vec::new()), 0);
}

#[test]
fn row_is_formatted_in_columns() {
    let r = row("i-0123", "web", "running");
    assert_eq!(format_row(&r, 10), "i-0123              running    web");
    assert_eq!(format_row(&r, 3), "i-0123              running web");
}

#[test]
fn all_fields_present() {
    let (out, missing) = present_prefix(vec![Some("a".to_string()), Some("b".to_string())], "bucket name");
    assert_eq!(out, vec!["a".to_string(), "b".to_string()]);
    assert!(missing.is_none());
    let (out, missing) = present_prefix(Vec::new(), "x");
    assert!(out.is_empty());
    assert!(missing.is_none());
}

#[test]
fn missing_field_is_reported() {
    let values = vec![Some("a".to_string()), Some("b".to_string()), None, Some("c".to_string())];
    let (out, missing) = present_prefix(values, "log stream name");
    assert_eq!(out, vec!["a".to_string(), "b".to_string()]);
    let err = missing.unwrap();
    assert_eq!(err, FetchError::MissingField("log stream name".to_string()));
    assert_eq!(err.message(), "missing log stream name");
    assert_eq!(FetchError::Request("boom".to_string()).message(), "boom");
}

#[test]
fn missing_first_field_keeps_nothing() {
    let (out, missing) = present_prefix(vec![None, Some("a".to_string())], "bucket name");
    assert!(out.is_empty());
    assert_eq!(missing.unwrap().message(), "missing bucket name");
}

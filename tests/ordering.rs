use crud_repo::dto::{Direction, PageQueryParam};
use crud_repo::order::{text_le_exec, value_le_exec};
use crud_repo::paging::{page_bounds, page_offset, sort_plan};
use crud_repo::table::Value;

#[test]
fn page_offset_is_page_times_size() {
    assert_eq!(page_offset(3, 4), Some(12));
    assert_eq!(page_offset(0, u64::MAX), Some(0));
    assert_eq!(page_offset(u64::MAX, 2), None);
}

#[test]
fn page_bounds_clip_to_the_result() {
    assert_eq!(page_bounds(5, 0, 2), (0, 2));
    assert_eq!(page_bounds(5, 2, 2), (4, 5));
    assert_eq!(page_bounds(5, 3, 2), (5, 5));
    assert_eq!(page_bounds(5, 0, 0), (0, 0));
    assert_eq!(page_bounds(0, 0, 10), (0, 0));
    assert_eq!(page_bounds(5, u64::MAX, u64::MAX), (5, 5));
}

#[test]
fn sort_plan_defaults_to_ascending() {
    let p = PageQueryParam { page_num: 0, page_size: 1, sort_by: Some("name".to_string()), sort_direction: None };
    assert_eq!(sort_plan(&p), Some(("name".to_string(), Direction::ASC)));
    let p = PageQueryParam { sort_direction: Some(Direction::DESC), ..p };
    assert_eq!(sort_plan(&p), Some(("name".to_string(), Direction::DESC)));
    let p = PageQueryParam { sort_by: None, ..p };
    assert_eq!(sort_plan(&p), None);
}

#[test]
fn texts_compare_lexicographically() {
    assert!(text_le_exec("", ""));
    assert!(text_le_exec("ab", "abc"));
    assert!(!text_le_exec("abc", "ab"));
    assert!(text_le_exec("abd", "abe"));
    assert!(!text_le_exec("b", "abc"));
}

#[test]
fn values_order_nulls_then_integers_then_texts() {
    let null = Value::Null;
    let small = Value::Int(-3);
    let big = Value::Int(8);
    let text = Value::Text("a".to_string());
    assert!(value_le_exec(&null, &small));
    assert!(value_le_exec(&small, &big));
    assert!(!value_le_exec(&big, &small));
    assert!(value_le_exec(&big, &text));
    assert!(!value_le_exec(&text, &null));
    assert!(value_le_exec(&null, &null));
}

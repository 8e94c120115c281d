use crud_repo::dto::{Direction, PageQueryParam};
use crud_repo::error::ErrorKind;
use crud_repo::memdb::{FaultPoint, MemDb};
use crud_repo::repo::GenericRepo;
use crud_repo::service::GenericService;
use crud_repo::table::{Condition, Record, Value};

fn row(id: i64, name: &str, age: i64) -> Record {
    Record { id, values: vec![Value::Text(name.to_string()), Value::Int(age)] }
}

fn people() -> GenericRepo {
    let db = MemDb::new("id", vec!["name".to_string(), "age".to_string()]);
    let mut repo = GenericRepo::new(db);
    let names = ["eve", "bob", "dan", "amy", "cat"];
    for (i, n) in names.iter().enumerate() {
        let id = (i + 1) as i64;
        repo.create(row(id, n, 20 + (id % 3))).unwrap();
    }
    repo
}

fn ids(rows: &[Record]) -> Vec<i64> {
    rows.iter().map(|r| r.id).collect()
}

fn param(page_num: u64, page_size: u64, sort_by: Option<&str>, dir: Option<Direction>) -> PageQueryParam {
    PageQueryParam {
        page_num,
        page_size,
        sort_by: sort_by.map(|s| s.to_string()),
        sort_direction: dir,
    }
}

fn name_of(r: &Record) -> String {
    match &r.values[0] {
        Value::Text(s) => s.clone(),
        _ => panic!("name column holds no text"),
    }
}

#[test]
fn pages_of_two_sorted_by_id() {
    let repo = people();
    let (first, t0) = repo.find_page(&param(0, 2, Some("id"), Some(Direction::ASC))).unwrap();
    let (second, t1) = repo.find_page(&param(1, 2, Some("id"), Some(Direction::ASC))).unwrap();
    let (third, t2) = repo.find_page(&param(2, 2, Some("id"), Some(Direction::ASC))).unwrap();
    assert_eq!(ids(&first), vec![1, 2]);
    assert_eq!(ids(&second), vec![3, 4]);
    assert_eq!(ids(&third), vec![5]);
    assert_eq!((t0, t1, t2), (5, 5, 5));
}

#[test]
fn page_never_exceeds_size_and_repeats() {
    let repo = people();
    for size in 0..7u64 {
        for num in 0..7u64 {
            let p = param(num, size, None, None);
            let (a, ta) = repo.find_page(&p).unwrap();
            let (b, tb) = repo.find_page(&p).unwrap();
            assert!(a.len() as u64 <= size);
            assert_eq!(ids(&a), ids(&b));
            assert_eq!(ta, tb);
        }
    }
}

#[test]
fn total_ignores_page_number_and_size() {
    let repo = people();
    let c = Condition::ColumnEq(1, Value::Int(21));
    let (_, t1) = repo.find_page_condition(&c, &param(0, 1, None, None)).unwrap();
    let (_, t2) = repo.find_page_condition(&c, &param(3, 10, None, None)).unwrap();
    let (_, t3) = repo.find_page_condition(&c, &param(u64::MAX, u64::MAX, None, None)).unwrap();
    assert_eq!(t1, 2);
    assert_eq!(t2, 2);
    assert_eq!(t3, 2);
}

#[test]
fn huge_page_number_gives_empty_page() {
    let repo = people();
    let (rows, total) = repo.find_page(&param(u64::MAX, 2, None, None)).unwrap();
    assert!(rows.is_empty());
    assert_eq!(total, 5);
}

#[test]
fn sort_by_id_descending() {
    let repo = people();
    let (rows, _) = repo.find_page(&param(0, 3, Some("id"), Some(Direction::DESC))).unwrap();
    assert_eq!(ids(&rows), vec![5, 4, 3]);
}

#[test]
fn sort_by_text_column_defaults_to_ascending() {
    let repo = people();
    let (rows, _) = repo.find_page(&param(0, 5, Some("name"), None)).unwrap();
    let names: Vec<String> = rows.iter().map(name_of).collect();
    assert_eq!(names, vec!["amy", "bob", "cat", "dan", "eve"]);
}

#[test]
fn sort_by_int_column_keeps_ties_in_key_order() {
    let repo = people();
    // ages: 1 -> 21, 2 -> 22, 3 -> 20, 4 -> 21, 5 -> 22
    let (rows, _) = repo.find_page(&param(0, 5, Some("age"), Some(Direction::ASC))).unwrap();
    assert_eq!(ids(&rows), vec![3, 1, 4, 2, 5]);
    let (rows, _) = repo.find_page(&param(0, 5, Some("age"), Some(Direction::DESC))).unwrap();
    assert_eq!(ids(&rows), vec![2, 5, 1, 4, 3]);
}

#[test]
fn sort_by_unknown_column_is_a_query_error() {
    let repo = people();
    let e = repo.find_page(&param(0, 2, Some("height"), None)).unwrap_err();
    assert_eq!(e.kind(), ErrorKind::Query);
}

#[test]
fn create_then_find_by_id_returns_it() {
    let mut repo = people();
    let created = repo.create(row(42, "zoe", 30)).unwrap();
    assert_eq!(created.id, 42);
    let found = repo.find_by_id(42).unwrap();
    assert_eq!(found.id, 42);
    assert_eq!(name_of(&found), "zoe");
    assert!(matches!(found.values[1], Value::Int(30)));
    assert_eq!(ids(&repo.find_list()), vec![1, 2, 3, 4, 5, 42]);
}

#[test]
fn create_keeps_key_order() {
    let mut repo = people();
    repo.create(row(0, "ann", 40)).unwrap();
    repo.create(row(-7, "al", 41)).unwrap();
    assert_eq!(ids(&repo.find_list()), vec![-7, 0, 1, 2, 3, 4, 5]);
}

#[test]
fn create_with_taken_key_is_refused() {
    let mut repo = people();
    let e = repo.create(row(3, "dup", 1)).unwrap_err();
    assert_eq!(e.kind(), ErrorKind::Query);
    assert_eq!(name_of(&repo.find_by_id(3).unwrap()), "dan");
}

#[test]
fn create_with_wrong_column_count_is_refused() {
    let mut repo = people();
    let e = repo.create(Record { id: 9, values: vec![Value::Null] }).unwrap_err();
    assert_eq!(e.kind(), ErrorKind::Query);
    assert!(repo.find_by_id(9).is_none());
}

#[test]
fn find_by_id_of_absent_key_is_none() {
    let repo = people();
    assert!(repo.find_by_id(99).is_none());
}

#[test]
fn find_one_condition_takes_lowest_key() {
    let repo = people();
    let r = repo.find_one_condition(&Condition::ColumnEq(1, Value::Int(22))).unwrap();
    assert_eq!(r.id, 2);
    assert!(repo.find_one_condition(&Condition::ColumnEq(1, Value::Int(99))).is_none());
}

#[test]
fn count_and_list_by_condition() {
    let repo = people();
    let c = Condition::And(
        Box::new(Condition::KeyGt(1)),
        Box::new(Condition::Not(Box::new(Condition::ColumnEq(1, Value::Int(22))))),
    );
    assert_eq!(repo.count_condition(&c), 2);
    assert_eq!(ids(&repo.find_by_list_condition(&c)), vec![3, 4]);
    assert_eq!(repo.count_condition(&Condition::All), 5);
}

#[test]
fn delete_of_absent_key_affects_nothing() {
    let mut repo = people();
    let out = repo.delete(77).unwrap();
    assert_eq!(out.rows_affected, 0);
    assert_eq!(ids(&repo.find_list()), vec![1, 2, 3, 4, 5]);
}

#[test]
fn delete_removes_the_row() {
    let mut repo = people();
    assert_eq!(repo.delete(2).unwrap().rows_affected, 1);
    assert!(repo.find_by_id(2).is_none());
    assert_eq!(ids(&repo.find_list()), vec![1, 3, 4, 5]);
}

#[test]
fn delete_batch_removes_matching_rows() {
    let mut repo = people();
    let out = repo.delete_batch(&Condition::ColumnEq(1, Value::Int(21))).unwrap();
    assert_eq!(out.rows_affected, 2);
    assert_eq!(ids(&repo.find_list()), vec![2, 3, 5]);
}

#[test]
fn empty_update_counts_matches_and_changes_nothing() {
    let mut repo = people();
    let before: Vec<String> = repo.find_list().iter().map(name_of).collect();
    let n = repo.update_by_condition(&Condition::KeyLt(4), vec![]).unwrap();
    assert_eq!(n, 3);
    let after: Vec<String> = repo.find_list().iter().map(name_of).collect();
    assert_eq!(before, after);
}

#[test]
fn update_by_condition_assigns_in_order() {
    let mut repo = people();
    let n = repo
        .update_by_condition(
            &Condition::ColumnEq(1, Value::Int(22)),
            vec![(0, Value::Text("x".to_string())), (0, Value::Text("y".to_string())), (1, Value::Null)],
        )
        .unwrap();
    assert_eq!(n, 2);
    let r = repo.find_by_id(5).unwrap();
    assert_eq!(name_of(&r), "y");
    assert!(matches!(r.values[1], Value::Null));
    assert_eq!(name_of(&repo.find_by_id(1).unwrap()), "eve");
}

#[test]
fn update_of_unknown_column_is_refused() {
    let mut repo = people();
    let e = repo.update_by_condition(&Condition::All, vec![(2, Value::Null)]).unwrap_err();
    assert_eq!(e.kind(), ErrorKind::Query);
    assert_eq!(name_of(&repo.find_by_id(1).unwrap()), "eve");
}

#[test]
fn update_by_id_replaces_whole_row() {
    let mut repo = people();
    let r = repo.update_by_id(row(4, "ada", 50)).unwrap();
    assert_eq!(r.id, 4);
    let found = repo.find_by_id(4).unwrap();
    assert_eq!(name_of(&found), "ada");
    assert!(matches!(found.values[1], Value::Int(50)));
}

#[test]
fn update_by_id_of_absent_key_is_refused() {
    let mut repo = people();
    let e = repo.update_by_id(row(40, "nobody", 1)).unwrap_err();
    assert_eq!(e.kind(), ErrorKind::Query);
    assert!(repo.find_by_id(40).is_none());
}

#[test]
fn failure_while_inserting_rolls_back() {
    let mut repo = people();
    repo.set_fault(Some(FaultPoint::Execute));
    let e = repo.create(row(10, "lost", 1)).unwrap_err();
    assert_eq!(e.kind(), ErrorKind::Query);
    assert!(repo.find_by_id(10).is_none());
    assert_eq!(ids(&repo.find_list()), vec![1, 2, 3, 4, 5]);
}

#[test]
fn failure_to_begin_or_commit_changes_nothing() {
    let mut repo = people();
    repo.set_fault(Some(FaultPoint::Begin));
    assert_eq!(repo.delete(1).unwrap_err().kind(), ErrorKind::Transaction);
    repo.set_fault(Some(FaultPoint::Commit));
    assert_eq!(repo.create(row(10, "lost", 1)).unwrap_err().kind(), ErrorKind::Transaction);
    assert_eq!(repo.update_by_condition(&Condition::All, vec![]).unwrap_err().kind(), ErrorKind::Transaction);
    assert_eq!(ids(&repo.find_list()), vec![1, 2, 3, 4, 5]);
}

#[test]
fn failed_rollback_surfaces_its_own_error() {
    let mut repo = people();
    repo.set_fault(Some(FaultPoint::Rollback));
    // the statement is refused, then the rollback fails too
    assert_eq!(repo.create(row(1, "dup", 1)).unwrap_err().kind(), ErrorKind::Transaction);
    // a statement that succeeds needs no rollback and commits
    assert!(repo.create(row(6, "fay", 1)).is_ok());
    repo.set_fault(None);
    assert_eq!(ids(&repo.find_list()), vec![1, 2, 3, 4, 5, 6]);
}

#[test]
fn service_forwards_to_repository() {
    let mut svc = GenericService::new(people());
    assert_eq!(svc.count_condition(&Condition::All), 5);
    svc.create(row(8, "gus", 1)).unwrap();
    assert_eq!(svc.find_by_id(8).unwrap().id, 8);
    svc.update(row(8, "guy", 2)).unwrap();
    assert_eq!(name_of(&svc.find_one_condition(&Condition::KeyEq(8)).unwrap()), "guy");
    assert_eq!(svc.update_by_condition(&Condition::KeyEq(8), vec![(1, Value::Int(3))]).unwrap(), 1);
    let (page, total) = svc.find_page(&param(1, 4, None, None)).unwrap();
    assert_eq!((ids(&page), total), (vec![5, 8], 6));
    let (page, total) = svc.find_page_condition(&Condition::KeyGt(4), &param(0, 4, None, None)).unwrap();
    assert_eq!((ids(&page), total), (vec![5, 8], 2));
    assert_eq!(ids(&svc.find_by_list_condition(&Condition::KeyLt(3))), vec![1, 2]);
    assert_eq!(svc.delete(8).unwrap().rows_affected, 1);
    assert_eq!(svc.delete_batch(&Condition::KeyLt(3)).unwrap().rows_affected, 2);
    assert_eq!(ids(&svc.find_list()), vec![3, 4, 5]);
    assert_eq!(ids(&svc.repo().find_list()), vec![3, 4, 5]);
}

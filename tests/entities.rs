use crud_repo::codec::{decode_id, decode_optional_id, encode_id, encode_optional_id, parse_i64, InvalidId};
use crud_repo::dto::{Direction, MessageResponse, PageResponse};
use crud_repo::error::{ErrorKind, RepoError};
use crud_repo::txn::{txn_start, txn_step, TxnAction, TxnEvent, TxnState};
use crud_repo::user::{User, UserDao, UserService};

fn user(id: i64, name: &str, email: &str) -> User {
    User { id, name: name.to_string(), email: email.to_string() }
}

#[test]
fn user_with_empty_name_is_refused_before_the_repository() {
    let mut svc = UserService::new();
    let e = svc.create(user(1, "", "a@x.org")).unwrap_err();
    assert_eq!(e.kind(), ErrorKind::Validation);
    assert!(matches!(e, RepoError::Validation(_)));
    assert!(svc.repo().find_list().is_empty());
    assert!(svc.find_by_id(1).is_none());
}

#[test]
fn user_service_round_trip() {
    let mut svc = UserService::new();
    let u = svc.create(user(1, "ann", "ann@x.org")).unwrap();
    assert_eq!((u.id, u.name.as_str(), u.email.as_str()), (1, "ann", "ann@x.org"));
    let found = svc.find_by_id(1).unwrap();
    assert_eq!(found.name, "ann");
    svc.update(user(1, "anna", "ann@x.org")).unwrap();
    assert_eq!(svc.find_by_id(1).unwrap().name, "anna");
    assert_eq!(svc.delete(1).unwrap().rows_affected, 1);
    assert!(svc.find_by_id(1).is_none());
}

#[test]
fn user_dao_finds_by_email() {
    let mut dao = UserDao::new();
    dao.create(user(2, "bob", "bob@x.org")).unwrap();
    dao.create(user(1, "ann", "ann@x.org")).unwrap();
    dao.create(user(3, "bob2", "bob@x.org")).unwrap();
    assert_eq!(dao.find_by_email("bob@x.org").unwrap().id, 2);
    assert_eq!(dao.find_by_email("ann@x.org").unwrap().name, "ann");
    assert!(dao.find_by_email("nobody@x.org").is_none());
    assert_eq!(dao.find_by_id(3).unwrap().name, "bob2");
    dao.update(user(3, "bo", "bo@x.org")).unwrap();
    assert_eq!(dao.find_by_email("bo@x.org").unwrap().id, 3);
    assert_eq!(dao.delete(3).unwrap().rows_affected, 1);
    assert!(dao.find_by_id(3).is_none());
}

#[test]
fn user_record_conversion() {
    let u = user(5, "cy", "cy@x.org");
    let r = u.to_record();
    assert_eq!(r.id, 5);
    let back = User::from_record(&r).unwrap();
    assert_eq!((back.id, back.name, back.email), (5, "cy".to_string(), "cy@x.org".to_string()));
}

#[test]
fn direction_closure_orders_pairs() {
    let asc = Direction::ASC.as_closure();
    let desc = Direction::DESC.as_closure();
    assert!(asc((1, 2)));
    assert!(asc((2, 2)));
    assert!(!asc((3, 2)));
    assert!(desc((3, 2)));
    assert!(!desc((1, 2)));
}

#[test]
fn page_response_map_keeps_figures() {
    let p = PageResponse::new(vec![1i64, 2, 3], 2, 3, 9);
    let q = p.map(|x: &i64| *x * 10);
    assert_eq!(q.data, vec![10, 20, 30]);
    assert_eq!((q.page_num, q.page_size, q.total), (2, 3, 9));
}

#[test]
fn message_response_holds_message() {
    assert_eq!(MessageResponse::new("saved").message, "saved");
}

#[test]
fn ids_cross_the_wire_as_decimal_strings() {
    assert_eq!(encode_id(5), "5");
    assert_eq!(encode_id(-42), "-42");
    assert_eq!(encode_id(i64::MIN), "-9223372036854775808");
    assert_eq!(encode_optional_id(Some(7)), Some("7".to_string()));
    assert_eq!(encode_optional_id(None), None);
    for v in [0i64, 1, -1, 1234567890123, i64::MAX, i64::MIN] {
        assert_eq!(decode_id(&encode_id(v)), Ok(v));
    }
}

#[test]
fn decimal_strings_are_read_back() {
    assert_eq!(parse_i64("123"), Some(123));
    assert_eq!(parse_i64("+5"), Some(5));
    assert_eq!(parse_i64("-0"), Some(0));
    assert_eq!(parse_i64("007"), Some(7));
    assert_eq!(parse_i64("9223372036854775807"), Some(i64::MAX));
    assert_eq!(parse_i64("9223372036854775808"), None);
    assert_eq!(parse_i64("-9223372036854775808"), Some(i64::MIN));
    assert_eq!(parse_i64("-9223372036854775809"), None);
    assert_eq!(parse_i64(""), None);
    assert_eq!(parse_i64("-"), None);
    assert_eq!(parse_i64("12a"), None);
    assert_eq!(parse_i64(" 1"), None);
    assert_eq!(decode_id("x"), Err(InvalidId));
}

#[test]
fn empty_string_is_no_id() {
    assert_eq!(decode_optional_id(""), Ok(None));
    assert_eq!(decode_optional_id("15"), Ok(Some(15)));
    assert_eq!(decode_optional_id("1.5"), Err(InvalidId));
}

#[test]
fn protocol_commits_after_successful_work() {
    let (s, a) = txn_start::<u32>();
    assert!(matches!(a, TxnAction::Begin));
    let (s, a) = txn_step(s, TxnEvent::Began(Ok(())));
    assert!(matches!(a, TxnAction::Run));
    let (s, a) = txn_step(s, TxnEvent::Ran(Ok(7)));
    assert!(matches!(a, TxnAction::Commit));
    let (s, a) = txn_step(s, TxnEvent::Committed(Ok(())));
    assert!(matches!(s, TxnState::Finished));
    assert!(matches!(a, TxnAction::Finish(Ok(7))));
}

#[test]
fn protocol_rolls_back_failed_work() {
    let (s, _) = txn_start::<u32>();
    let (s, _) = txn_step(s, TxnEvent::Began(Ok(())));
    let (s, a) = txn_step(s, TxnEvent::Ran(Err(RepoError::Query("bad".to_string()))));
    assert!(matches!(a, TxnAction::Rollback));
    let (_, a) = txn_step(s, TxnEvent::RolledBack(Ok(())));
    match a {
        TxnAction::Finish(Err(e)) => assert_eq!(e, RepoError::Query("bad".to_string())),
        _ => panic!("expected the work's error"),
    }
}

#[test]
fn protocol_reports_failed_rollback_and_out_of_order_events() {
    let (s, _) = txn_start::<u32>();
    let (s, _) = txn_step(s, TxnEvent::Began(Ok(())));
    let (s, _) = txn_step(s, TxnEvent::Ran(Err(RepoError::Query("bad".to_string()))));
    let (_, a) = txn_step(s, TxnEvent::RolledBack(Err(RepoError::Transaction("gone".to_string()))));
    match a {
        TxnAction::Finish(Err(e)) => assert_eq!(e.message(), "gone"),
        _ => panic!("expected the rollback's error"),
    }
    let (s, _) = txn_start::<u32>();
    let (_, a) = txn_step(s, TxnEvent::Committed(Ok(())));
    match a {
        TxnAction::Finish(Err(e)) => assert_eq!(e.kind(), ErrorKind::Transaction),
        _ => panic!("expected a transaction error"),
    }
}

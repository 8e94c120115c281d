use vstd::prelude::*;
use crate::error::{ErrorKind, RepoError};
use crate::memdb::{MemDb, MemDbView};
use crate::repo::{
    can_insert, can_replace, delete_post, first_of, insert_row, opt_view, replace_row, txn_post,
    DeleteOutcome, GenericRepo,
};
use crate::service::GenericService;
use crate::table::{lemma_matching_congruent, matching, Condition, Record, RecordView, Value, ValueView};

verus! {

/// Position of the `name` column among the user table's value columns.
pub const NAME_COLUMN: usize = 0;

/// Position of the `email` column among the user table's value columns.
pub const EMAIL_COLUMN: usize = 1;

/// A user as the application sees it.
#[derive(Debug)]
pub struct User {
    pub id: i64,
    pub name: String,
    pub email: String,
}

pub ghost struct UserView {
    pub id: i64,
    pub name: Seq<char>,
    pub email: Seq<char>,
}

impl View for User {
    type V = UserView;

    open spec fn view(&self) -> UserView {
        UserView { id: self.id, name: self.name@, email: self.email@ }
    }
}

/// The row that stores user `u`.
pub open spec fn row_of(u: UserView) -> RecordView {
    RecordView { id: u.id, values: seq![ValueView::Text(u.name), ValueView::Text(u.email)] }
}

/// The user a row stores, when it has the user table's shape.
pub open spec fn user_of(r: RecordView) -> Option<UserView> {
    if r.values.len() == 2 {
        match (r.values[0], r.values[1]) {
            (ValueView::Text(name), ValueView::Text(email)) => Some(
                UserView { id: r.id, name, email },
            ),
            _ => None,
        }
    } else {
        None
    }
}

/// The user stored in the first of some rows.
pub open spec fn first_user(m: Seq<RecordView>) -> Option<UserView> {
    match first_of(m) {
        Some(x) => user_of(x),
        None => None,
    }
}

pub open spec fn opt_user(u: Option<User>) -> Option<UserView> {
    match u {
        Some(x) => Some(x@),
        None => None,
    }
}

/// Whether `c` selects the rows whose column `col` holds the text `text`.
pub open spec fn text_match(c: Condition, col: usize, text: Seq<char>) -> bool {
    c matches Condition::ColumnEq(k, v) && k == col && v@ == ValueView::Text(text)
}

impl User {
    /// The row that stores this user.
    pub fn to_record(&self) -> (r: Record)
        ensures
            r@ == row_of(self@),
    {
        let values = vec![Value::Text(self.name.clone()), Value::Text(self.email.clone())];
        let r = Record { id: self.id, values };
        assert(r@.values =~= row_of(self@).values);
        r
    }

    /// The user a row stores, or `None` when the row does not have the user
    /// table's shape.
    pub fn from_record(r: &Record) -> (u: Option<User>)
        ensures
            opt_user(u) == user_of(r@),
    {
        if r.values.len() != 2 {
            return None;
        }
        match (&r.values[0], &r.values[1]) {
            (Value::Text(name), Value::Text(email)) => Some(
                User { id: r.id, name: name.clone(), email: email.clone() },
            ),
            _ => None,
        }
    }
}

fn user_of_row(r: Option<Record>) -> (u: Option<User>)
    ensures
        opt_user(u) == match opt_view(r) {
            Some(x) => user_of(x),
            None => None,
        },
{
    match r {
        Some(x) => User::from_record(&x),
        None => None,
    }
}

/// An empty user table: key `id`, value columns `name` and `email`.
pub fn user_table() -> (r: MemDb)
    ensures
        r.wf(),
        r@.columns.len() == 2,
        r@.rows.len() == 0,
        r@.fault is None,
{
    MemDb::new("id", vec!["name".to_string(), "email".to_string()])
}

/// Repository of users, with the lookups particular to them.
#[derive(Debug)]
pub struct UserDao {
    generic_dao: GenericRepo,
}

impl View for UserDao {
    type V = MemDbView;

    closed spec fn view(&self) -> MemDbView {
        self.generic_dao@
    }
}

impl UserDao {
    pub closed spec fn wf(&self) -> bool {
        self.generic_dao.wf() && self@.columns.len() == 2
    }

    /// A repository over an empty user table.
    pub fn new() -> (r: UserDao)
        ensures
            r.wf(),
            r@.rows.len() == 0,
            r@.fault is None,
    {
        UserDao { generic_dao: GenericRepo::new(user_table()) }
    }

    /// The first user, in key order, whose email is `email`.
    pub fn find_by_email(&self, email: &str) -> (r: Option<User>)
        ensures
            forall|c: Condition|
                text_match(c, EMAIL_COLUMN, email@) ==> opt_user(r) == first_user(
                    matching(self@.rows, c),
                ),
    {
        let c = Condition::ColumnEq(EMAIL_COLUMN, Value::Text(email.to_owned()));
        let found = self.generic_dao.find_one_condition(&c);
        proof {
            assert forall|c2: Condition| text_match(c2, EMAIL_COLUMN, email@) implies matching(
                self@.rows,
                c2,
            ) == matching(self@.rows, c) by {
                lemma_matching_congruent(self@.rows, c2, c);
            }
        }
        user_of_row(found)
    }

    pub fn find_by_id(&self, id: i64) -> (r: Option<User>)
        ensures
            opt_user(r) == first_user(matching(self@.rows, Condition::KeyEq(id))),
    {
        user_of_row(self.generic_dao.find_by_id(id))
    }

    pub fn create(&mut self, user: User) -> (r: Result<User, RepoError>)
        requires
            old(self).wf(),
        ensures
            final(self).wf(),
            txn_post(
                old(self)@,
                can_insert(old(self)@, row_of(user@)),
                insert_row(old(self)@.rows, row_of(user@)),
                final(self)@,
                r,
            ),
            r matches Ok(u) ==> u@ == user@,
    {
        match self.generic_dao.create(user.to_record()) {
            Ok(_) => Ok(user),
            Err(e) => Err(e),
        }
    }

    pub fn update(&mut self, user: User) -> (r: Result<User, RepoError>)
        requires
            old(self).wf(),
        ensures
            final(self).wf(),
            txn_post(
                old(self)@,
                can_replace(old(self)@, row_of(user@)),
                replace_row(old(self)@.rows, row_of(user@)),
                final(self)@,
                r,
            ),
            r matches Ok(u) ==> u@ == user@,
    {
        match self.generic_dao.update_by_id(user.to_record()) {
            Ok(_) => Ok(user),
            Err(e) => Err(e),
        }
    }

    pub fn delete(&mut self, id: i64) -> (r: Result<DeleteOutcome, RepoError>)
        requires
            old(self).wf(),
        ensures
            final(self).wf(),
            delete_post(old(self)@, Condition::KeyEq(id), final(self)@, r),
    {
        self.generic_dao.delete(id)
    }
}

/// Service for users: refuses a user without a name before the repository
/// is reached, and otherwise delegates.
#[derive(Debug)]
pub struct UserService {
    generic_service: GenericService,
}

impl View for UserService {
    type V = MemDbView;

    closed spec fn view(&self) -> MemDbView {
        self.generic_service@
    }
}

impl UserService {
    pub closed spec fn wf(&self) -> bool {
        self.generic_service.wf()
    }

    /// A service over an empty user table.
    pub fn new() -> (r: UserService)
        ensures
            r.wf(),
            r@.rows.len() == 0,
            r@.columns.len() == 2,
            r@.fault is None,
    {
        UserService { generic_service: GenericService::new(GenericRepo::new(user_table())) }
    }

    /// A service over `repo`.
    pub fn with_repo(repo: GenericRepo) -> (r: UserService)
        requires
            repo.wf(),
        ensures
            r.wf(),
            r@ == repo@,
    {
        UserService { generic_service: GenericService::new(repo) }
    }

    /// The service's repository.
    pub fn repo(&self) -> (r: &GenericRepo)
        requires
            self.wf(),
        ensures
            r@ == self@,
            r.wf(),
    {
        self.generic_service.repo()
    }

    pub fn find_by_id(&self, id: i64) -> (r: Option<User>)
        ensures
            opt_user(r) == first_user(matching(self@.rows, Condition::KeyEq(id))),
    {
        user_of_row(self.generic_service.find_by_id(id))
    }

    /// Stores a new user. A user with an empty name is refused with a
    /// validation error and the repository is not called.
    pub fn create(&mut self, user: User) -> (r: Result<User, RepoError>)
        requires
            old(self).wf(),
        ensures
            final(self).wf(),
            user.name@.len() == 0 ==> final(self)@ == old(self)@ && (r matches Err(e)
                && e.kind_of() == ErrorKind::Validation),
            user.name@.len() > 0 ==> txn_post(
                old(self)@,
                can_insert(old(self)@, row_of(user@)),
                insert_row(old(self)@.rows, row_of(user@)),
                final(self)@,
                r,
            ) && (r matches Ok(u) ==> u@ == user@),
    {
        if user.name.as_str().is_empty() {
            return Err(RepoError::Validation("name cannot be empty".to_string()));
        }
        match self.generic_service.create(user.to_record()) {
            Ok(_) => Ok(user),
            Err(e) => Err(e),
        }
    }

    pub fn update(&mut self, user: User) -> (r: Result<User, RepoError>)
        requires
            old(self).wf(),
        ensures
            final(self).wf(),
            txn_post(
                old(self)@,
                can_replace(old(self)@, row_of(user@)),
                replace_row(old(self)@.rows, row_of(user@)),
                final(self)@,
                r,
            ),
            r matches Ok(u) ==> u@ == user@,
    {
        match self.generic_service.update(user.to_record()) {
            Ok(_) => Ok(user),
            Err(e) => Err(e),
        }
    }

    pub fn delete(&mut self, id: i64) -> (r: Result<DeleteOutcome, RepoError>)
        requires
            old(self).wf(),
        ensures
            final(self).wf(),
            delete_post(old(self)@, Condition::KeyEq(id), final(self)@, r),
    {
        self.generic_service.delete(id)
    }
}

} // verus!

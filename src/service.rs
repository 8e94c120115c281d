use vstd::prelude::*;
use crate::dto::PageQueryParam;
use crate::error::RepoError;
use crate::memdb::MemDbView;
use crate::repo::{
    create_post, delete_post, first_of, opt_view, page_post, update_condition_post, update_post,
    updates_view, DeleteOutcome, GenericRepo,
};
use crate::table::{matching, rows_view, Condition, Record, Value};

verus! {

/// Business layer over a repository. Every call goes to the repository
/// unchanged; services of single entities wrap it to add their rules.
#[derive(Debug)]
pub struct GenericService {
    dao: GenericRepo,
}

impl View for GenericService {
    type V = MemDbView;

    closed spec fn view(&self) -> MemDbView {
        self.dao@
    }
}

impl GenericService {
    pub closed spec fn wf(&self) -> bool {
        self.dao.wf()
    }

    pub fn new(dao: GenericRepo) -> (r: GenericService)
        requires
            dao.wf(),
        ensures
            r.wf(),
            r@ == dao@,
    {
        GenericService { dao }
    }

    /// The repository that the service delegates to.
    pub fn repo(&self) -> (r: &GenericRepo)
        requires
            self.wf(),
        ensures
            r@ == self@,
            r.wf(),
    {
        &self.dao
    }

    pub fn find_by_id(&self, id: i64) -> (r: Option<Record>)
        ensures
            opt_view(r) == first_of(matching(self@.rows, Condition::KeyEq(id))),
    {
        self.dao.find_by_id(id)
    }

    pub fn find_one_condition(&self, c: &Condition) -> (r: Option<Record>)
        ensures
            opt_view(r) == first_of(matching(self@.rows, *c)),
    {
        self.dao.find_one_condition(c)
    }

    pub fn count_condition(&self, c: &Condition) -> (r: u64)
        ensures
            r == matching(self@.rows, *c).len(),
    {
        self.dao.count_condition(c)
    }

    pub fn find_list(&self) -> (r: Vec<Record>)
        ensures
            rows_view(r@) == self@.rows,
    {
        self.dao.find_list()
    }

    pub fn find_by_list_condition(&self, c: &Condition) -> (r: Vec<Record>)
        ensures
            rows_view(r@) == matching(self@.rows, *c),
    {
        self.dao.find_by_list_condition(c)
    }

    pub fn find_page(&self, param: &PageQueryParam) -> (r: Result<(Vec<Record>, u64), RepoError>)
        requires
            self.wf(),
        ensures
            page_post(self@, Condition::All, *param, r),
    {
        self.dao.find_page(param)
    }

    pub fn find_page_condition(&self, c: &Condition, param: &PageQueryParam) -> (r: Result<
        (Vec<Record>, u64),
        RepoError,
    >)
        requires
            self.wf(),
        ensures
            page_post(self@, *c, *param, r),
    {
        self.dao.find_page_condition(c, param)
    }

    pub fn create(&mut self, model: Record) -> (r: Result<Record, RepoError>)
        requires
            old(self).wf(),
        ensures
            final(self).wf(),
            create_post(old(self)@, model@, final(self)@, r),
    {
        self.dao.create(model)
    }

    pub fn update(&mut self, model: Record) -> (r: Result<Record, RepoError>)
        requires
            old(self).wf(),
        ensures
            final(self).wf(),
            update_post(old(self)@, model@, final(self)@, r),
    {
        self.dao.update_by_id(model)
    }

    pub fn update_by_condition(&mut self, c: &Condition, column_updates: Vec<(usize, Value)>) -> (r:
        Result<u64, RepoError>)
        requires
            old(self).wf(),
        ensures
            final(self).wf(),
            update_condition_post(old(self)@, *c, updates_view(column_updates@), final(self)@, r),
    {
        self.dao.update_by_condition(c, column_updates)
    }

    pub fn delete(&mut self, id: i64) -> (r: Result<DeleteOutcome, RepoError>)
        requires
            old(self).wf(),
        ensures
            final(self).wf(),
            delete_post(old(self)@, Condition::KeyEq(id), final(self)@, r),
    {
        self.dao.delete(id)
    }

    pub fn delete_batch(&mut self, c: &Condition) -> (r: Result<DeleteOutcome, RepoError>)
        requires
            old(self).wf(),
        ensures
            final(self).wf(),
            delete_post(old(self)@, *c, final(self)@, r),
    {
        self.dao.delete_batch(c)
    }
}

} // verus!

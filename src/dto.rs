use vstd::prelude::*;

verus! {

/// Sort direction of a page query.
#[derive(Debug, Clone, Copy, PartialEq, Eq, PartialOrd, Ord, Structural)]
pub enum Direction {
    DESC,
    ASC,
}

/// Whether `a` may come before `b` when ordering by `dir`.
pub open spec fn in_order(dir: Direction, a: i64, b: i64) -> bool {
    match dir {
        Direction::ASC => a <= b,
        Direction::DESC => a >= b,
    }
}

impl Direction {
    /// The pairwise order test of this direction: ascending accepts `a <= b`,
    /// descending accepts `a >= b`.
    pub fn as_closure(&self) -> (r: impl Fn((i64, i64)) -> bool)
        ensures
            forall|a: i64, b: i64| call_requires(r, ((a, b),)),
            forall|a: i64, b: i64, res: bool|
                call_ensures(r, ((a, b),), res) ==> res == in_order(*self, a, b),
    {
        let dir = *self;
        move |p: (i64, i64)| -> (res: bool)
            ensures
                res == in_order(dir, p.0, p.1),
            {
                match dir {
                    Direction::ASC => p.0 <= p.1,
                    Direction::DESC => p.0 >= p.1,
                }
            }
    }
}

/// Paging request: zero-based page index, page size, optional sort column and direction.
#[derive(Debug, Clone)]
pub struct PageQueryParam {
    pub page_num: u64,
    pub page_size: u64,
    pub sort_by: Option<String>,
    pub sort_direction: Option<Direction>,
}

/// A list of ids as it arrives on the wire.
#[derive(Debug, Clone)]
pub struct IdsReq {
    pub ids: String,
}

/// Generic information or error envelope.
#[derive(Debug)]
pub struct MessageResponse {
    pub message: String,
}

impl MessageResponse {
    pub fn new(message: &str) -> (r: MessageResponse)
        ensures
            r.message@ == message@,
    {
        MessageResponse { message: message.to_owned() }
    }
}

/// One page of results with the number of rows that matched before paging.
#[derive(Debug)]
pub struct PageResponse<T> {
    pub data: Vec<T>,
    pub page_num: u64,
    pub page_size: u64,
    pub total: u64,
}

impl<T> PageResponse<T> {
    pub fn new(data: Vec<T>, page_num: u64, page_size: u64, total: u64) -> (r: PageResponse<T>)
        ensures
            r.data == data,
            r.page_num == page_num,
            r.page_size == page_size,
            r.total == total,
    {
        PageResponse { data, page_num, page_size, total }
    }

    /// Applies `f` to every item, keeping their order and the paging figures.
    pub fn map<F, B>(&self, f: F) -> (r: PageResponse<B>)
        where
            F: Fn(&T) -> B,
        requires
            forall|i: int| 0 <= i < self.data@.len() ==> call_requires(f, (&self.data@[i],)),
        ensures
            r.data@.len() == self.data@.len(),
            forall|i: int|
                0 <= i < self.data@.len() ==> call_ensures(f, (&self.data@[i],), r.data@[i]),
            r.page_num == self.page_num,
            r.page_size == self.page_size,
            r.total == self.total,
    {
        let mut data: Vec<B> = Vec::new();
        let n = self.data.len();
        let mut i: usize = 0;
        while i < n
            invariant
                n == self.data@.len(),
                i <= n,
                data@.len() == i,
                forall|j: int| 0 <= j < self.data@.len() ==> call_requires(f, (&self.data@[j],)),
                forall|j: int| 0 <= j < i ==> call_ensures(f, (&self.data@[j],), data@[j]),
            decreases n - i,
        {
            let b = f(&self.data[i]);
            data.push(b);
            i = i + 1;
        }
        PageResponse {
            data,
            page_num: self.page_num,
            page_size: self.page_size,
            total: self.total,
        }
    }
}

} // verus!

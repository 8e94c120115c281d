use vstd::prelude::*;
use crate::dto::{Direction, PageQueryParam};

verus! {

pub open spec fn min_int(a: int, b: int) -> int {
    if a <= b { a } else { b }
}

/// Index of the first row of page `page_num` (zero-based) in a result of `len` rows.
pub open spec fn page_start(len: int, page_num: int, page_size: int) -> int {
    min_int(page_num * page_size, len)
}

/// Index one past the last row of page `page_num` in a result of `len` rows.
pub open spec fn page_end(len: int, page_num: int, page_size: int) -> int {
    min_int(page_num * page_size + page_size, len)
}

/// The rows of page `page_num` of `rows`.
pub open spec fn page_of<T>(rows: Seq<T>, page_num: int, page_size: int) -> Seq<T> {
    rows.subrange(
        page_start(rows.len() as int, page_num, page_size),
        page_end(rows.len() as int, page_num, page_size),
    )
}

/// The direction a page query sorts in: the one asked for, ascending when absent.
pub open spec fn direction_of(param: PageQueryParam) -> Direction {
    match param.sort_direction {
        Some(d) => d,
        None => Direction::ASC,
    }
}

/// Row offset of a page, as the database paginator computes it; `None` when it
/// does not fit in 64 bits.
pub fn page_offset(page_num: u64, page_size: u64) -> (r: Option<u64>)
    ensures
        page_num * page_size <= u64::MAX ==> r == Some((page_num * page_size) as u64),
        page_num * page_size > u64::MAX ==> r is None,
{
    page_num.checked_mul(page_size)
}

/// Bounds of page `page_num` within a result of `len` rows.
pub fn page_bounds(len: usize, page_num: u64, page_size: u64) -> (r: (usize, usize))
    ensures
        r.0 == page_start(len as int, page_num as int, page_size as int),
        r.1 == page_end(len as int, page_num as int, page_size as int),
        r.0 <= r.1 <= len,
{
    match page_offset(page_num, page_size) {
        None => {
            assert(page_num * page_size + page_size >= page_num * page_size) by (nonlinear_arith)
                requires page_size >= 0;
            (len, len)
        },
        Some(offset) => {
            assert(page_num * page_size + page_size >= page_num * page_size) by (nonlinear_arith)
                requires page_size >= 0;
            if offset >= len as u64 {
                (len, len)
            } else {
                let start = offset as usize;
                let room = len - start;
                if page_size >= room as u64 {
                    (start, len)
                } else {
                    (start, start + page_size as usize)
                }
            }
        },
    }
}

/// The ordering a page query asks for: the sort column with its direction, or
/// `None` for the database's own order.
pub fn sort_plan(param: &PageQueryParam) -> (r: Option<(String, Direction)>)
    ensures
        param.sort_by is None ==> r is None,
        param.sort_by is Some ==> r is Some && r.unwrap().0@ == param.sort_by.unwrap()@
            && r.unwrap().1 == direction_of(*param),
{
    match &param.sort_by {
        None => None,
        Some(col) => {
            let dir = match param.sort_direction {
                Some(d) => d,
                None => Direction::ASC,
            };
            Some((col.clone(), dir))
        },
    }
}

/// A page never holds more rows than the page size.
pub proof fn lemma_page_len_bounded<T>(rows: Seq<T>, page_num: nat, page_size: nat)
    ensures
        page_of(rows, page_num as int, page_size as int).len() <= page_size,
{
    assert(page_num * page_size >= 0) by (nonlinear_arith)
        requires page_num >= 0, page_size >= 0;
}

} // verus!

//! Page-by-page views of a ranked sequence.

use vstd::prelude::*;
use crate::types::LeaderboardEntry;

verus! {

/// The index of the first element of page `page`.
pub open spec fn page_start(page: u32, page_size: u32) -> int {
    page * page_size
}

/// The index just past the last element of page `page` of a sequence of
/// `len` elements.
pub open spec fn page_end(len: int, page: u32, page_size: u32) -> int {
    if page_start(page, page_size) + page_size <= len {
        page_start(page, page_size) + page_size
    } else {
        len
    }
}

/// Page `page` of `s`, with `page_size` elements to a page: the elements
/// from `page * page_size` up to `page_size` further, as far as `s` reaches,
/// and nothing where the page starts at or after the end of `s`.
pub open spec fn paginate_spec<T>(s: Seq<T>, page: u32, page_size: u32) -> Seq<T> {
    if page_start(page, page_size) >= s.len() {
        Seq::empty()
    } else {
        s.subrange(page_start(page, page_size), page_end(s.len() as int, page, page_size))
    }
}

/// The number of elements on page `page` of a sequence of `len` elements.
pub open spec fn page_len(len: int, page: u32, page_size: u32) -> int {
    let rest = if len - page_start(page, page_size) > 0 {
        len - page_start(page, page_size)
    } else {
        0
    };
    if page_size <= rest {
        page_size as int
    } else {
        rest
    }
}

/// A page holds `min(page_size, max(0, len - page * page_size))` elements,
/// none where `page * page_size >= len`, and its `k`-th element is the
/// element `page * page_size + k` of the sequence.
pub proof fn lemma_paginate_len<T>(s: Seq<T>, page: u32, page_size: u32)
    ensures
        paginate_spec(s, page, page_size).len() == page_len(s.len() as int, page, page_size),
        page_start(page, page_size) >= s.len() ==> paginate_spec(s, page, page_size).len() == 0,
        page_size == 0 ==> paginate_spec(s, page, page_size).len() == 0,
        forall|k: int|
            0 <= k < paginate_spec(s, page, page_size).len() ==> paginate_spec(
                s,
                page,
                page_size,
            )[k] == s[page_start(page, page_size) + k],
{
    assert(page_start(page, page_size) >= 0) by (nonlinear_arith);
}

/// The bounds of page `page` within a sequence of `len` elements: `None`
/// where the page is empty, else the first index and the index past the
/// last.
pub fn page_bounds(len: usize, page: u32, page_size: u32) -> (bounds: Option<(usize, usize)>)
    ensures
        match bounds {
            Some((start, end)) => {
                &&& page_start(page, page_size) < len
                &&& page_size > 0
                &&& start == page_start(page, page_size)
                &&& end == page_end(len as int, page, page_size)
                &&& start < end <= len
            },
            None => page_start(page, page_size) >= len || page_size == 0,
        },
{
    assert(0 <= page * page_size <= 0xFFFF_FFFF * 0xFFFF_FFFF) by (nonlinear_arith)
        requires
            0 <= page <= 0xFFFF_FFFF,
            0 <= page_size <= 0xFFFF_FFFF,
    ;
    let start: u64 = widen(page) * widen(page_size);
    if page_size == 0 || start >= len as u64 {
        return None;
    }
    let stop: u64 = start + widen(page_size);
    let first: usize = start as usize;
    if stop >= len as u64 {
        Some((first, len))
    } else {
        Some((first, stop as usize))
    }
}

/// `x` as a 64-bit number.
fn widen(x: u32) -> (w: u64)
    ensures
        w == x,
{
    x as u64
}

/// Page `page` of `entries`, with `page_size` entries to a page. A page
/// past the end is empty, and so is every page of size 0.
pub fn paginate(entries: &Vec<LeaderboardEntry>, page: u32, page_size: u32) -> (result: Vec<
    LeaderboardEntry,
>)
    ensures
        result.deep_view() == paginate_spec(entries.deep_view(), page, page_size),
        result.len() == page_len(entries.len() as int, page, page_size),
{
    let mut result: Vec<LeaderboardEntry> = Vec::new();
    proof {
        lemma_paginate_len(entries.deep_view(), page, page_size);
    }
    match page_bounds(entries.len(), page, page_size) {
        Some((start, end)) => {
            let mut i: usize = start;
            while i < end
                invariant
                    start <= i <= end <= entries.len(),
                    result.len() == i - start,
                    forall|k: int| 0 <= k < i - start ==> result[k]@ == entries[start + k]@,
                decreases end - i,
            {
                result.push(entries[i].clone());
                i += 1;
            }
            assert(result.deep_view() =~= paginate_spec(entries.deep_view(), page, page_size));
        },
        None => {
            assert(result.deep_view() =~= paginate_spec(entries.deep_view(), page, page_size));
        },
    }
    result
}

} // verus!

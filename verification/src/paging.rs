//! Pages of a listing.
//!
//! Page `page` of a listing cut into pages of `page_size` items holds the
//! items at positions `page * page_size` up to, and not including,
//! `page * page_size + page_size`, as far as the listing has them.

use vstd::prelude::*;

verus! {

/// Position of the first item of the page, or `len` where the page starts
/// past the end of the listing.
pub open spec fn page_start(len: nat, page: nat, page_size: nat) -> nat {
    if page * page_size <= len {
        page * page_size
    } else {
        len
    }
}

/// Position one past the last item of the page, or `len` where the page
/// reaches past the end of the listing.
pub open spec fn page_end(len: nat, page: nat, page_size: nat) -> nat {
    if page * page_size + page_size <= len {
        page * page_size + page_size
    } else {
        len
    }
}

/// The items of one page, in the order of the listing.
pub open spec fn page_of<T>(items: Seq<T>, page: nat, page_size: nat) -> Seq<T> {
    items.subrange(
        page_start(items.len(), page, page_size) as int,
        page_end(items.len(), page, page_size) as int,
    )
}

/// Computes the two positions that bound a page of a listing of `len` items.
pub fn page_bounds(len: usize, page: usize, page_size: usize) -> (bounds: (usize, usize))
    ensures
        bounds.0 == page_start(len as nat, page as nat, page_size as nat),
        bounds.1 == page_end(len as nat, page as nat, page_size as nat),
        bounds.0 <= bounds.1 <= len,
{
    match page.checked_mul(page_size) {
        Some(start) => {
            if start >= len {
                (len, len)
            } else if page_size >= len - start {
                (start, len)
            } else {
                (start, start + page_size)
            }
        },
        None => (len, len),
    }
}

/// Cuts a listing down to one of its pages.
pub fn paginate<T>(items: Vec<T>, page: usize, page_size: usize) -> (result: Vec<T>)
    ensures
        result@ == page_of(items@, page as nat, page_size as nat),
{
    let mut items = items;
    let (start, end) = page_bounds(items.len(), page, page_size);
    items.truncate(end);
    items.split_off(start)
}

/// A page holds at most `page_size` items, and a page that starts at or
/// past the end of the listing is empty.
pub proof fn lemma_page_size<T>(items: Seq<T>, page: nat, page_size: nat)
    ensures
        page_of(items, page, page_size).len() <= page_size,
        page * page_size >= items.len() ==> page_of(items, page, page_size).len() == 0,
        page * page_size + page_size <= items.len() ==> page_of(items, page, page_size).len()
            == page_size,
{
}

/// Each item of a page is the item of the listing at the page's offset.
pub proof fn lemma_page_item<T>(items: Seq<T>, page: nat, page_size: nat, i: int)
    requires
        0 <= i < page_of(items, page, page_size).len(),
    ensures
        page * page_size + i < items.len(),
        page_of(items, page, page_size)[i] == items[page * page_size + i],
{
}

/// Every item of the listing is on one page: the item at position `i` is
/// the item at `i % page_size` of page `i / page_size`.
pub proof fn lemma_item_page<T>(items: Seq<T>, page_size: nat, i: int)
    requires
        page_size > 0,
        0 <= i < items.len(),
    ensures
        0 <= i / (page_size as int),
        0 <= i % (page_size as int) < page_of(items, (i / (page_size as int)) as nat, page_size).len(),
        page_of(items, (i / (page_size as int)) as nat, page_size)[i % (page_size as int)]
            == items[i],
{
    let size = page_size as int;
    let page = i / size;
    let offset = i % size;
    vstd::arithmetic::div_mod::lemma_fundamental_div_mod(i, size);
    vstd::arithmetic::div_mod::lemma_mod_bound(i, size);
    vstd::arithmetic::div_mod::lemma_div_pos_is_pos(i, size);
    assert(size * page == page * size) by (nonlinear_arith);
    assert(i == page * size + offset);
}

} // verus!

use legal_records::paging::{page_bounds, paginate};

#[test]
fn pages_of_two_over_five_items() {
    let items = vec![1, 2, 3, 4, 5];
    assert_eq!(paginate(items.clone(), 0, 2), vec![1, 2]);
    assert_eq!(paginate(items.clone(), 1, 2), vec![3, 4]);
    assert_eq!(paginate(items.clone(), 2, 2), vec![5]);
    assert_eq!(paginate(items.clone(), 3, 2), Vec::<i32>::new());
}

#[test]
fn a_page_of_size_zero_is_empty() {
    assert_eq!(paginate(vec![1, 2, 3], 0, 0), Vec::<i32>::new());
    assert_eq!(paginate(vec![1, 2, 3], 7, 0), Vec::<i32>::new());
}

#[test]
fn a_page_larger_than_the_listing_holds_all_of_it() {
    assert_eq!(paginate(vec![1, 2, 3], 0, 10), vec![1, 2, 3]);
    assert_eq!(paginate(vec![1, 2, 3], 0, usize::MAX), vec![1, 2, 3]);
    assert_eq!(paginate(vec![1, 2, 3], 1, usize::MAX), Vec::<i32>::new());
}

#[test]
fn a_page_of_an_empty_listing_is_empty() {
    assert_eq!(paginate(Vec::<i32>::new(), 0, 5), Vec::<i32>::new());
}

#[test]
fn a_page_too_far_to_count_is_empty() {
    assert_eq!(paginate(vec![1, 2, 3], usize::MAX, 2), Vec::<i32>::new());
    assert_eq!(paginate(vec![1, 2, 3], usize::MAX, usize::MAX), Vec::<i32>::new());
    assert_eq!(paginate(vec![1, 2, 3], usize::MAX / 2 + 1, 2), Vec::<i32>::new());
}

#[test]
fn bounds_of_pages() {
    assert_eq!(page_bounds(5, 0, 2), (0, 2));
    assert_eq!(page_bounds(5, 2, 2), (4, 5));
    assert_eq!(page_bounds(5, 3, 2), (5, 5));
    assert_eq!(page_bounds(5, 1, 5), (5, 5));
    assert_eq!(page_bounds(5, 0, 5), (0, 5));
    assert_eq!(page_bounds(0, 0, 1), (0, 0));
    assert_eq!(page_bounds(10, usize::MAX, 3), (10, 10));
    assert_eq!(page_bounds(usize::MAX, 1, usize::MAX - 1), (usize::MAX - 1, usize::MAX));
}

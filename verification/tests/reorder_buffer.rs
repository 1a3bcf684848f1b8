//! The reorder buffer releases out-of-order completions in index order.
use rustbag::reorder::ReorderBuffer;

#[test]
fn releases_in_index_order() {
    let mut buf: ReorderBuffer<&str> = ReorderBuffer::new();
    buf.insert(2, "two");
    buf.insert(0, "zero");
    buf.insert(1, "one");
    assert_eq!(buf.pending_len(), 3);
    assert_eq!(buf.pop_ready(), Some((0, "zero")));
    assert_eq!(buf.pop_ready(), Some((1, "one")));
    assert_eq!(buf.pop_ready(), Some((2, "two")));
    assert_eq!(buf.pop_ready(), None);
    assert_eq!(buf.pending_len(), 0);
}

#[test]
fn waits_for_the_next_index() {
    let mut buf: ReorderBuffer<u64> = ReorderBuffer::new();
    buf.insert(1, 11);
    // Index 0 has not arrived: nothing can be released yet.
    assert_eq!(buf.pop_ready(), None);
    buf.insert(0, 10);
    assert_eq!(buf.pop_ready(), Some((0, 10)));
    assert_eq!(buf.pop_ready(), Some((1, 11)));
    assert_eq!(buf.pop_ready(), None);
}

use j2ds::RingBuffer;

#[test]
fn test_singles() {
    let mut rb = RingBuffer::new(5, 0u8);
    assert_eq!(rb.pop_front(), None);
    assert!(rb.push_back(1));
    assert!(rb.push_back(2));
    assert!(rb.push_back(3));
    assert!(rb.push_back(4));
    assert!(rb.push_back(5));
    assert!(!rb.push_back(6));

    assert_eq!(rb.pop_front(), Some(1));
    assert_eq!(rb.pop_front(), Some(2));
    assert_eq!(rb.peek_front(), Some(3));
    assert_eq!(rb.pop_front(), Some(3));
    assert_eq!(rb.pop_front(), Some(4));
    assert_eq!(rb.pop_front(), Some(5));
    assert_eq!(rb.pop_front(), None);

    assert!(rb.push_back(7));
    assert!(rb.push_back(8));
    assert!(rb.push_back(9));
    assert_eq!(rb.pop_front(), Some(7));
    assert_eq!(rb.pop_front(), Some(8));
    assert_eq!(rb.pop_front(), Some(9));
    assert_eq!(rb.pop_front(), None);
}

#[test]
fn test_slices() {
    let mut rb = RingBuffer::new(5, 0u8);

    let mut buf1 = [0u8; 1];
    let mut buf2 = [0u8; 2];
    let mut buf3 = [0u8; 3];

    assert!(!rb.pop_front_slice(&mut buf2));
    assert!(rb.push_back_slice(&[1, 2, 3]));
    assert!(!rb.push_back_slice(&[4, 5, 6]));
    assert!(rb.pop_front_slice(&mut buf2));
    assert_eq!(buf2, [1, 2]);
    assert!(rb.push_back_slice(&[7, 8]));
    assert!(rb.pop_front_slice(&mut buf2));
    assert_eq!(buf2, [3, 7]);
    assert!(!rb.pop_front_slice(&mut buf2));
    assert!(rb.pop_front_slice(&mut buf1));
    assert_eq!(buf1, [8]);

    for i in 0..100 {
        if i % 2 == 0 {
            assert!(rb.push_back_slice(&[1, 2, 3]));
            assert!(rb.pop_front_slice(&mut buf2));

            assert_eq!(rb.len(), 1);
            assert_eq!(rb.capacity(), 4);
        } else {
            assert!(rb.push_back_slice(&[4, 5]));
            assert!(rb.pop_front_slice(&mut buf3));
            assert_eq!(rb.len(), 0);
            assert_eq!(rb.capacity(), 5);
        }
    }
}

#[test]
fn new_buffer_is_empty() {
    let rb = RingBuffer::new(7, 0u32);
    assert_eq!(rb.len(), 0);
    assert_eq!(rb.capacity(), 7);
    assert_eq!(rb.max_len(), 7);
    assert_eq!(rb.peek_front(), None);
}

#[test]
fn zero_sized_buffer_takes_nothing() {
    let mut rb = RingBuffer::new(0, 0u8);
    assert_eq!(rb.max_len(), 0);
    assert_eq!(rb.capacity(), 0);
    assert!(!rb.push_back(1));
    assert_eq!(rb.pop_front(), None);
    assert!(rb.push_back_slice(&[]));
    let mut none: [u8; 0] = [];
    assert!(rb.pop_front_slice(&mut none));
    assert_eq!(rb.len(), 0);
}

#[test]
fn pops_come_in_push_order() {
    let mut rb = RingBuffer::new(4, 0u16);
    assert!(rb.push_back(10));
    assert!(rb.push_back(20));
    assert!(rb.push_back_slice(&[30, 40]));
    assert_eq!(rb.pop_front(), Some(10));
    assert_eq!(rb.pop_front(), Some(20));
    assert_eq!(rb.pop_front(), Some(30));
    assert_eq!(rb.pop_front(), Some(40));
    assert_eq!(rb.pop_front(), None);
}

#[test]
fn len_and_capacity_add_up_to_max_len() {
    let mut rb = RingBuffer::new(3, 0u8);
    assert_eq!(rb.len() + rb.capacity(), rb.max_len());
    let mut round: u32 = 0;
    while round < 20 {
        rb.push_back(1);
        assert_eq!(rb.len() + rb.capacity(), rb.max_len());
        rb.push_back_slice(&[2, 3]);
        assert_eq!(rb.len() + rb.capacity(), rb.max_len());
        rb.pop_front();
        assert_eq!(rb.len() + rb.capacity(), rb.max_len());
        let mut two = [0u8; 2];
        rb.pop_front_slice(&mut two);
        assert_eq!(rb.len() + rb.capacity(), rb.max_len());
        assert_eq!(rb.max_len(), 3);
        round += 1;
    }
}

#[test]
fn push_beyond_capacity_fails_and_keeps_contents() {
    let mut rb = RingBuffer::new(3, 0u8);
    assert!(rb.push_back(1));
    assert!(rb.push_back(2));
    assert!(rb.push_back(3));
    assert_eq!(rb.len(), 3);
    assert_eq!(rb.capacity(), 0);
    assert!(!rb.push_back(4));
    assert_eq!(rb.len(), 3);
    let mut out = [0u8; 3];
    assert!(rb.pop_front_slice(&mut out));
    assert_eq!(out, [1, 2, 3]);
}

#[test]
fn bulk_push_that_does_not_fit_changes_nothing() {
    let mut rb = RingBuffer::new(4, 0u8);
    assert!(rb.push_back_slice(&[1, 2, 3]));
    assert!(!rb.push_back_slice(&[4, 5]));
    assert_eq!(rb.len(), 3);
    assert_eq!(rb.capacity(), 1);
    let mut out = [0u8; 3];
    assert!(rb.pop_front_slice(&mut out));
    assert_eq!(out, [1, 2, 3]);
    assert_eq!(rb.pop_front(), None);
}

#[test]
fn bulk_pop_that_asks_too_much_changes_nothing() {
    let mut rb = RingBuffer::new(4, 0u8);
    assert!(rb.push_back_slice(&[1, 2]));
    let mut out = [9u8; 3];
    assert!(!rb.pop_front_slice(&mut out));
    assert_eq!(out, [9, 9, 9]);
    assert_eq!(rb.len(), 2);
    assert_eq!(rb.pop_front(), Some(1));
    assert_eq!(rb.pop_front(), Some(2));
}

#[test]
fn bulk_push_and_pop_fill_to_the_brim() {
    let mut rb = RingBuffer::new(3, 0u8);
    assert!(rb.push_back_slice(&[1, 2, 3]));
    assert_eq!(rb.capacity(), 0);
    let mut out = [0u8; 3];
    assert!(rb.pop_front_slice(&mut out));
    assert_eq!(out, [1, 2, 3]);
    assert_eq!(rb.capacity(), 3);
}

#[test]
fn slice_round_trip() {
    let mut rb = RingBuffer::new(8, 0i32);
    let data = [5, -4, 3, -2, 1];
    assert!(rb.push_back_slice(&data));
    let mut out = [0i32; 5];
    assert!(rb.pop_front_slice(&mut out));
    assert_eq!(out, data);
    assert_eq!(rb.len(), 0);
}

#[test]
fn slice_round_trip_across_the_wrap() {
    let mut rb = RingBuffer::new(4, 0u8);
    assert!(rb.push_back_slice(&[1, 2, 3]));
    let mut three = [0u8; 3];
    assert!(rb.pop_front_slice(&mut three));
    assert!(rb.push_back_slice(&[4, 5, 6, 7]));
    assert_eq!(rb.len(), 4);
    assert_eq!(rb.peek_front(), Some(4));
    let mut four = [0u8; 4];
    assert!(rb.pop_front_slice(&mut four));
    assert_eq!(four, [4, 5, 6, 7]);
}

#[test]
fn peek_leaves_the_queue_alone() {
    let mut rb = RingBuffer::new(2, 0u8);
    assert!(rb.push_back(42));
    assert_eq!(rb.peek_front(), Some(42));
    assert_eq!(rb.peek_front(), Some(42));
    assert_eq!(rb.len(), 1);
    assert_eq!(rb.pop_front(), Some(42));
    assert_eq!(rb.peek_front(), None);
}

#[test]
fn holds_values_that_are_cloned() {
    let mut rb = RingBuffer::new(2, String::new());
    assert!(rb.push_back(String::from("a")));
    assert!(rb.push_back_slice(&[String::from("b")]));
    assert_eq!(rb.peek_front(), Some(String::from("a")));
    let mut out = [String::new(), String::new()];
    assert!(rb.pop_front_slice(&mut out));
    assert_eq!(out, [String::from("a"), String::from("b")]);
}

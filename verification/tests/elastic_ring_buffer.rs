use j2ds::{ElasticPopResult, ElasticRingBuffer};

#[test]
fn test_elastic_exact() {
    let mut erb = ElasticRingBuffer::new(5, 0u8, 3);

    erb.push_back_slice(&[1, 2, 3, 4]);

    let mut buf4 = [0; 4];
    erb.pop_front_slice(&mut buf4);
    assert_eq!(buf4, [1, 2, 3, 4]);
}

#[test]
fn test_elastic_empty() {
    let mut erb = ElasticRingBuffer::new(5, 0u8, 3);

    erb.push_back_slice(&[1, 2, 3, 4]);
    let mut buf4 = [0; 4];
    erb.pop_front_slice(&mut buf4);

    erb.pop_front_slice(&mut buf4);
    assert_eq!(buf4, [0, 0, 0, 0]);
}

#[test]
fn test_elastic_upscale() {
    let mut erb = ElasticRingBuffer::new(5, 0u8, 3);

    erb.push_back_slice(&[1, 2]);
    let mut buf4 = [0; 4];
    erb.pop_front_slice(&mut buf4);

    assert_eq!(buf4, [1, 1, 2, 2]);
}

#[test]
fn test_elastic_downscale() {
    let mut erb = ElasticRingBuffer::new(20, 0u8, 8);

    erb.push_back_slice(&[1, 2, 3, 4, 5, 6, 7, 8, 9, 10, 11, 12]);
    let mut buf4 = [0; 4];
    erb.pop_front_slice(&mut buf4);

    assert_eq!(buf4, [1, 3, 5, 7]);
    assert!(erb.len() <= erb.ideal_max());
}

#[test]
fn new_elastic_buffer_is_empty() {
    let erb = ElasticRingBuffer::new(5, 0u8, 3);
    assert_eq!(erb.len(), 0);
    assert_eq!(erb.capacity(), 5);
    assert_eq!(erb.max_len(), 5);
    assert_eq!(erb.ideal_max(), 3);
}

#[test]
fn pushes_behave_as_on_the_plain_buffer() {
    let mut erb = ElasticRingBuffer::new(3, 0u8, 3);
    assert!(erb.push_back(1));
    assert!(erb.push_back_slice(&[2, 3]));
    assert!(!erb.push_back(4));
    assert!(!erb.push_back_slice(&[4]));
    assert_eq!(erb.len(), 3);
    assert_eq!(erb.capacity(), 0);
    assert_eq!(erb.len() + erb.capacity(), erb.max_len());
    let mut out = [0u8; 3];
    assert_eq!(erb.pop_front_slice(&mut out), ElasticPopResult::Exact);
    assert_eq!(out, [1, 2, 3]);
}

#[test]
fn empty_buffer_gives_default_values() {
    let mut erb = ElasticRingBuffer::new(5, 7u8, 3);
    let mut out = [0u8; 4];
    assert_eq!(erb.pop_front_slice(&mut out), ElasticPopResult::Empty);
    assert_eq!(out, [7, 7, 7, 7]);
    assert_eq!(erb.len(), 0);
}

#[test]
fn empty_request_on_empty_buffer() {
    let mut none: [u8; 0] = [];
    let mut erb = ElasticRingBuffer::new(5, 7u8, 0);
    assert_eq!(erb.pop_front_slice(&mut none), ElasticPopResult::Empty);
    assert_eq!(erb.len(), 0);
    let mut erb = ElasticRingBuffer::new(5, 7u8, 3);
    assert_eq!(erb.pop_front_slice(&mut none), ElasticPopResult::Exact);
    assert_eq!(erb.len(), 0);
}

#[test]
fn exact_supply_below_the_ideal_max() {
    let mut erb = ElasticRingBuffer::new(5, 0u8, 3);
    assert!(erb.push_back_slice(&[1, 2, 3, 4]));
    let mut out = [0u8; 4];
    assert_eq!(erb.pop_front_slice(&mut out), ElasticPopResult::Exact);
    assert_eq!(out, [1, 2, 3, 4]);
    assert_eq!(erb.len(), 0);
}

#[test]
fn exact_when_one_less_than_the_ideal_max_is_left() {
    let mut erb = ElasticRingBuffer::new(10, 0u8, 3);
    assert!(erb.push_back_slice(&[1, 2, 3, 4]));
    let mut out = [0u8; 2];
    assert_eq!(erb.pop_front_slice(&mut out), ElasticPopResult::Exact);
    assert_eq!(out, [1, 2]);
    assert_eq!(erb.len(), 2);
}

#[test]
fn downsampled_when_the_ideal_max_would_be_left() {
    let mut erb = ElasticRingBuffer::new(10, 0u8, 3);
    assert!(erb.push_back_slice(&[1, 2, 3, 4, 5]));
    let mut out = [0u8; 2];
    assert_eq!(erb.pop_front_slice(&mut out), ElasticPopResult::Downsampled(4));
    assert_eq!(out, [1, 3]);
    assert_eq!(erb.len(), 1);
    let mut rest = [0u8; 1];
    assert_eq!(erb.pop_front_slice(&mut rest), ElasticPopResult::Exact);
    assert_eq!(rest, [5]);
}

#[test]
fn upsampled_reports_what_was_there() {
    let mut erb = ElasticRingBuffer::new(5, 0u8, 3);
    assert!(erb.push_back_slice(&[1, 2]));
    let mut out = [0u8; 4];
    assert_eq!(erb.pop_front_slice(&mut out), ElasticPopResult::Upsampled(2));
    assert_eq!(out, [1, 1, 2, 2]);
    assert_eq!(erb.len(), 0);
}

#[test]
fn upsampling_spreads_unevenly_when_it_must() {
    let mut erb = ElasticRingBuffer::new(5, 0u8, 5);
    assert!(erb.push_back_slice(&[1, 2, 3]));
    let mut out = [0u8; 5];
    assert_eq!(erb.pop_front_slice(&mut out), ElasticPopResult::Upsampled(3));
    assert_eq!(out, [1, 1, 2, 2, 3]);
}

#[test]
fn downsampled_reports_what_was_taken() {
    let mut erb = ElasticRingBuffer::new(20, 0u8, 8);
    assert!(erb.push_back_slice(&[1, 2, 3, 4, 5, 6, 7, 8, 9, 10, 11, 12]));
    let mut out = [0u8; 4];
    assert_eq!(erb.pop_front_slice(&mut out), ElasticPopResult::Downsampled(8));
    assert_eq!(out, [1, 3, 5, 7]);
    assert_eq!(erb.len(), 4);
    assert_eq!(erb.ideal_max(), 8);
    assert_eq!(erb.pop_front_slice(&mut out), ElasticPopResult::Exact);
    assert_eq!(out, [9, 10, 11, 12]);
}

#[test]
fn downsampling_skips_unevenly_when_it_must() {
    let mut erb = ElasticRingBuffer::new(10, 0u8, 3);
    assert!(erb.push_back_slice(&[1, 2, 3, 4, 5, 6, 7, 8]));
    let mut out = [0u8; 3];
    assert_eq!(erb.pop_front_slice(&mut out), ElasticPopResult::Downsampled(8));
    assert_eq!(out, [1, 3, 6]);
    assert_eq!(erb.len(), 0);
}

#[test]
fn empty_request_drains_down_to_the_ideal_max() {
    let mut none: [u8; 0] = [];
    let mut erb = ElasticRingBuffer::new(10, 0u8, 3);
    assert!(erb.push_back_slice(&[1, 2, 3, 4, 5]));
    assert_eq!(erb.pop_front_slice(&mut none), ElasticPopResult::Downsampled(2));
    assert_eq!(erb.len(), 3);
    assert_eq!(erb.pop_front_slice(&mut none), ElasticPopResult::Empty);
    assert_eq!(erb.len(), 3);
    let mut out = [0u8; 3];
    assert_eq!(erb.pop_front_slice(&mut out), ElasticPopResult::Exact);
    assert_eq!(out, [3, 4, 5]);
}

#[test]
fn sampling_reads_across_the_wrap() {
    let mut erb = ElasticRingBuffer::new(4, 0u8, 4);
    assert!(erb.push_back_slice(&[1, 2, 3]));
    let mut three = [0u8; 3];
    assert_eq!(erb.pop_front_slice(&mut three), ElasticPopResult::Exact);
    assert!(erb.push_back_slice(&[4, 5, 6]));
    let mut out = [0u8; 6];
    assert_eq!(erb.pop_front_slice(&mut out), ElasticPopResult::Upsampled(3));
    assert_eq!(out, [4, 4, 5, 5, 6, 6]);
    assert_eq!(erb.len(), 0);
    assert_eq!(erb.capacity(), 4);
}

#[test]
fn occupancy_is_at_most_the_ideal_max_after_a_pop() {
    let mut erb = ElasticRingBuffer::new(16, 0u8, 4);
    let mut out = [0u8; 3];
    let mut round: u32 = 0;
    while round < 30 {
        erb.push_back_slice(&[1, 2, 3, 4, 5]);
        if round % 3 == 0 {
            erb.push_back_slice(&[6, 7, 8, 9]);
        }
        erb.pop_front_slice(&mut out);
        assert!(erb.len() <= erb.ideal_max());
        assert_eq!(erb.len() + erb.capacity(), erb.max_len());
        round += 1;
    }
}

#[test]
fn request_above_the_ideal_max_takes_no_more_than_is_queued() {
    let mut erb = ElasticRingBuffer::new(5, 0u8, 1);
    assert!(erb.push_back_slice(&[1, 2, 3, 4, 5]));
    let mut three = [0u8; 3];
    assert_eq!(erb.pop_front_slice(&mut three), ElasticPopResult::Downsampled(5));
    assert_eq!(three, [1, 2, 4]);
    assert_eq!(erb.len(), 0);
    assert_eq!(erb.capacity(), 5);
    assert_eq!(erb.len() + erb.capacity(), erb.max_len());
    assert!(erb.push_back(6));
    let mut one = [0u8; 1];
    assert_eq!(erb.pop_front_slice(&mut one), ElasticPopResult::Exact);
    assert_eq!(one, [6]);
}

#[test]
fn request_above_the_ideal_max_with_a_backlog() {
    let mut erb = ElasticRingBuffer::new(20, 0u8, 3);
    assert!(erb.push_back_slice(&[1, 2, 3, 4, 5, 6, 7, 8, 9, 10]));
    let mut four = [0u8; 4];
    assert_eq!(erb.pop_front_slice(&mut four), ElasticPopResult::Downsampled(10));
    assert_eq!(four, [1, 3, 6, 8]);
    assert_eq!(erb.len(), 0);
    assert_eq!(erb.capacity(), 20);

    assert!(erb.push_back_slice(&[1, 2, 3, 4, 5, 6, 7, 8, 9, 10]));
    let mut seven = [0u8; 7];
    assert_eq!(erb.pop_front_slice(&mut seven), ElasticPopResult::Downsampled(10));
    assert_eq!(seven, [1, 2, 3, 5, 6, 8, 9]);
    assert_eq!(erb.len(), 0);
}

#[test]
fn request_up_to_the_ideal_max_takes_the_surplus_along() {
    let mut erb = ElasticRingBuffer::new(20, 0u8, 2);
    assert!(erb.push_back_slice(&[1, 2, 3, 4, 5, 6, 7, 8, 9, 10]));
    let mut two = [0u8; 2];
    assert_eq!(erb.pop_front_slice(&mut two), ElasticPopResult::Downsampled(10));
    assert_eq!(two, [1, 6]);
    assert_eq!(erb.len(), 0);
}

#[test]
fn threshold_above_the_size_never_drops() {
    let mut erb = ElasticRingBuffer::new(4, 0u8, 9);
    assert_eq!(erb.ideal_max(), 9);
    assert!(erb.push_back_slice(&[1, 2, 3, 4]));
    let mut one = [0u8; 1];
    assert_eq!(erb.pop_front_slice(&mut one), ElasticPopResult::Exact);
    assert_eq!(one, [1]);
    assert_eq!(erb.len(), 3);
}

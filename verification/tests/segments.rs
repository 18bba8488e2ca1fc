use componentize_py::segments::{all_segments, Segments};

fn restore(len: usize, segments: &[(usize, usize)], image: &[u8]) -> Vec<u8> {
    let mut memory = vec![0; len];
    for (start, length) in segments {
        memory[*start..][..*length].copy_from_slice(&image[*start..][..*length]);
    }
    memory
}

fn image(parts: &[(usize, &[u8])], len: usize) -> Vec<u8> {
    let mut bytes = vec![0; len];
    for (at, data) in parts {
        bytes[*at..][..data.len()].copy_from_slice(data);
    }
    bytes
}

#[test]
fn an_empty_image_has_no_segment() {
    let mut segments = Segments::new(&[]);
    assert_eq!(segments.next(), None);
    assert_eq!(segments.next(), None);
    assert!(all_segments(&[]).is_empty());
}

#[test]
fn zeros_have_no_segment() {
    assert!(all_segments(&[0; 100]).is_empty());
}

#[test]
fn a_short_run_of_zeros_stays_in_a_segment() {
    let bytes = image(&[(0, &[1]), (9, &[2])], 20);
    assert_eq!(all_segments(&bytes), vec![(0, 10)]);
}

#[test]
fn a_long_run_of_zeros_parts_two_segments() {
    let bytes = image(&[(0, &[1]), (10, &[2])], 20);
    assert_eq!(all_segments(&bytes), vec![(0, 1), (10, 1)]);
}

#[test]
fn a_short_run_at_the_start_stays_in_the_segment() {
    let bytes = image(&[(8, &[1, 2])], 30);
    assert_eq!(all_segments(&bytes), vec![(0, 10)]);
}

#[test]
fn a_long_run_at_the_start_is_left_out() {
    let bytes = image(&[(9, &[1, 2])], 30);
    assert_eq!(all_segments(&bytes), vec![(9, 2)]);
}

#[test]
fn segments_come_one_by_one() {
    let bytes = image(&[(3, b"abc"), (40, b"de"), (60, b"f")], 61);
    let mut segments = Segments::new(&bytes);
    assert_eq!(segments.next(), Some((0, 6)));
    assert_eq!(segments.next(), Some((40, 2)));
    assert_eq!(segments.next(), Some((60, 1)));
    assert_eq!(segments.next(), None);
    assert_eq!(all_segments(&bytes), vec![(0, 6), (40, 2), (60, 1)]);
}

#[test]
fn segments_restore_the_image_and_do_not_overlap() {
    let mut state: u32 = 7;
    for round in 0..200 {
        let mut bytes = Vec::new();
        for _ in 0..round {
            state = state.wrapping_mul(1664525).wrapping_add(1013904223);
            let run = (state >> 16) as usize % 14;
            bytes.resize(bytes.len() + run, 0);
            bytes.push((state >> 24) as u8);
        }
        let segments = all_segments(&bytes);
        assert_eq!(restore(bytes.len(), &segments, &bytes), bytes);
        for pair in segments.windows(2) {
            assert!(pair[0].0 + pair[0].1 + 8 < pair[1].0);
        }
        for (start, length) in &segments {
            assert!(*length > 0);
            assert_ne!(bytes[start + length - 1], 0);
        }
    }
}

use laphone::annexb::{nal_starts, NalBuffer};

#[test]
fn finds_three_and_four_byte_codes() {
    let data = [0u8, 0, 1, 0x67, 0, 0, 0, 1, 0x68, 0xaa, 0, 0, 1];
    assert_eq!(nal_starts(&data), vec![0, 4, 10]);
}

#[test]
fn four_byte_code_is_one_start() {
    // the 00 00 01 tail of a four-byte code is not a start of its own
    let data = [0u8, 0, 0, 1, 0x65];
    assert_eq!(nal_starts(&data), vec![0]);
}

#[test]
fn leading_zero_run_points_at_last_four_byte_code() {
    let data = [0u8, 0, 0, 0, 1, 9];
    assert_eq!(nal_starts(&data), vec![1]);
}

#[test]
fn short_or_codeless_input_has_no_start() {
    assert_eq!(nal_starts(&[]), Vec::<usize>::new());
    assert_eq!(nal_starts(&[0, 0]), Vec::<usize>::new());
    assert_eq!(nal_starts(&[0, 0, 2, 0, 1, 0]), Vec::<usize>::new());
    assert_eq!(nal_starts(&[0, 0, 0]), Vec::<usize>::new());
}

#[test]
fn code_at_the_very_end_is_found() {
    assert_eq!(nal_starts(&[7, 0, 0, 1]), vec![1]);
    assert_eq!(nal_starts(&[7, 0, 0, 0, 1]), vec![1]);
}

#[test]
fn buffer_keeps_everything_until_a_start_code() {
    let mut b = NalBuffer::new();
    let nals = b.push(&[1, 2, 3]);
    assert!(nals.is_empty());
    assert_eq!(b.pending_len(), 3);
}

#[test]
fn buffer_drops_bytes_before_the_first_start_code() {
    let mut b = NalBuffer::new();
    let nals = b.push(&[9, 9, 0, 0, 1, 5, 0, 0, 1, 6]);
    assert_eq!(nals, vec![vec![0u8, 0, 1, 5]]);
    assert_eq!(b.pending_len(), 4);
}

#[test]
fn buffer_joins_a_code_split_across_chunks() {
    let mut b = NalBuffer::new();
    assert!(b.push(&[0, 0, 0, 1, 0x67, 1, 2, 0]).is_empty());
    let nals = b.push(&[0, 0, 1, 0x68, 3]);
    // the four-byte code 00 00 00 01 spanned both chunks
    assert_eq!(nals, vec![vec![0u8, 0, 0, 1, 0x67, 1, 2]]);
    assert_eq!(b.pending_len(), 6);
    let nals = b.push(&[0, 0, 1]);
    assert_eq!(nals, vec![vec![0u8, 0, 0, 1, 0x68, 3]]);
    assert_eq!(b.pending_len(), 3);
}

#[test]
fn buffer_split_loses_nothing_after_a_leading_code() {
    let stream: Vec<u8> = vec![0, 0, 1, 1, 0, 0, 0, 1, 2, 2, 0, 0, 1, 3, 0, 0, 1, 4, 4];
    let mut b = NalBuffer::new();
    let mut out: Vec<u8> = Vec::new();
    for chunk in stream.chunks(3) {
        for nal in b.push(chunk) {
            assert!(nal.starts_with(&[0, 0, 1]) || nal.starts_with(&[0, 0, 0, 1]));
            out.extend_from_slice(&nal);
        }
    }
    let rest = b.pending_len();
    assert_eq!(rest, 5);
    out.extend_from_slice(&stream[stream.len() - rest..]);
    assert_eq!(out, stream);
}

#[test]
fn starts_of_a_suffix_are_the_later_starts_moved_back() {
    let data = [5u8, 0, 0, 1, 7, 0, 0, 0, 1, 8, 0, 0, 1];
    let s = nal_starts(&data);
    assert_eq!(s, vec![1, 5, 10]);
    for (m, &k) in s.iter().enumerate() {
        let expect: Vec<usize> = s[m..].iter().map(|p| p - k).collect();
        assert_eq!(nal_starts(&data[k..]), expect);
    }
}

#[test]
fn appending_keeps_earlier_starts() {
    let a = [0u8, 0, 1, 9, 0, 0];
    for b in [&[][..], &[1u8][..], &[0u8, 1][..], &[7u8, 0, 0, 1][..]] {
        let joined = [&a[..], b].concat();
        let sa = nal_starts(&a);
        let sj = nal_starts(&joined);
        assert!(sj.len() >= sa.len());
        assert_eq!(&sj[..sa.len()], &sa[..]);
    }
}

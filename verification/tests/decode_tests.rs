use laphone::decode::{NalOutcome, StreamDecoder};
use openh264::encoder::Encoder;
use openh264::formats::YUVBuffer;

fn encoded_stream(width: usize, height: usize, frames: usize) -> Vec<u8> {
    let mut encoder = Encoder::new().expect("encoder");
    let mut out = Vec::new();
    for i in 0..frames {
        let mut yuv = vec![0u8; width * height * 3 / 2];
        for (k, b) in yuv.iter_mut().enumerate() {
            *b = ((k + i * 7) % 251) as u8;
        }
        let buf = YUVBuffer::from_vec(yuv, width, height);
        out.extend(encoder.encode(&buf).expect("encode").to_vec());
    }
    out
}

#[test]
fn decodes_a_stream_fed_in_chunks() {
    let stream = encoded_stream(64, 48, 3);
    let mut dec = StreamDecoder::new().ok().expect("decoder");
    let mut frames = 0;
    for chunk in stream.chunks(100) {
        for nal in dec.push_chunk(chunk) {
            assert!(nal.starts_with(&[0, 0, 1]) || nal.starts_with(&[0, 0, 0, 1]));
            match dec.decode_nal(&nal) {
                NalOutcome::Frame { width, height } => {
                    assert_eq!((width, height), (64, 48));
                    assert_eq!(dec.tight().len(), 64 * 48 * 3 / 2);
                    frames += 1;
                }
                NalOutcome::NeedMoreData => {}
                NalOutcome::Malformed => panic!("malformed frame"),
                NalOutcome::Failed(e) => panic!("decode error: {}", e.source),
            }
        }
    }
    assert!(frames >= 1);
}

#[test]
fn garbage_gives_no_frame() {
    let mut dec = StreamDecoder::new().ok().expect("decoder");
    let out = dec.decode_nal(&[0, 0, 1, 0xff, 0xff, 0xff, 0xff]);
    assert!(!matches!(out, NalOutcome::Frame { .. }));
    assert_eq!(dec.tight().len(), 0);
}

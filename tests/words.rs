use dxx::{decode_i16s, decode_words, encode_i16s, encode_words};

#[test]
fn decode_two_byte_words_little_endian() {
    let bytes: Vec<u8> = vec![0x01, 0x02, 0xff, 0x7f];
    assert_eq!(decode_words(&bytes, 2), vec![0x0201, 0x7fff]);
}

#[test]
fn decode_drops_partial_word() {
    let bytes: Vec<u8> = vec![1, 0, 0, 0, 9, 9, 9];
    assert_eq!(decode_words(&bytes, 4), vec![1]);
    assert_eq!(decode_words(&bytes[..3], 4), Vec::<u64>::new());
    assert_eq!(decode_i16s(&[0x34, 0x12, 0x56]), vec![0x1234]);
}

#[test]
fn decode_eight_byte_words() {
    let bytes: Vec<u8> = vec![0xef, 0xcd, 0xab, 0x89, 0x67, 0x45, 0x23, 0x01];
    assert_eq!(decode_words(&bytes, 8), vec![0x0123_4567_89ab_cdef]);
}

#[test]
fn encode_words_little_endian() {
    assert_eq!(encode_words(&[0x0201, 0x7fff], 2), vec![0x01, 0x02, 0xff, 0x7f]);
    assert_eq!(encode_words(&[0xdead_beef], 4), vec![0xef, 0xbe, 0xad, 0xde]);
    assert_eq!(encode_words(&[], 8), Vec::<u8>::new());
}

#[test]
fn words_round_trip() {
    let words: Vec<u64> = vec![0, 1, u64::MAX, 1.5f64.to_bits(), (-2.0f64).to_bits()];
    assert_eq!(decode_words(&encode_words(&words, 8), 8), words);
    let words: Vec<u64> = vec![0, 1, u32::MAX as u64, 10000.0f32.to_bits() as u64];
    assert_eq!(decode_words(&encode_words(&words, 4), 4), words);
    let bytes: Vec<u8> = (0..24).map(|b| (b * 37 % 256) as u8).collect();
    assert_eq!(encode_words(&decode_words(&bytes, 4), 4), bytes);
}

#[test]
fn i16_samples_two_complement() {
    assert_eq!(encode_i16s(&[-1, 1, i16::MIN, i16::MAX]), vec![0xff, 0xff, 1, 0, 0, 0x80, 0xff, 0x7f]);
    assert_eq!(decode_i16s(&[0xff, 0xff, 1, 0, 0, 0x80, 0xff, 0x7f]), vec![-1, 1, i16::MIN, i16::MAX]);
}

#[test]
fn i16_samples_round_trip() {
    let samples: Vec<i16> = vec![32767, -13106, 26213, -19660, 0];
    let bytes = encode_i16s(&samples);
    assert_eq!(bytes.len(), 10);
    assert_eq!(decode_i16s(&bytes), samples);
    let std_bytes: Vec<u8> = samples.iter().flat_map(|s| s.to_le_bytes()).collect();
    assert_eq!(bytes, std_bytes);
}

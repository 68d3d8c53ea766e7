use alexa_cli::audio::i16_to_le_bytes;

#[test]
fn i16_to_le_bytes_is_little_endian() {
    let out = i16_to_le_bytes(&[1, -1]);
    assert_eq!(out, vec![0x01, 0x00, 0xFF, 0xFF]);
}

#[test]
fn le_bytes_of_extremes() {
    let out = i16_to_le_bytes(&[i16::MIN, i16::MAX, 0, 256, -256]);
    assert_eq!(
        out,
        vec![0x00, 0x80, 0xFF, 0x7F, 0x00, 0x00, 0x00, 0x01, 0x00, 0xFF]
    );
}

#[test]
fn le_bytes_read_back_to_the_samples() {
    let samples: Vec<i16> = vec![0, 1, -1, 12345, -12345, i16::MIN, i16::MAX];
    let bytes = i16_to_le_bytes(&samples);
    assert_eq!(bytes.len(), 2 * samples.len());
    for (i, s) in samples.iter().enumerate() {
        let back = i16::from_le_bytes([bytes[2 * i], bytes[2 * i + 1]]);
        assert_eq!(back, *s);
    }
}

#[test]
fn le_bytes_of_nothing_is_empty() {
    assert!(i16_to_le_bytes(&[]).is_empty());
}

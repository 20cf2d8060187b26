use d2fileformats::error::FormatError;
use d2fileformats::palette::Palette;

#[test]
fn palette_of_768_bytes() {
    let bytes: Vec<u8> = (0..768u32).map(|i| (i * 7 % 251) as u8).collect();
    let palette = Palette::from(&bytes).unwrap();
    for i in 0..256 {
        assert_eq!(palette.colors[i], [bytes[3 * i], bytes[3 * i + 1], bytes[3 * i + 2]]);
    }
    assert_eq!(palette.colors[0], [0, 7, 14]);
    assert_eq!(palette.colors[255], [bytes[765], bytes[766], bytes[767]]);
}

#[test]
fn bytes_behind_the_colours_are_ignored() {
    let mut bytes = vec![1u8; 768];
    bytes.extend_from_slice(&[9, 9, 9, 9]);
    let palette = Palette::from(&bytes).unwrap();
    assert!(palette.colors.iter().all(|c| *c == [1, 1, 1]));
}

#[test]
fn short_palette_is_truncated() {
    assert_eq!(Palette::from(&[0u8; 767]).err(), Some(FormatError::Truncated));
    assert_eq!(Palette::from(&[]).err(), Some(FormatError::Truncated));
}

use d2fileformats::error::FormatError;

#[test]
fn it_works() {
    assert_eq!(2 + 2, 4);
}

#[test]
fn errors_compare() {
    assert_ne!(FormatError::Truncated, FormatError::Malformed);
}

#[test]
fn errors_have_words() {
    assert_eq!(FormatError::Truncated.message(), "the data ends before the format says it may");
    assert_eq!(
        FormatError::Malformed.message(),
        "a value lies outside the range the format allows"
    );
    assert_eq!(
        FormatError::UnexpectedBlockSize.message(),
        "an isometric block is not 256 bytes long"
    );
}

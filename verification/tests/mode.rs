use compacto::Mode;
use std::str::FromStr;

#[test]
fn the_two_modes_are_named() {
    assert_eq!(Mode::from_str("compress"), Ok(Mode::Compress));
    assert_eq!(Mode::from_str("decompress"), Ok(Mode::Decompress));
    assert_eq!("compress".parse::<Mode>(), Ok(Mode::Compress));
    assert_eq!("decompress".parse::<Mode>(), Ok(Mode::Decompress));
}

#[test]
fn any_other_word_is_no_match() {
    for word in ["", "Compress", "compress ", "c", "decompres", "compressdecompress"] {
        assert_eq!(Mode::from_str(word), Err("no match"), "{:?}", word);
    }
}

#[test]
fn a_mode_runs_the_codec_in_its_direction() {
    assert_eq!(Mode::Compress.apply("5").unwrap(), "[0,[5]]");
    assert_eq!(Mode::Decompress.apply("[0,[5]]").unwrap(), "5");
    assert_eq!(Mode::Decompress.apply("5").unwrap(), "5");
    assert!(matches!(
        Mode::Compress.apply("{"),
        Err(compacto::Error::JSONError(_))
    ));
    assert!(matches!(
        Mode::Decompress.apply("[1,[]]"),
        Err(compacto::Error::UnknownJSONValueRef(_))
    ));
}

use tiny_qr::encoding::{
    detect_character_set, AlphanumericDataEncoder, CharacterSet, Iso8859_1DataEncoder,
    NumericDataEncoder, UnicodeDataEncoder,
};
use tiny_qr::error_correction::ErrorCorrectionLevel;
use tiny_qr::qr_version::Version;


#[test]
fn numeric() {
    let data = "01234567";

    let character_set = detect_character_set(data);
    assert_eq!(character_set, CharacterSet::Numeric);

    let encoder = NumericDataEncoder {
        version: Version { version: 1 },
        error_correction: ErrorCorrectionLevel::Medium,
    };

    let buffer = encoder.encode(data);
    assert_eq!(
        buffer.data(),
        [
            0b00010000, 0b00100000, 0b00001100, 0b01010110, 0b01100001, 0b10000000, 0b11101100,
            0b00010001, 0b11101100, 0b00010001, 0b11101100, 0b00010001, 0b11101100, 0b00010001,
            0b11101100, 0b00010001
        ]
    )
}

#[test]
fn alphanumeric() {
    let data = "HELLO WORLD";
    let encoder = AlphanumericDataEncoder {
        version: Version { version: 1 },
        error_correction: ErrorCorrectionLevel::Quartile,
    };

    let character_set = detect_character_set(data);
    assert_eq!(character_set, CharacterSet::Alphanumeric);

    let buffer = encoder.encode(data);
    assert_eq!(
        buffer.data(),
        [
            0b00100000, 0b01011011, 0b00001011, 0b01111000, 0b11010001, 0b01110010, 0b11011100,
            0b01001101, 0b01000011, 0b01000000, 0b11101100, 0b00010001, 0b11101100
        ]
    )
}

#[test]
fn iso8859_1() {
    let data = "[H@llo w\u{f3}rld]";
    let encoder = Iso8859_1DataEncoder {
        version: Version { version: 2 },
        error_correction: ErrorCorrectionLevel::Quartile,
    };

    let character_set = detect_character_set(data);
    assert_eq!(character_set, CharacterSet::Iso8859_1);

    let buffer = encoder.encode(data);
    assert_eq!(
        buffer.data(),
        [
            64, 213, 180, 132, 6, 198, 198, 242, 7, 127, 55, 38, 198, 69, 208, 236, 17, 236, 17,
            236, 17, 236
        ]
    )
}

#[test]
fn unicode() {
    let data = "I \u{1f493} you";

    let character_set = detect_character_set(data);
    assert_eq!(character_set, CharacterSet::Unicode);

    let encoder = UnicodeDataEncoder {
        version: Version { version: 1 },
        error_correction: ErrorCorrectionLevel::Quartile,
    };
    let buffer = encoder.encode(data);
    assert_eq!(
        buffer.data(),
        [
            0b0111_0001,
            0b1010_0100,
            10,
            73,
            32,
            240,
            159,
            146,
            147,
            32,
            'y' as u8,
            'o' as u8,
            'u' as u8,
        ]
    )
}

use tiny_qr::blocks::BlockLengthIterator;
use tiny_qr::buffer::Buffer;
use tiny_qr::encoding::{
    calculate_encoded_data_bit_length, detect_character_set, encode_text, CharacterSet,
    ErrorCorrectionRestriction, VersionRestriction,
};
use tiny_qr::error::QrError;
use tiny_qr::error_correction::ErrorCorrectionLevel;
use tiny_qr::format::FormatEncoder;
use tiny_qr::mask::Masked;
use tiny_qr::matrix::{Color, Matrix, Module};
use tiny_qr::qr_version::{version_to_size, Version};
use tiny_qr::qrcode::QrCodeBuilder;

const LEVELS: [ErrorCorrectionLevel; 4] = [
    ErrorCorrectionLevel::Low,
    ErrorCorrectionLevel::Medium,
    ErrorCorrectionLevel::Quartile,
    ErrorCorrectionLevel::High,
];

#[test]
fn codeword_counts_add_up() {
    for v in 1..=5u8 {
        let version = Version { version: v };
        for level in LEVELS {
            let (ecc, blocks) = version.error_correction_codeword_blocks_count(level);
            assert_eq!(
                version.data_codeword_count(level) + ecc,
                version.total_codeword_count()
            );
            assert_eq!(ecc % blocks, 0);
            assert_eq!(version.data_codeword_bit_len(level), 8 * version.data_codeword_count(level));
        }
    }
    assert_eq!(Version { version: 1 }.data_codeword_count(ErrorCorrectionLevel::Medium), 16);
    assert_eq!(Version { version: 5 }.data_codeword_count(ErrorCorrectionLevel::Quartile), 62);
}

#[test]
fn block_lengths_add_up() {
    for v in 1..=5u8 {
        let version = Version { version: v };
        for level in LEVELS {
            let data = version.data_codeword_count(level);
            let mut iter = BlockLengthIterator::new(version, level);
            let mut sum = 0;
            let mut count = 0;
            let mut longer = 0;
            let mut shortest = usize::MAX;
            let mut lengths = Vec::new();
            while let Some(block) = iter.next() {
                sum += block.data_len;
                count += 1;
                shortest = shortest.min(block.data_len);
                lengths.push(block.data_len);
            }
            for len in lengths {
                if len == shortest + 1 {
                    longer += 1;
                }
            }
            assert_eq!(sum, data);
            assert_eq!(longer, data % count);
        }
    }
}

#[test]
fn buffer_bytes_round_trip() {
    let mut buffer = Buffer::new();
    assert_eq!(buffer.data(), []);
    buffer.append_bytes(&[1, 2, 3]);
    assert_eq!(buffer.data(), [1, 2, 3]);
    buffer.append_byte(0xA5);
    assert_eq!(buffer.data(), [1, 2, 3, 0xA5]);
    buffer.append_bits(&[true, false, true, false]);
    assert_eq!(buffer.byte_bit_len(), (4, 4));
    assert_eq!(buffer.data(), [1, 2, 3, 0xA5, 0b1010_0000]);
    buffer.append_byte(0xFF);
    assert_eq!(buffer.data(), [1, 2, 3, 0xA5, 0b1010_1111, 0b1111_0000]);
    assert_eq!(buffer.bit_len(), 44);
}

#[test]
fn buffer_number_round_trip() {
    let mut buffer = Buffer::new();
    buffer.append_number(3, 4);
    buffer.append_number(0b111100, 6);
    buffer.append_number(2, 2);
    assert_eq!(buffer.data(), [0b0011_1111, 0b0010_0000]);
    let mut buffer = Buffer::new();
    buffer.append_bit(true);
    buffer.append_number(0x1FF, 9);
    assert_eq!(buffer.data(), [0xFF, 0b1100_0000]);
    assert_eq!(buffer.bit_len(), 10);
}

#[test]
fn segment_length_formula() {
    let v1 = Version { version: 1 };
    assert_eq!(calculate_encoded_data_bit_length(8, v1, CharacterSet::Numeric), 41);
    assert_eq!(calculate_encoded_data_bit_length(7, v1, CharacterSet::Numeric), 38);
    assert_eq!(calculate_encoded_data_bit_length(11, v1, CharacterSet::Alphanumeric), 74);
    assert_eq!(calculate_encoded_data_bit_length(13, v1, CharacterSet::Iso8859_1), 116);
    assert_eq!(calculate_encoded_data_bit_length(10, v1, CharacterSet::Unicode), 104);
    let v10 = Version { version: 10 };
    assert_eq!(calculate_encoded_data_bit_length(0, v10, CharacterSet::Numeric), 16);
}

#[test]
fn character_set_detection() {
    assert_eq!(detect_character_set(""), CharacterSet::Numeric);
    assert_eq!(detect_character_set("0123"), CharacterSet::Numeric);
    assert_eq!(detect_character_set("AB $%*+-./:9"), CharacterSet::Alphanumeric);
    assert_eq!(detect_character_set("ab"), CharacterSet::Iso8859_1);
    assert_eq!(detect_character_set("caf\u{e9}"), CharacterSet::Iso8859_1);
    assert_eq!(detect_character_set("\u{20ac}"), CharacterSet::Unicode);
}

#[test]
fn single_trailing_digit_takes_four_bits() {
    let encoded = encode_text(
        VersionRestriction::SpecificVersion(Version { version: 1 }),
        ErrorCorrectionRestriction::SpecificErrorCorrection(ErrorCorrectionLevel::High),
        "1234",
    )
    .unwrap();
    // 0001 0000000100 0001111011 0100 | terminator 0000 | padding
    assert_eq!(
        &encoded.buffer.data()[..4],
        [0b0001_0000, 0b0001_0000, 0b0111_1011, 0b0100_0000]
    );
}

#[test]
fn selection_picks_smallest_version_and_strongest_level() {
    let encoded = encode_text(
        VersionRestriction::MaxVersion(Version { version: 4 }),
        ErrorCorrectionRestriction::MinErrorCorrection(ErrorCorrectionLevel::Low),
        "01234567",
    )
    .unwrap();
    assert_eq!(encoded.version, Version { version: 1 });
    assert_eq!(encoded.error_correction, ErrorCorrectionLevel::High);
    assert_eq!(encoded.buffer.bit_len(), 8 * 9);
}

#[test]
fn encode_errors() {
    let too_long = "A".repeat(200);
    assert!(matches!(
        encode_text(
            VersionRestriction::MaxVersion(Version { version: 5 }),
            ErrorCorrectionRestriction::MinErrorCorrection(ErrorCorrectionLevel::Low),
            too_long.as_str(),
        ),
        Err(QrError::CapacityExceeded)
    ));
    assert!(matches!(
        encode_text(
            VersionRestriction::MaxVersion(Version { version: 6 }),
            ErrorCorrectionRestriction::MinErrorCorrection(ErrorCorrectionLevel::Low),
            "1",
        ),
        Err(QrError::UnsupportedVersion)
    ));
    assert!(matches!(
        encode_text(
            VersionRestriction::SpecificVersion(Version { version: 0 }),
            ErrorCorrectionRestriction::MinErrorCorrection(ErrorCorrectionLevel::Low),
            "1",
        ),
        Err(QrError::UnsupportedVersion)
    ));
}

#[test]
fn build_errors() {
    assert!(matches!(QrCodeBuilder::new().build(), Err(QrError::InvalidConfiguration)));
    assert!(matches!(
        QrCodeBuilder::new().with_text("1").with_mask_reference(8).build(),
        Err(QrError::InvalidConfiguration)
    ));
    assert!(matches!(
        QrCodeBuilder::new().with_text("1").with_max_version(5).build(),
        Err(QrError::UnsupportedVersion)
    ));
    let long = "HELLO WORLD ".repeat(10);
    assert!(matches!(
        QrCodeBuilder::new().with_text(long.as_str()).with_max_version(1).build(),
        Err(QrError::CapacityExceeded)
    ));
}

#[test]
fn specific_options_are_kept() {
    let qr = QrCodeBuilder::new()
        .with_text("1")
        .with_specific_version(3)
        .with_specific_error_correction_level(ErrorCorrectionLevel::Low)
        .build()
        .unwrap();
    assert_eq!(qr.size(), 29);
    let qr = QrCodeBuilder::new().with_text("1").build().unwrap();
    assert_eq!(qr.size(), 21);
    assert!(qr.mask_reference() < 8);
}

#[test]
fn format_words() {
    let word = |level, mask_reference| {
        FormatEncoder { error_correction_level: level, mask_reference }.encode()
    };
    assert_eq!(word(ErrorCorrectionLevel::Medium, 0), 0x5412);
    assert_eq!(word(ErrorCorrectionLevel::Low, 0), 0x77c4);
    assert_eq!(word(ErrorCorrectionLevel::Quartile, 6), 0x2eda);
    assert_eq!(word(ErrorCorrectionLevel::High, 7), 0x083b);
    assert_eq!(word(ErrorCorrectionLevel::Quartile, 7), 0x2bed);
}

fn placed_version_1() -> Matrix<21> {
    let encoded = encode_text(
        VersionRestriction::SpecificVersion(Version { version: 1 }),
        ErrorCorrectionRestriction::SpecificErrorCorrection(ErrorCorrectionLevel::Medium),
        "01234567",
    )
    .unwrap();
    let data = tiny_qr::error_correction::add_error_correction(encoded);
    Matrix::<21>::from_data(data)
}

#[test]
fn mask_twice_restores_every_reference() {
    for reference in 0..8u8 {
        let matrix = placed_version_1();
        let once = Masked::from(matrix.duplicate(), reference);
        assert_ne!(once.matrix.debug_string(), matrix.debug_string());
        let twice = Masked::from(once.matrix, reference);
        assert_eq!(twice.matrix.debug_string(), matrix.debug_string());
    }
}

#[test]
fn mask_leaves_function_patterns() {
    let mut matrix = Matrix::<21>::new();
    matrix.fill_symbol();
    for reference in 0..8u8 {
        let masked = Masked::from(matrix.duplicate(), reference);
        assert_eq!(masked.matrix.debug_string(), matrix.debug_string());
    }
}

#[test]
fn placement_fills_every_empty_module() {
    let text = placed_version_1().debug_string();
    assert!(!text.contains('\u{FFFD}'));
    let data_modules = text.chars().filter(|&c| c == '_' || c == '\u{2588}').count();
    assert_eq!(data_modules, 26 * 8);
}

#[test]
fn quiet_zone_and_draw_order() {
    let qr = QrCodeBuilder::new().with_text("HELLO WORLD").build().unwrap();
    let size = qr.size();
    let mut iter = qr.draw_iter();
    assert_eq!(iter.width(), size + 8);
    assert_eq!(iter.height(), size + 8);
    let side = size + 8;
    let mut count = 0;
    while let Some(module) = iter.next() {
        assert_eq!(module.x, count % side);
        assert_eq!(module.y, count / side);
        let border = module.x < 4 || module.y < 4 || module.x >= size + 4 || module.y >= size + 4;
        if border {
            assert!(module.color == Color::White);
        } else {
            assert!(module.color == qr.get(module.x - 4, module.y - 4));
        }
        count += 1;
    }
    assert_eq!(count, side * side);
    assert!(iter.next().is_none());
}

#[test]
fn version_sizes_and_steps() {
    assert_eq!(version_to_size(1), 21);
    assert_eq!(Version { version: 4 }.width(), 33);
    assert_eq!(Version { version: 2 }.decrement(), Some(Version { version: 1 }));
    assert_eq!(Version { version: 1 }.decrement(), None);
    assert_eq!(ErrorCorrectionLevel::Quartile.increment(), Some(ErrorCorrectionLevel::High));
    assert_eq!(ErrorCorrectionLevel::High.increment(), None);
    assert_eq!(Color::White.inverse(), Color::Black);
    assert_eq!(Module::Reserved.color(), Color::White);
}

#[test]
fn compact_rendering_shape() {
    let qr = QrCodeBuilder::new().with_text("01234567").build().unwrap();
    let text = qr.display_string();
    assert_eq!(text.lines().count(), 11);
    assert!(text.lines().all(|line| line.chars().count() == 21));
    assert!(text.starts_with("\u{2588}\u{2580}\u{2580}\u{2580}\u{2580}\u{2580}\u{2588}"));
}

#[test]
fn error_correction_changes_with_data() {
    let mut a = Buffer::new();
    a.append_bytes(&[0; 16]);
    let mut b = Buffer::new();
    b.append_bytes(&[1; 16]);
    let v1 = Version { version: 1 };
    let ea = tiny_qr::error_correction::add_error_correction(tiny_qr::encoding::EncodedData {
        version: v1,
        error_correction: ErrorCorrectionLevel::Medium,
        buffer: a,
    });
    let eb = tiny_qr::error_correction::add_error_correction(tiny_qr::encoding::EncodedData {
        version: v1,
        error_correction: ErrorCorrectionLevel::Medium,
        buffer: b,
    });
    assert_eq!(ea.buffer.data().len(), 26);
    assert_eq!(&ea.buffer.data()[16..], [0; 10]);
    assert_ne!(&eb.buffer.data()[16..], [1; 10]);
    assert_ne!(&eb.buffer.data()[16..], [0; 10]);
}

#[test]
fn placement_fills_remainder_modules() {
    let encoded = encode_text(
        VersionRestriction::SpecificVersion(Version { version: 2 }),
        ErrorCorrectionRestriction::SpecificErrorCorrection(ErrorCorrectionLevel::Quartile),
        "HTTPS://CASPERMEIJN.NL",
    )
    .unwrap();
    let data = tiny_qr::error_correction::add_error_correction(encoded);
    let matrix = Matrix::<25>::from_data(data);
    let text = matrix.debug_string();
    assert!(!text.contains('\u{FFFD}'));
    let data_modules = text.chars().filter(|&c| c == '_' || c == '\u{2588}').count();
    // 44 codewords of 8 bits, then 7 remainder bits
    assert_eq!(data_modules, 44 * 8 + 7);
    let rows: Vec<Vec<char>> = text.lines().map(|l| l.chars().collect()).collect();
    for (x, y) in [(13, 0), (14, 1), (14, 0), (15, 1), (15, 0), (16, 1), (16, 0)] {
        assert_eq!(rows[x][y], '_');
    }
}

#[test]
fn iso8859_1_count_is_characters() {
    let encoded = encode_text(
        VersionRestriction::SpecificVersion(Version { version: 1 }),
        ErrorCorrectionRestriction::SpecificErrorCorrection(ErrorCorrectionLevel::Low),
        "\u{e9}",
    )
    .unwrap();
    // 0100, count 00000001, then 0xE9
    assert_eq!(&encoded.buffer.data()[..3], [0b0100_0000, 0b0001_1110, 0b1001_0000]);
}

use tiny_qr::buffer::Buffer;
use tiny_qr::error_correction::{ErrorCorrectedData, ErrorCorrectionLevel};
use tiny_qr::matrix::Matrix;
use tiny_qr::qr_version::Version;

#[test]
fn finder_pattern_version_1() {
    let mut matrix = Matrix::<21>::new();
    matrix.fill_finder_patterns();

    assert_eq!(
        matrix.debug_string(),
        "\
▓▓▓▓▓▓▓░�����░▓▓▓▓▓▓▓
▓░░░░░▓░�����░▓░░░░░▓
▓░▓▓▓░▓░�����░▓░▓▓▓░▓
▓░▓▓▓░▓░�����░▓░▓▓▓░▓
▓░▓▓▓░▓░�����░▓░▓▓▓░▓
▓░░░░░▓░�����░▓░░░░░▓
▓▓▓▓▓▓▓░�����░▓▓▓▓▓▓▓
░░░░░░░░�����░░░░░░░░
���������������������
���������������������
���������������������
���������������������
���������������������
░░░░░░░░�������������
▓▓▓▓▓▓▓░�������������
▓░░░░░▓░�������������
▓░▓▓▓░▓░�������������
▓░▓▓▓░▓░�������������
▓░▓▓▓░▓░�������������
▓░░░░░▓░�������������
▓▓▓▓▓▓▓░�������������
"
    );
}

#[test]
fn reserved_version_1() {
    let mut matrix = Matrix::<21>::new();
    matrix.fill_reserved();

    assert_eq!(
        matrix.debug_string(),
        "\
��������▒������������
��������▒������������
��������▒������������
��������▒������������
��������▒������������
��������▒������������
���������������������
��������▒������������
▒▒▒▒▒▒�▒▒����▒▒▒▒▒▒▒▒
���������������������
���������������������
���������������������
���������������������
��������▒������������
��������▒������������
��������▒������������
��������▒������������
��������▒������������
��������▒������������
��������▒������������
��������▒������������
"
    );
}

#[test]
fn timing_pattern() {
    let mut matrix = Matrix::<21>::new();
    matrix.fill_timing_pattern();

    assert_eq!(
        matrix.debug_string(),
        "\
���������������������
���������������������
���������������������
���������������������
���������������������
���������������������
��������▓░▓░▓��������
���������������������
������▓��������������
������░��������������
������▓��������������
������░��������������
������▓��������������
���������������������
���������������������
���������������������
���������������������
���������������������
���������������������
���������������������
���������������������
"
    );
}

#[test]
fn symbol_version_2() {
    let mut matrix = Matrix::<25>::new();
    matrix.fill_symbol();

    assert_eq!(
        matrix.debug_string(),
        "\
▓▓▓▓▓▓▓░▒��������░▓▓▓▓▓▓▓
▓░░░░░▓░▒��������░▓░░░░░▓
▓░▓▓▓░▓░▒��������░▓░▓▓▓░▓
▓░▓▓▓░▓░▒��������░▓░▓▓▓░▓
▓░▓▓▓░▓░▒��������░▓░▓▓▓░▓
▓░░░░░▓░▒��������░▓░░░░░▓
▓▓▓▓▓▓▓░▓░▓░▓░▓░▓░▓▓▓▓▓▓▓
░░░░░░░░▒��������░░░░░░░░
▒▒▒▒▒▒▓▒▒��������▒▒▒▒▒▒▒▒
������░������������������
������▓������������������
������░������������������
������▓������������������
������░������������������
������▓������������������
������░������������������
������▓���������▓▓▓▓▓����
░░░░░░░░▒�������▓░░░▓����
▓▓▓▓▓▓▓░▒�������▓░▓░▓����
▓░░░░░▓░▒�������▓░░░▓����
▓░▓▓▓░▓░▒�������▓▓▓▓▓����
▓░▓▓▓░▓░▒����������������
▓░▓▓▓░▓░▒����������������
▓░░░░░▓░▒����������������
▓▓▓▓▓▓▓░▒����������������
"
    );
}

#[test]
fn placement() {
    let mut matrix = Matrix::<21>::new();

    let mut buffer = Buffer::new();
    buffer.append_bytes(&[
        0b00010000, 0b00100000, 0b00001100, 0b01010110, 0b01100001, 0b10000000, 0b11101100,
        0b00010001, 0b11101100, 0b00010001, 0b11101100, 0b00010001, 0b11101100, 0b00010001,
        0b11101100, 0b00010001, 0b10100101, 0b00100100, 0b11010100, 0b11000001, 0b11101101,
        0b00110110, 0b11000111, 0b10000111, 0b00101100, 0b01010101,
    ]);
    let data = ErrorCorrectedData {
        version: Version { version: 1 },
        error_correction: ErrorCorrectionLevel::Quartile,
        buffer,
    };

    matrix.place_data(data);

    assert_eq!(
        matrix.debug_string(),
        "\
▓▓▓▓▓▓▓░▒__█_░▓▓▓▓▓▓▓
▓░░░░░▓░▒_██_░▓░░░░░▓
▓░▓▓▓░▓░▒█__█░▓░▓▓▓░▓
▓░▓▓▓░▓░▒___█░▓░▓▓▓░▓
▓░▓▓▓░▓░▒███_░▓░▓▓▓░▓
▓░░░░░▓░▒█___░▓░░░░░▓
▓▓▓▓▓▓▓░▓░▓░▓░▓▓▓▓▓▓▓
░░░░░░░░▒█_█_░░░░░░░░
▒▒▒▒▒▒▓▒▒____▒▒▒▒▒▒▒▒
█____█░████______█___
█_██__▓█___███_███_██
█__██_░_____█___██___
█___██▓███_███_██_█__
░░░░░░░░▒███_███_█___
▓▓▓▓▓▓▓░▒_█___█___█__
▓░░░░░▓░▒███_███____█
▓░▓▓▓░▓░▒█_______█___
▓░▓▓▓░▓░▒_________█__
▓░▓▓▓░▓░▒█████_██____
▓░░░░░▓░▒█__█___█__█_
▓▓▓▓▓▓▓░▒_████_██____
"
    );
}

#[test]
fn format() {
    let mut matrix = Matrix::<21>::new();
    matrix.fill_reserved();
    matrix.place_format(0b100000011001110);

    assert_eq!(
        matrix.debug_string(),
        "\
��������░������������
��������▓������������
��������▓������������
��������▓������������
��������░������������
��������░������������
���������������������
��������▓������������
▓░░░░░�░▓����▓▓░░▓▓▓░
���������������������
���������������������
���������������������
���������������������
��������▓������������
��������░������������
��������░������������
��������░������������
��������░������������
��������░������������
��������░������������
��������▓������������
"
    );
}

#[test]
fn large_matrix_small_pattern() {
    let mut matrix = Matrix::<100>::new();
    matrix.set_version(Version { version: 1 });
    matrix.fill_finder_patterns();

    assert_eq!(
        matrix.debug_string(),
        "\
▓▓▓▓▓▓▓░�����░▓▓▓▓▓▓▓
▓░░░░░▓░�����░▓░░░░░▓
▓░▓▓▓░▓░�����░▓░▓▓▓░▓
▓░▓▓▓░▓░�����░▓░▓▓▓░▓
▓░▓▓▓░▓░�����░▓░▓▓▓░▓
▓░░░░░▓░�����░▓░░░░░▓
▓▓▓▓▓▓▓░�����░▓▓▓▓▓▓▓
░░░░░░░░�����░░░░░░░░
���������������������
���������������������
���������������������
���������������������
���������������������
░░░░░░░░�������������
▓▓▓▓▓▓▓░�������������
▓░░░░░▓░�������������
▓░▓▓▓░▓░�������������
▓░▓▓▓░▓░�������������
▓░▓▓▓░▓░�������������
▓░░░░░▓░�������������
▓▓▓▓▓▓▓░�������������
"
    );
}

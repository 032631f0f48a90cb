use tiny_qr::buffer::Buffer;
use tiny_qr::error_correction::{ErrorCorrectedData, ErrorCorrectionLevel};
use tiny_qr::mask::Masked;
use tiny_qr::matrix::{Color, Matrix, Module};
use tiny_qr::qr_version::Version;

fn new_white_matrix() -> Matrix<21> {
    let mut matrix = Matrix::<21>::new();
    matrix.set_version(Version { version: 1 });
    matrix.set_error_correction(ErrorCorrectionLevel::Low);
    matrix.fill_whole(Module::Filled(Color::White));
    matrix
}

#[test]
fn mask_pattern0() {
    let matrix = new_white_matrix();
    let masked = Masked::from(matrix.duplicate(), 0);

    assert_eq!(
        masked.matrix.debug_string(),
        "\
█_█_█_█_█_█_█_█_█_█_█
_█_█_█_█_█_█_█_█_█_█_
█_█_█_█_█_█_█_█_█_█_█
_█_█_█_█_█_█_█_█_█_█_
█_█_█_█_█_█_█_█_█_█_█
_█_█_█_█_█_█_█_█_█_█_
█_█_█_█_█_█_█_█_█_█_█
_█_█_█_█_█_█_█_█_█_█_
█_█_█_█_█_█_█_█_█_█_█
_█_█_█_█_█_█_█_█_█_█_
█_█_█_█_█_█_█_█_█_█_█
_█_█_█_█_█_█_█_█_█_█_
█_█_█_█_█_█_█_█_█_█_█
_█_█_█_█_█_█_█_█_█_█_
█_█_█_█_█_█_█_█_█_█_█
_█_█_█_█_█_█_█_█_█_█_
█_█_█_█_█_█_█_█_█_█_█
_█_█_█_█_█_█_█_█_█_█_
█_█_█_█_█_█_█_█_█_█_█
_█_█_█_█_█_█_█_█_█_█_
█_█_█_█_█_█_█_█_█_█_█
"
    );
}

#[test]
fn mask_pattern1() {
    let matrix = new_white_matrix();
    let masked = Masked::from(matrix.duplicate(), 1);

    assert_eq!(
        masked.matrix.debug_string(),
        "\
█████████████████████
_____________________
█████████████████████
_____________________
█████████████████████
_____________________
█████████████████████
_____________________
█████████████████████
_____________________
█████████████████████
_____________________
█████████████████████
_____________________
█████████████████████
_____________________
█████████████████████
_____________________
█████████████████████
_____________________
█████████████████████
"
    );
}

#[test]
fn mask_pattern2() {
    let matrix = new_white_matrix();
    let masked = Masked::from(matrix.duplicate(), 2);

    assert_eq!(
        masked.matrix.debug_string(),
        "\
█__█__█__█__█__█__█__
█__█__█__█__█__█__█__
█__█__█__█__█__█__█__
█__█__█__█__█__█__█__
█__█__█__█__█__█__█__
█__█__█__█__█__█__█__
█__█__█__█__█__█__█__
█__█__█__█__█__█__█__
█__█__█__█__█__█__█__
█__█__█__█__█__█__█__
█__█__█__█__█__█__█__
█__█__█__█__█__█__█__
█__█__█__█__█__█__█__
█__█__█__█__█__█__█__
█__█__█__█__█__█__█__
█__█__█__█__█__█__█__
█__█__█__█__█__█__█__
█__█__█__█__█__█__█__
█__█__█__█__█__█__█__
█__█__█__█__█__█__█__
█__█__█__█__█__█__█__
"
    );
}

#[test]
fn mask_pattern3() {
    let matrix = new_white_matrix();
    let masked = Masked::from(matrix.duplicate(), 3);

    assert_eq!(
        masked.matrix.debug_string(),
        "\
█__█__█__█__█__█__█__
__█__█__█__█__█__█__█
_█__█__█__█__█__█__█_
█__█__█__█__█__█__█__
__█__█__█__█__█__█__█
_█__█__█__█__█__█__█_
█__█__█__█__█__█__█__
__█__█__█__█__█__█__█
_█__█__█__█__█__█__█_
█__█__█__█__█__█__█__
__█__█__█__█__█__█__█
_█__█__█__█__█__█__█_
█__█__█__█__█__█__█__
__█__█__█__█__█__█__█
_█__█__█__█__█__█__█_
█__█__█__█__█__█__█__
__█__█__█__█__█__█__█
_█__█__█__█__█__█__█_
█__█__█__█__█__█__█__
__█__█__█__█__█__█__█
_█__█__█__█__█__█__█_
"
    );
}

#[test]
fn mask_pattern4() {
    let matrix = new_white_matrix();
    let masked = Masked::from(matrix.duplicate(), 4);

    assert_eq!(
        masked.matrix.debug_string(),
        "\
███___███___███___███
███___███___███___███
___███___███___███___
___███___███___███___
███___███___███___███
███___███___███___███
___███___███___███___
___███___███___███___
███___███___███___███
███___███___███___███
___███___███___███___
___███___███___███___
███___███___███___███
███___███___███___███
___███___███___███___
___███___███___███___
███___███___███___███
███___███___███___███
___███___███___███___
___███___███___███___
███___███___███___███
"
    );
}

#[test]
fn mask_pattern5() {
    let matrix = new_white_matrix();
    let masked = Masked::from(matrix.duplicate(), 5);

    assert_eq!(
        masked.matrix.debug_string(),
        "\
█████████████████████
█_____█_____█_____█__
█__█__█__█__█__█__█__
█_█_█_█_█_█_█_█_█_█_█
█__█__█__█__█__█__█__
█_____█_____█_____█__
█████████████████████
█_____█_____█_____█__
█__█__█__█__█__█__█__
█_█_█_█_█_█_█_█_█_█_█
█__█__█__█__█__█__█__
█_____█_____█_____█__
█████████████████████
█_____█_____█_____█__
█__█__█__█__█__█__█__
█_█_█_█_█_█_█_█_█_█_█
█__█__█__█__█__█__█__
█_____█_____█_____█__
█████████████████████
█_____█_____█_____█__
█__█__█__█__█__█__█__
"
    );
}

#[test]
fn mask_pattern6() {
    let matrix = new_white_matrix();
    let masked = Masked::from(matrix.duplicate(), 6);

    assert_eq!(
        masked.matrix.debug_string(),
        "\
█████████████████████
███___███___███___███
██_██_██_██_██_██_██_
█_█_█_█_█_█_█_█_█_█_█
█_██_██_██_██_██_██_█
█___███___███___███__
█████████████████████
███___███___███___███
██_██_██_██_██_██_██_
█_█_█_█_█_█_█_█_█_█_█
█_██_██_██_██_██_██_█
█___███___███___███__
█████████████████████
███___███___███___███
██_██_██_██_██_██_██_
█_█_█_█_█_█_█_█_█_█_█
█_██_██_██_██_██_██_█
█___███___███___███__
█████████████████████
███___███___███___███
██_██_██_██_██_██_██_
"
    );
}

#[test]
fn mask_pattern7() {
    let matrix = new_white_matrix();
    let masked = Masked::from(matrix.duplicate(), 7);

    assert_eq!(
        masked.matrix.debug_string(),
        "\
█_█_█_█_█_█_█_█_█_█_█
___███___███___███___
█___███___███___███__
_█_█_█_█_█_█_█_█_█_█_
███___███___███___███
_███___███___███___██
█_█_█_█_█_█_█_█_█_█_█
___███___███___███___
█___███___███___███__
_█_█_█_█_█_█_█_█_█_█_
███___███___███___███
_███___███___███___██
█_█_█_█_█_█_█_█_█_█_█
___███___███___███___
█___███___███___███__
_█_█_█_█_█_█_█_█_█_█_
███___███___███___███
_███___███___███___██
█_█_█_█_█_█_█_█_█_█_█
___███___███___███___
█___███___███___███__
"
    );
}

#[test]
fn mask() {
    let mut buffer = Buffer::new();
    buffer.append_bytes(&[
        0b00010000, 0b00100000, 0b00001100, 0b01010110, 0b01100001, 0b10000000, 0b11101100,
        0b00010001, 0b11101100, 0b00010001, 0b11101100, 0b00010001, 0b11101100, 0b00010001,
        0b11101100, 0b00010001, 0b10100101, 0b00100100, 0b11010100, 0b11000001, 0b11101101,
        0b00110110, 0b11000111, 0b10000111, 0b00101100, 0b01010101,
    ]);
    let data = ErrorCorrectedData {
        version: Version { version: 1 },
        error_correction: ErrorCorrectionLevel::Quartile,
        buffer,
    };

    let matrix = Matrix::<21>::from_data(data);

    let masked = Masked::from(matrix.duplicate(), 0b010);

    assert_eq!(
        masked.matrix.debug_string(),
        "\
▓▓▓▓▓▓▓░▒█_██░▓▓▓▓▓▓▓
▓░░░░░▓░▒████░▓░░░░░▓
▓░▓▓▓░▓░▒____░▓░▓▓▓░▓
▓░▓▓▓░▓░▒█___░▓░▓▓▓░▓
▓░▓▓▓░▓░▒_███░▓░▓▓▓░▓
▓░░░░░▓░▒___█░▓░░░░░▓
▓▓▓▓▓▓▓░▓░▓░▓░▓▓▓▓▓▓▓
░░░░░░░░▒__██░░░░░░░░
▒▒▒▒▒▒▓▒▒█__█▒▒▒▒▒▒▒▒
___█_█░██_█_█__█_██__
__█___▓█_█_█_█__█████
____█_░__█_____████__
___███▓██__█_█__█____
░░░░░░░░▒_█████__██__
▓▓▓▓▓▓▓░▒██_█_██_____
▓░░░░░▓░▒_█████___█_█
▓░▓▓▓░▓░▒___█__█_██__
▓░▓▓▓░▓░▒█__█__█_____
▓░▓▓▓░▓░▒_██_█__█_█__
▓░░░░░▓░▒______██_██_
▓▓▓▓▓▓▓░▒███_█__█_█__
"
    );

    let twice_masked = Masked::from(masked.matrix, 0b010);

    assert_eq!(
        twice_masked.matrix.debug_string(),
        matrix.debug_string()
    );
}

#[test]
fn score() {
    // "HELLO WORLD" with version 1-Q
    let mut buffer = Buffer::new();
    buffer.append_bytes(&[
        32, 91, 11, 120, 209, 114, 220, 77, 67, 64, 236, 17, 236, 168, 72, 22, 82, 217, 54,
        156, 0, 46, 15, 180, 122, 16,
    ]);
    let data = ErrorCorrectedData {
        version: Version { version: 1 },
        error_correction: ErrorCorrectionLevel::Quartile,
        buffer,
    };

    let matrix = Matrix::<21>::from_data(data);
    let masked = Masked::from(matrix.duplicate(), 0);

    let adjacent_horizontal = masked.score_adjacent_horizontal();
    assert_eq!(adjacent_horizontal, 101);

    let adjacent_vertical = masked.score_adjacent_vertical();
    assert_eq!(adjacent_vertical, 101);

    let blocks = masked.score_blocks();
    assert_eq!(blocks, 207);

    let pattern_horizontal = masked.score_pattern_horizontal();
    assert_eq!(pattern_horizontal, 200);

    let pattern_vertical = masked.score_pattern_vertical();
    assert_eq!(pattern_vertical, 120);

    let proportion = masked.score_proportion();
    assert_eq!(proportion, 10);

    let total = masked.score();
    assert_eq!(total, 739);

    let masked = Masked::from(matrix.duplicate(), 1);
    let total = masked.score();
    assert_eq!(total, 507);

    let masked = Masked::from(matrix.duplicate(), 2);
    let total = masked.score();
    assert_eq!(total, 638);

    let masked = Masked::from(matrix.duplicate(), 3);
    let total = masked.score();
    assert_eq!(total, 569);

    let masked = Masked::from(matrix.duplicate(), 4);
    let total = masked.score();
    assert_eq!(total, 763);

    let masked = Masked::from(matrix.duplicate(), 5);
    let total = masked.score();
    assert_eq!(total, 572);

    let masked = Masked::from(matrix.duplicate(), 6);
    let total = masked.score();
    assert_eq!(total, 440);

    let masked = Masked::from(matrix.duplicate(), 7);
    let total = masked.score();
    assert_eq!(total, 829);
}

#[test]
fn formatted_and_scored() {
    // "HELLO WORLD" with version 1-Q
    let mut buffer = Buffer::new();
    buffer.append_bytes(&[
        32, 91, 11, 120, 209, 114, 220, 77, 67, 64, 236, 17, 236, 168, 72, 22, 82, 217, 54,
        156, 0, 46, 15, 180, 122, 16,
    ]);
    let data = ErrorCorrectedData {
        version: Version { version: 1 },
        error_correction: ErrorCorrectionLevel::Quartile,
        buffer,
    };

    let matrix = Matrix::<21>::from_data(data);

    let scored = matrix.duplicate().mask(0);
    assert_eq!(scored.score, 347);

    let scored = matrix.duplicate().mask(1);
    assert_eq!(scored.score, 470);

    let scored = matrix.duplicate().mask(2);
    assert_eq!(scored.score, 506);

    let scored = matrix.duplicate().mask(3);
    assert_eq!(scored.score, 441);

    let scored = matrix.duplicate().mask(4);
    assert_eq!(scored.score, 539);

    let scored = matrix.duplicate().mask(5);
    assert_eq!(scored.score, 516);

    let scored = matrix.duplicate().mask(6);
    assert_eq!(scored.score, 314);

    let scored = matrix.duplicate().mask(7);
    assert_eq!(scored.score, 558);
}

#[test]
fn best_mask_1q() {
    // "HELLO WORLD" with version 1-Q
    let mut buffer = Buffer::new();
    buffer.append_bytes(&[
        32, 91, 11, 120, 209, 114, 220, 77, 67, 64, 236, 17, 236, 168, 72, 22, 82, 217, 54,
        156, 0, 46, 15, 180, 122, 16,
    ]);
    let data = ErrorCorrectedData {
        version: Version { version: 1 },
        error_correction: ErrorCorrectionLevel::Quartile,
        buffer,
    };

    let matrix = Matrix::<21>::from_data(data);

    let best_mask = matrix.best_mask();
    assert_eq!(best_mask.masked.mask_reference, 6);
    assert_eq!(best_mask.score, 314);
}

#[test]
fn best_mask_1m() {
    // "01234567" with version 1-M
    let mut buffer = Buffer::new();
    buffer.append_bytes(&[
        0b00010000, 0b00100000, 0b00001100, 0b01010110, 0b01100001, 0b10000000, 0b11101100,
        0b00010001, 0b11101100, 0b00010001, 0b11101100, 0b00010001, 0b11101100, 0b00010001,
        0b11101100, 0b00010001,
    ]);
    let data = ErrorCorrectedData {
        version: Version { version: 1 },
        error_correction: ErrorCorrectionLevel::Medium,
        buffer,
    };

    let matrix = Matrix::<21>::from_data(data);

    // Only the 16 data codewords are given; the modules meant for the error
    // correction codewords take zero remainder bits and are masked like any
    // other data module.
    let best_mask = matrix.best_mask();
    assert_eq!(best_mask.masked.mask_reference, 0b000);
}

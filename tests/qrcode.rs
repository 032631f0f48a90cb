use tiny_qr::error_correction::ErrorCorrectionLevel;
use tiny_qr::qrcode::QrCodeBuilder;

#[test]
fn numeric_version_1_auto_select_high() {
    let qr_code = QrCodeBuilder::new()
        .with_text("01234567")
        .with_max_version(1)
        .with_min_error_correction_level(ErrorCorrectionLevel::Medium)
        .with_mask_reference(0b010)
        .build()
        .unwrap();

    assert_eq!(
        qr_code.debug_string(),
        "\
███████_████__███████
█_____█_█████_█_____█
█_███_█_█_█___█_███_█
█_███_█_______█_███_█
█_███_█__███__█_███_█
█_____█_██__█_█_____█
███████_█_█_█_███████
________█_██_________
__███_█_█__█_███__███
_█_█___█__█_█__█_██__
__█__███_████___█████
_█___█__██_████████__
_█__███_███___█_█____
________██____█__██__
███████__█__██_█_____
█_____█__██_███___█_█
█_███_█_████_█_█_██__
█_███_█_█_█_█__█_____
█_███_█_█_█_____█_█__
█_____█_____█__██_██_
███████__█_█__█_█_█__
"
    );
}

#[test]
fn numeric_auto_select_1_h() {
    let qr_code = QrCodeBuilder::new()
        .with_text("01234567")
        .build()
        .unwrap();

    assert_eq!(
        qr_code.debug_string(),
        "\
███████__█____███████
█_____█___███_█_____█
█_███_█_█_____█_███_█
█_███_█_███___█_███_█
█_███_█__██___█_███_█
█_____█___███_█_____█
███████_█_█_█_███████
_________███_________
___██_██__██_____██__
_██_█__███__█_█_███_█
______█████_█_█_█_██_
_█_██___█_█_███___█__
__█___██_█_█_█___█_██
________█____█_█_████
███████_███_█__██__█_
█_____█_____██_██_█__
█_███_█_███__███__█_█
█_███_█_██_██___██___
█_███_█____█_██__████
█_____█__█__███_█_█_█
███████__███_██___██_
"
    );
}

#[test]
fn alphanumeric_version_1() {
    let qr_code = QrCodeBuilder::new()
        .with_max_version(1)
        .with_min_error_correction_level(ErrorCorrectionLevel::Quartile)
        .with_mask_reference(0b110)
        .with_text("HELLO WORLD")
        .build()
        .unwrap();

    assert_eq!(
        qr_code.debug_string(),
        "\
███████____█__███████
█_____█_██__█_█_____█
█_███_█__█_██_█_███_█
█_███_█_█████_█_███_█
█_███_█_██_█__█_███_█
█_____█__█__█_█_____█
███████_█_█_█_███████
________██_██________
_█_████_██__███_██_█_
█_████_█____████_███_
__█_█_██___█__██_____
█_██_█___█_██___██___
██_████████_███_█████
________█___█__█_█___
███████__██__██__████
█_____█_█_█__█__█_███
█_███_█_██_█__█___███
█_███_█_█_███___█_█__
█_███_█__█____█____██
█_____█_███__███__██_
███████__█_█_______█_
"
    );
}

#[test]
fn alphanumeric_version_2() {
    let qr_code = QrCodeBuilder::new()
        .with_max_version(2)
        .with_min_error_correction_level(ErrorCorrectionLevel::Quartile)
        .with_mask_reference(0b110)
        .with_text("HTTPS://CASPERMEIJN.NL")
        .build()
        .unwrap();

    assert_eq!(
        qr_code.debug_string(),
        "\
███████____█████__███████
█_____█_█_█_████__█_____█
█_███_█__█___██___█_███_█
█_███_█_██__█_███_█_███_█
█_███_█_█_██_█_█__█_███_█
█_____█___█_███_█_█_____█
███████_█_█_█_█_█_███████
________█_█___█__________
_█_████_███████████_██_█_
█_█_█__█_████_█_█_█████__
███_█_█_██_██_██__█_____█
█______███_██_█_█_█_████_
██_█__██_█_████_█__█_███_
█___██_████_██___█_█_█___
██____███_█__███_███_█___
█____█_██______██___█_███
█_██__█_█_██_██_█████_███
________█___█___█___██___
███████__█__██__█_█_█_███
█_____█_█_█____██___████_
█_███_█_███__████████_█__
█_███_█_█_____█_█_█___█_█
█_███_█__█_█___██____████
█_____█_█_███_█████_█_██_
███████__██████_____██_██
"
    );
}

#[test]
fn alphanumeric_version_4() {
    let qr_code = QrCodeBuilder::new()
        .with_max_version(4)
        .with_min_error_correction_level(ErrorCorrectionLevel::High)
        .with_mask_reference(0b110)
        .with_text("HTTPS://GITHUB.COM/CASPERMEIJN/TINY-QR")
        .build()
        .unwrap();

    assert_eq!(
        qr_code.debug_string(),
        "\
███████____██__█_█_█_██___███████
█_____█__█_███_█_____████_█_____█
█_███_█_█__█______██___██_█_███_█
█_███_█_█___████__█████_█_█_███_█
█_███_█___█____████_█__█__█_███_█
█_____█____██_█__█__█___█_█_____█
███████_█_█_█_█_█_█_█_█_█_███████
___________███__█__█___█_________
___██_██_████_█_██_███_█_____██__
_█______█____█________█_█_█████_█
_███_███___█__███__███_████___███
_█_█_█___███___█████___█___██_██_
███_███_█_______████████____█_█_█
██___█___█__█_█____█__██_█____█__
_██_████__█_████_█_██_█_███_█_██_
█___██_███_█__█████__███_█__█_██_
__█___█_____██_███_____█_█__███_█
███__█__█_████_█_████_██_█___██__
____█_████__█_████__█_█_____█_█_█
_███_█__█_███_█__███_██__█_██____
__█_█_█_█_███_████_█_███__███__██
█_█_██____████_████_█___█_███████
█__█_█████__█_█_█████_██_██_█__█_
█_█_██_____██___█__█___██_████___
█████████___█__██_██__███████____
________█__██_██_███_█_██___█_█_█
███████_█_█_██_███_██__██_█_███__
█_____█__█__█__███___██_█___█_███
█_███_█_██_█_█____█__████████████
█_███_█_██__██_█__██████_______█_
█_███_█__████████__████_█___██_██
█_____█____██_█___█__███____██_█_
███████__█__██_█_█__███_█_██__██_
"
    );
}

use tiny_qr::qrcode::MAX_VERSION;

#[test]
fn it_works() {
    assert_eq!(2 + 2, 4);
    assert_eq!(MAX_VERSION, 4);
}

use picobroker_core::protocol::utils::{bytes_to_hex, hex_to_bytes};

#[test]
fn hex_to_bytes_reads_each_token() {
    let v = hex_to_bytes::<8>("10 0F  ff\t+7 zz 100 0001");
    assert_eq!(v.as_slice(), &[0x10, 0x0F, 0xFF, 0x07, 0x01]);
}

#[test]
fn hex_to_bytes_splits_on_unicode_white_space() {
    let v = hex_to_bytes::<8>("0A\u{a0}0B\u{3000}0C");
    assert_eq!(v.as_slice(), &[0x0A, 0x0B, 0x0C]);
}

#[test]
fn hex_to_bytes_stops_when_full() {
    let v = hex_to_bytes::<2>("01 02 03");
    assert_eq!(v.as_slice(), &[1, 2]);
    let e = hex_to_bytes::<4>("");
    assert!(e.is_empty());
    let signs = hex_to_bytes::<4>("+ - -1 +");
    assert!(signs.is_empty());
}

#[test]
fn bytes_to_hex_writes_pairs() {
    let s = bytes_to_hex::<32>(&[0x00, 0xAB, 0x7F]);
    assert_eq!(s.as_str(), "00 AB 7F");
    let cut = bytes_to_hex::<4>(&[0x12, 0x34]);
    assert_eq!(cut.as_str(), "12 3");
    let none = bytes_to_hex::<4>(&[]);
    assert_eq!(none.as_str(), "");
}

#[test]
fn hex_round_trip() {
    let bytes = [0x10u8, 0x0F, 0x00, 0x04, 0x4D];
    let text = bytes_to_hex::<64>(&bytes);
    let back = hex_to_bytes::<16>(text.as_str());
    assert_eq!(back.as_slice(), &bytes);
}

#[test]
fn hex_text_reads_back_as_its_bytes() {
    let bytes = [0x00u8, 0x7F, 0x80, 0xAB, 0xFF, 0x10];
    let text = bytes_to_hex::<64>(&bytes);
    let back = hex_to_bytes::<16>(text.as_str());
    assert_eq!(back.as_slice(), &bytes);
}

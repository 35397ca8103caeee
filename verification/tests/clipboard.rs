use vibox::clipboard::{base64, clipboard_sequence};

fn b64(s: &str) -> String {
    base64(s.as_bytes()).into_iter().collect()
}

#[test]
fn base64_pads_the_last_group() {
    assert_eq!(b64(""), "");
    assert_eq!(b64("f"), "Zg==");
    assert_eq!(b64("fo"), "Zm8=");
    assert_eq!(b64("foo"), "Zm9v");
    assert_eq!(b64("foob"), "Zm9vYg==");
    assert_eq!(b64("fooba"), "Zm9vYmE=");
    assert_eq!(b64("foobar"), "Zm9vYmFy");
}

#[test]
fn base64_uses_the_whole_alphabet() {
    assert_eq!(base64(&[0xfb, 0xff, 0xbf]).into_iter().collect::<String>(), "+/+/");
    assert_eq!(base64(&[0x00, 0x10, 0x83]).into_iter().collect::<String>(), "ABCD");
}

#[test]
fn the_sequence_carries_the_utf8_bytes() {
    assert_eq!(clipboard_sequence("hi"), "\x1b]52;c;aGk=\x07");
    assert_eq!(clipboard_sequence("é"), "\x1b]52;c;w6k=\x07");
    assert_eq!(clipboard_sequence(""), "\x1b]52;c;\x07");
}

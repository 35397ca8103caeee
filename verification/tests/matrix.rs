use vibox::matrix::{glyph, next_random};

#[test]
fn xorshift_steps_from_the_seed() {
    let mut rng: u64 = 0x9E37_79B9_7F4A_7C15;
    assert_eq!(next_random(&mut rng), 15860402102123842989);
    assert_eq!(rng, 15860402102123842989);
    assert_eq!(next_random(&mut rng), 7273575876580499574);
}

#[test]
fn a_glyph_holds_for_six_frames() {
    assert_eq!(glyph(0, 0, 0), 'a');
    assert_eq!(glyph(0, 1, 0), '0');
    assert_eq!(glyph(5, 0, 3), '=');
    assert_eq!(glyph(0, 0, 3), '=');
    assert_eq!(glyph(6, 0, 3), 'y');
    assert_eq!(glyph(100, 7, 9), 'l');
}

use lilium::sponge::{Error, Mismatch, Pattern};

#[test]
fn debug_pattern_pads_to_two_digits() {
    let text = Mismatch::debug_pattern(&[Pattern::Absorb(1), Pattern::Squeeze(12), Pattern::Absorb(100)]);
    assert_eq!(text, "A01 S12 A100 ");
    assert_eq!(Mismatch::debug_pattern(&[]), "");
    assert_eq!(Mismatch::debug_pattern(&[Pattern::Squeeze(0)]), "S00 ");
}

#[test]
fn mismatch_description() {
    let m = Mismatch::new(vec![Pattern::Absorb(2), Pattern::Squeeze(1)], vec![Pattern::Absorb(2)]);
    assert_eq!(
        m.describe(),
        "Mismatch { expected: \"A02 S01 \", found   : \"A02 \" }"
    );
    let e = Error::FinishMismatch(Box::new(m));
    assert!(matches!(e, Error::FinishMismatch(_)));
}

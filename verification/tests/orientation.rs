use crowdflow::predicates::Orientation;

#[test]
fn orientation_sign_and_reversal() {
    assert_eq!(Orientation::CounterClockwise.sign(), 1);
    assert_eq!(Orientation::Clockwise.sign(), -1);
    assert_eq!(Orientation::Collinear.sign(), 0);
    assert_eq!(Orientation::CounterClockwise.reversed(), Orientation::Clockwise);
    assert_eq!(Orientation::Clockwise.reversed(), Orientation::CounterClockwise);
    assert_eq!(Orientation::Collinear.reversed(), Orientation::Collinear);
    assert!(Orientation::Collinear.is_collinear());
    assert!(!Orientation::Clockwise.is_collinear());
}

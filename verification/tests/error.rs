use bevy_hanabi::color_selector::Indicator;
use bevy_hanabi::render::error::BufferError;

#[test]
fn every_error_says_what_went_wrong() {
    let errors = [
        BufferError::ZeroLength,
        BufferError::SizeOverflow,
        BufferError::UnknownIdentifier,
    ];
    for (i, a) in errors.iter().enumerate() {
        assert!(!a.message().is_empty());
        for b in errors.iter().skip(i + 1) {
            assert_ne!(a, b);
            assert_ne!(a.message(), b.message());
        }
    }
    assert_eq!(BufferError::ZeroLength.message(), "a slice of no items was asked for");
    assert_eq!(
        BufferError::SizeOverflow.message(),
        "the byte size of the slice does not fit in 32 bits"
    );
    assert_eq!(
        BufferError::UnknownIdentifier.message(),
        "the identifier names no live allocation"
    );
}

#[test]
fn speed_selects_the_colour() {
    let indicator = Indicator::SPEED;
    assert_eq!(indicator, Indicator::SPEED);
    assert_eq!(format!("{:?}", indicator.clone()), "SPEED");
}

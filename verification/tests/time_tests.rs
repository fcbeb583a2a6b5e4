use gunship::time::frame_nanos;
use gunship::time::FRAMES_PER_SECOND;

#[test]
fn a_frame_lasts_a_sixtieth_of_a_second() {
    assert_eq!(FRAMES_PER_SECOND, 60);
    assert_eq!(frame_nanos(), 16_666_666);
    assert_eq!(std::time::Duration::new(0, frame_nanos()), std::time::Duration::new(1, 0) / 60);
}

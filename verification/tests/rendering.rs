use fxyt::{render, Color, FxytError, ParseError};

#[test]
fn basic() {
    let output = render("XY^").unwrap();
    assert_eq!(output.len(), 1);
    let frame = &output[0];
    assert_eq!(frame.image.len(), 256 * 256);
    // the pixel for (x, y) sits at row 255 - y, flipped vertically
    for &(x, y) in &[(0usize, 0usize), (5, 5), (3, 7), (255, 0), (0, 255), (200, 100)] {
        let expected = (x ^ y) as u8;
        assert_eq!(frame.image[(255 - y) * 256 + x], Color::new(0, 0, expected));
    }
    assert_eq!(frame.interval, None);
}

#[test]
fn empty_program_renders_one_black_frame() {
    let output = render("").unwrap();
    assert_eq!(output.len(), 1);
    assert!(output[0].image.iter().all(|&c| c == Color::new(0, 0, 0)));
    assert_eq!(output[0].interval, None);
}

#[test]
fn parse_errors_abort_the_render() {
    assert_eq!(render("Xq"), Err(FxytError::Parse(ParseError::InvalidCharacter(1))));
    assert_eq!(render("[X"), Err(FxytError::Parse(ParseError::BracketMismatch(0))));
}

#[test]
fn evaluation_errors_abort_the_render() {
    assert_eq!(render("N5N0/"), Err(FxytError::DivideByZero));
    assert_eq!(render("W"), Err(FxytError::DebugHalt));
}

#[test]
fn frame_interval_hint_reaches_the_frame() {
    let output = render("N9F").unwrap();
    assert_eq!(output.len(), 1);
    assert_eq!(output[0].interval, Some(9));
}

#[test]
fn time_axis_renders_a_frame_per_step() {
    let output = render("T").unwrap();
    assert_eq!(output.len(), 256);
    assert_eq!(output[0].image[0], Color::new(0, 0, 0));
    assert_eq!(output[200].image[123 * 256 + 45], Color::new(0, 0, 200));
    assert_eq!(output[255].image[77], Color::new(0, 0, 255));
}

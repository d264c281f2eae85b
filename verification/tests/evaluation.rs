use fxyt::{parse, Color, Command, Coords, FxytError};
use fxyt::eval::{render_to_pixel, render_to_stack};

fn commands(program: &str) -> Vec<Command> {
    parse(program, 0, 0).unwrap().1
}

fn pixel(program: &str, x: usize, y: usize, t: usize) -> Result<(Color, Option<i64>), FxytError> {
    render_to_pixel(&commands(program), Coords::new(x, y, t))
}

fn final_stack(program: &str, x: usize, y: usize, t: usize) -> Result<Vec<i64>, FxytError> {
    let cmds = commands(program);
    let mut stack: Vec<i64> = Vec::new();
    let mut mode: u8 = 0;
    let mut interval: Option<i64> = None;
    match render_to_stack(&cmds, &mut stack, &mut mode, &mut interval, Coords::new(x, y, t)) {
        Ok(None) => Ok(stack),
        Ok(Some(c)) => panic!("unexpected short-circuit colour {:?}", c),
        Err(e) => Err(e),
    }
}

#[test]
fn xor_of_equal_coordinates_is_black() {
    assert_eq!(pixel("XY^", 5, 5, 0), Ok((Color::new(0, 0, 0), None)));
}

#[test]
fn coordinates_push_x_y_t() {
    assert_eq!(pixel("XYT", 12, 34, 56), Ok((Color::new(12, 34, 56), None)));
}

#[test]
fn digit_append_builds_literals() {
    assert_eq!(final_stack("N42", 0, 0, 0), Ok(vec![42]));
    assert_eq!(final_stack("N00", 0, 0, 0), Ok(vec![0]));
    assert_eq!(pixel("N00", 0, 0, 0), Ok((Color::new(0, 0, 0), None)));
}

#[test]
fn digit_append_on_empty_stack_fails() {
    assert_eq!(pixel("000", 0, 0, 0), Err(FxytError::StackEmpty));
    assert_eq!(pixel("5", 0, 0, 0), Err(FxytError::StackEmpty));
}

#[test]
fn ninth_push_overflows_not_the_eighth() {
    assert_eq!(pixel("NNNNNNNN", 0, 0, 0), Ok((Color::new(0, 0, 0), None)));
    assert_eq!(pixel("NNNNNNNNN", 0, 0, 0), Err(FxytError::StackOverflow));
}

#[test]
fn arithmetic_on_literals() {
    assert_eq!(final_stack("N3N4+", 0, 0, 0), Ok(vec![7]));
    assert_eq!(final_stack("N3N4-", 0, 0, 0), Ok(vec![-1]));
    assert_eq!(final_stack("N3N4*", 0, 0, 0), Ok(vec![12]));
    assert_eq!(final_stack("N7N2/", 0, 0, 0), Ok(vec![3]));
    assert_eq!(final_stack("N7N2%", 0, 0, 0), Ok(vec![1]));
}

#[test]
fn division_truncates_toward_zero() {
    assert_eq!(final_stack("N0N7-N2/", 0, 0, 0), Ok(vec![-3]));
    assert_eq!(final_stack("N0N7-N2%", 0, 0, 0), Ok(vec![-1]));
}

#[test]
fn multiplication_wraps_around() {
    let mut v: i64 = 9;
    for _ in 0..5 {
        v = v.wrapping_mul(v);
    }
    assert_eq!(final_stack("N9D*D*D*D*D*", 0, 0, 0), Ok(vec![v]));
}

#[test]
fn divide_by_zero_in_mode_zero_fails() {
    assert_eq!(pixel("N5N0/", 0, 0, 0), Err(FxytError::DivideByZero));
    assert_eq!(pixel("N5N0%", 0, 0, 0), Err(FxytError::DivideByZero));
}

#[test]
fn divide_by_zero_in_mode_one_short_circuits_to_black() {
    assert_eq!(pixel("MN5N0/N9N9N9", 7, 7, 0), Ok((Color::new(0, 0, 0), None)));
}

#[test]
fn divide_by_zero_in_mode_two_short_circuits_to_red() {
    assert_eq!(pixel("MMN5N0/", 7, 7, 0), Ok((Color::new(255, 0, 0), None)));
}

#[test]
fn short_circuit_crosses_group_boundaries() {
    assert_eq!(pixel("M[[N5N0/]N9]N300", 1, 2, 0), Ok((Color::new(0, 0, 0), None)));
}

#[test]
fn mode_beyond_two_fails() {
    assert_eq!(pixel("MM", 0, 0, 0), Ok((Color::new(0, 0, 0), None)));
    assert_eq!(pixel("MMM", 0, 0, 0), Err(FxytError::ModeOutOfRange));
}

#[test]
fn comparisons_push_one_or_zero() {
    assert_eq!(final_stack("N3N5<", 0, 0, 0), Ok(vec![1]));
    assert_eq!(final_stack("N3N5>", 0, 0, 0), Ok(vec![0]));
    assert_eq!(final_stack("N5N5=", 0, 0, 0), Ok(vec![1]));
    assert_eq!(final_stack("N4N5=", 0, 0, 0), Ok(vec![0]));
}

#[test]
fn invert_tests_for_zero() {
    assert_eq!(final_stack("N5!", 0, 0, 0), Ok(vec![0]));
    assert_eq!(final_stack("N0!", 0, 0, 0), Ok(vec![1]));
}

#[test]
fn bitwise_operators() {
    assert_eq!(final_stack("N12N10&", 0, 0, 0), Ok(vec![8]));
    assert_eq!(final_stack("N12N10|", 0, 0, 0), Ok(vec![14]));
    assert_eq!(final_stack("N12N10^", 0, 0, 0), Ok(vec![6]));
}

#[test]
fn clamp_restricts_to_channel_range() {
    assert_eq!(final_stack("N300C", 0, 0, 0), Ok(vec![255]));
    assert_eq!(final_stack("N0N5-C", 0, 0, 0), Ok(vec![0]));
    assert_eq!(final_stack("N77C", 0, 0, 0), Ok(vec![77]));
}

#[test]
fn stack_operations() {
    assert_eq!(final_stack("N5D", 0, 0, 0), Ok(vec![5, 5]));
    assert_eq!(final_stack("N1N2P", 0, 0, 0), Ok(vec![1]));
    assert_eq!(final_stack("N1N2S", 0, 0, 0), Ok(vec![2, 1]));
}

#[test]
fn rotate_three_moves_the_third_value_on_top() {
    assert_eq!(final_stack("N1N2N3R", 0, 0, 0), Ok(vec![2, 3, 1]));
    assert_eq!(pixel("N1N2N3R", 0, 0, 0), Ok((Color::new(2, 3, 1), None)));
}

#[test]
fn stack_operations_on_empty_stack_fail() {
    assert_eq!(pixel("D", 0, 0, 0), Err(FxytError::StackEmpty));
    assert_eq!(pixel("P", 0, 0, 0), Err(FxytError::StackEmpty));
    assert_eq!(pixel("S", 0, 0, 0), Err(FxytError::StackEmpty));
    assert_eq!(pixel("R", 0, 0, 0), Err(FxytError::StackEmpty));
    assert_eq!(pixel("+", 0, 0, 0), Err(FxytError::StackEmpty));
    assert_eq!(pixel("!", 0, 0, 0), Err(FxytError::StackEmpty));
    assert_eq!(pixel("C", 0, 0, 0), Err(FxytError::StackEmpty));
    assert_eq!(pixel("F", 0, 0, 0), Err(FxytError::StackEmpty));
}

#[test]
fn group_shares_the_enclosing_stack() {
    assert_eq!(final_stack("N5[N10+]", 0, 0, 0), Ok(vec![15]));
    assert_eq!(final_stack("NN5[N10[N4+]]", 0, 0, 0), Ok(vec![0, 5, 14]));
}

#[test]
fn channel_out_of_range_fails() {
    assert_eq!(pixel("N300", 0, 0, 0), Err(FxytError::RgbOutOfRange));
    assert_eq!(pixel("N0N5-", 0, 0, 0), Err(FxytError::RgbOutOfRange));
}

#[test]
fn colour_reads_blue_green_red_from_the_top() {
    assert_eq!(pixel("N1N2N3", 0, 0, 0), Ok((Color::new(1, 2, 3), None)));
    assert_eq!(pixel("N7", 0, 0, 0), Ok((Color::new(0, 0, 7), None)));
}

#[test]
fn frame_interval_pops_the_hint() {
    assert_eq!(pixel("N5F", 0, 0, 0), Ok((Color::new(0, 0, 0), Some(5))));
    assert_eq!(final_stack("N5F", 0, 0, 0), Ok(vec![]));
    assert_eq!(pixel("N5FN9F", 0, 0, 0), Ok((Color::new(0, 0, 0), Some(9))));
}

#[test]
fn debug_halts_evaluation() {
    assert_eq!(pixel("XW", 0, 0, 0), Err(FxytError::DebugHalt));
}

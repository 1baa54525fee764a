use aoc21::common::{parse_input_as_value_list, Fault, FromLine, ParseError};
use aoc21::day02::{
    can_perform, run, run_in_range, solve, solve_part1, solve_part2, try_solve, Direction,
    MoveCommand, Submarine, Transition,
};

const SAMPLE_INPUT: &[u8] = b"\
forward 5
down 5
forward 8
up 3
down 8
forward 2
";

#[test]
fn day02_part1_sample_produces_expected_result() {
    let input = SAMPLE_INPUT;

    assert_eq!(solve_part1(input).expect("error parsing input"), 150);
}

#[test]
fn day02_part2_sample_produces_expected_result() {
    let input = SAMPLE_INPUT;

    assert_eq!(solve_part2(input).expect("error parsing input"), 900);
}

#[test]
fn day02_empty_input_stays_at_origin() {
    assert_eq!(solve_part1(b""), Ok(0));
    assert_eq!(solve_part2(b""), Ok(0));
    assert_eq!(solve_part1(b"\n\r\n"), Ok(0));
    assert_eq!(solve_part2(b"\n\r\n"), Ok(0));
    assert_eq!(Submarine::default(), Submarine { pos_x: 0, pos_z: 0, aim: 0 });
}

#[test]
fn day02_unrecognised_direction_is_told_apart() {
    let expected = Err(ParseError { line: 0, fault: Fault::UnrecognisedDirection });
    assert_eq!(solve_part1(b"backward 5\n"), expected);
    assert_eq!(solve_part2(b"backward 5\n"), expected);
    assert_eq!(MoveCommand::from_line(b"backward 5"), Err(Fault::UnrecognisedDirection));
    assert_eq!(MoveCommand::from_line(b"Forward 5"), Err(Fault::UnrecognisedDirection));
    assert_eq!(MoveCommand::from_line(b" 5"), Err(Fault::UnrecognisedDirection));
    assert_eq!(Direction::parse(b"forwards"), Err(Fault::UnrecognisedDirection));
    assert_eq!(Direction::parse(b""), Err(Fault::UnrecognisedDirection));
}

#[test]
fn day02_each_fault_has_its_own_error() {
    assert_eq!(MoveCommand::from_line(b"forward5"), Err(Fault::MalformedCommand));
    assert_eq!(MoveCommand::from_line(b"forward\t5"), Err(Fault::MalformedCommand));
    assert_eq!(MoveCommand::from_line(b"forward x"), Err(Fault::InvalidAmount));
    assert_eq!(MoveCommand::from_line(b"forward -5"), Err(Fault::InvalidAmount));
    assert_eq!(MoveCommand::from_line(b"forward "), Err(Fault::InvalidAmount));
    assert_eq!(MoveCommand::from_line(b"forward  5"), Err(Fault::InvalidAmount));
    assert_eq!(MoveCommand::from_line(b"forward 5 "), Err(Fault::InvalidAmount));
    assert_eq!(MoveCommand::from_line(b"up 4294967296"), Err(Fault::InvalidAmount));
    assert_eq!(MoveCommand::from_line(b"sideways x"), Err(Fault::UnrecognisedDirection));
}

#[test]
fn day02_commands_parse() {
    assert_eq!(MoveCommand::from_line(b"forward 5"), Ok(MoveCommand(Direction::Forward, 5)));
    assert_eq!(MoveCommand::from_line(b"down 0"), Ok(MoveCommand(Direction::Down, 0)));
    assert_eq!(MoveCommand::from_line(b"up 4294967295"), Ok(MoveCommand(Direction::Up, 4294967295)));
    assert_eq!(MoveCommand::from_line(b"up +7"), Ok(MoveCommand(Direction::Up, 7)));
    assert_eq!(Direction::parse(b"forward"), Ok(Direction::Forward));
    assert_eq!(Direction::parse(b"down"), Ok(Direction::Down));
    assert_eq!(Direction::parse(b"up"), Ok(Direction::Up));
}

#[test]
fn day02_first_bad_line_wins() {
    let text = b"forward 5\n\nbackward 1\nforward x\n";
    let expected = Err(ParseError { line: 1, fault: Fault::UnrecognisedDirection });
    assert_eq!(solve_part1(text), expected);
    assert_eq!(solve_part2(text), expected);
    assert_eq!(
        solve_part1(b"down 1\nup 1\nup\n"),
        Err(ParseError { line: 2, fault: Fault::MalformedCommand })
    );
    assert_eq!(
        solve_part2(b"down 1\nup one\nup\n"),
        Err(ParseError { line: 1, fault: Fault::InvalidAmount })
    );
}

#[test]
fn day02_value_list_keeps_every_line() {
    assert_eq!(
        parse_input_as_value_list::<MoveCommand>(b"up 1\r\nnope\n\ndown 2"),
        vec![
            Ok(MoveCommand(Direction::Up, 1)),
            Err(ParseError { line: 1, fault: Fault::MalformedCommand }),
            Ok(MoveCommand(Direction::Down, 2)),
        ]
    );
}

#[test]
fn day02_simple_transition_moves_one_axis() {
    let sub = Submarine { pos_x: 3, pos_z: 4, aim: 5 };
    assert_eq!(
        sub.perform_simple(MoveCommand(Direction::Up, 6)),
        Submarine { pos_x: 3, pos_z: -2, aim: 5 }
    );
    assert_eq!(
        sub.perform_simple(MoveCommand(Direction::Down, 6)),
        Submarine { pos_x: 3, pos_z: 10, aim: 5 }
    );
    assert_eq!(
        sub.perform_simple(MoveCommand(Direction::Forward, 6)),
        Submarine { pos_x: 9, pos_z: 4, aim: 5 }
    );
    assert_eq!(
        sub.perform(MoveCommand(Direction::Down, 6), Transition::Simple),
        Submarine { pos_x: 3, pos_z: 10, aim: 5 }
    );
}

#[test]
fn day02_aimed_transition_steers_by_aim() {
    let sub = Submarine { pos_x: 3, pos_z: 4, aim: 5 };
    assert_eq!(
        sub.perform_aimed(MoveCommand(Direction::Up, 6)),
        Submarine { pos_x: 3, pos_z: 4, aim: -1 }
    );
    assert_eq!(
        sub.perform_aimed(MoveCommand(Direction::Down, 6)),
        Submarine { pos_x: 3, pos_z: 4, aim: 11 }
    );
    assert_eq!(
        sub.perform_aimed(MoveCommand(Direction::Forward, 6)),
        Submarine { pos_x: 9, pos_z: 34, aim: 5 }
    );
    assert_eq!(
        sub.perform(MoveCommand(Direction::Forward, 6), Transition::Aimed),
        Submarine { pos_x: 9, pos_z: 34, aim: 5 }
    );
}

#[test]
fn day02_simple_answer_is_product_of_sums() {
    let text = b"down 7\nforward 3\nup 2\nforward 4\nup 9\ndown 1\n";
    let forward = 3 + 4;
    let down = 7 + 1;
    let up = 2 + 9;
    assert_eq!(solve_part1(text), Ok(forward * (down - up)));
    assert_eq!(solve_part1(text), Ok(-21));
    let shuffled = b"up 9\nforward 4\ndown 1\nup 2\ndown 7\nforward 3\n";
    assert_eq!(solve_part1(shuffled), Ok(-21));
}

#[test]
fn day02_aimed_answer_depends_on_order() {
    assert_eq!(solve_part2(b"down 1\nforward 1\n"), Ok(1));
    assert_eq!(solve_part2(b"forward 1\ndown 1\n"), Ok(0));
    assert_eq!(solve_part1(b"down 1\nforward 1\n"), Ok(1));
    assert_eq!(solve_part1(b"forward 1\ndown 1\n"), Ok(1));
}

#[test]
fn day02_depth_grows_downwards() {
    assert_eq!(solve_part1(b"forward 2\ndown 3\n"), Ok(6));
    assert_eq!(solve_part1(b"forward 2\nup 3\n"), Ok(-6));
    assert_eq!(solve_part2(b"up 3\nforward 2\n"), Ok(-12));
}

#[test]
fn day02_solve_follows_the_rule() {
    assert_eq!(solve(SAMPLE_INPUT, Transition::Simple), Ok(150));
    assert_eq!(solve(SAMPLE_INPUT, Transition::Aimed), Ok(900));
}

#[test]
fn day02_run_folds_until_the_first_error() {
    let up = MoveCommand(Direction::Up, 2);
    let forward = MoveCommand(Direction::Forward, 3);
    let bad = ParseError { line: 2, fault: Fault::InvalidAmount };
    let worse = ParseError { line: 3, fault: Fault::MalformedCommand };
    assert_eq!(run(vec![], Transition::Simple), Ok(0));
    assert_eq!(run(vec![Ok(up), Ok(forward)], Transition::Simple), Ok(-6));
    assert_eq!(run(vec![Ok(up), Ok(forward)], Transition::Aimed), Ok(-18));
    assert_eq!(run(vec![Ok(up), Ok(forward), Err(bad), Err(worse)], Transition::Aimed), Err(bad));
    assert_eq!(run(vec![Err(worse), Ok(up), Err(bad)], Transition::Simple), Err(worse));
}

#[test]
fn day02_try_solve_agrees_with_solve_in_range() {
    assert_eq!(try_solve(SAMPLE_INPUT, Transition::Simple), Some(Ok(150)));
    assert_eq!(try_solve(SAMPLE_INPUT, Transition::Aimed), Some(Ok(900)));
    assert_eq!(try_solve(b"", Transition::Aimed), Some(Ok(0)));
    assert_eq!(
        try_solve(b"forward 1
sideways 1
", Transition::Simple),
        Some(Err(ParseError { line: 1, fault: Fault::UnrecognisedDirection }))
    );
}

#[test]
fn day02_try_solve_refuses_what_does_not_fit() {
    let wide = b"forward 4294967295
down 4294967295
";
    assert_eq!(try_solve(wide, Transition::Simple), None);
    let fits = b"forward 3037000499
down 3037000499
";
    assert_eq!(try_solve(fits, Transition::Simple), Some(Ok(9223372030926249001)));
    let over = b"forward 3037000500
down 3037000500
";
    assert_eq!(try_solve(over, Transition::Simple), None);
    let negative = b"forward 4294967295
up 2147483648
";
    assert_eq!(try_solve(negative, Transition::Simple), Some(Ok(-9223372034707292160)));
    let lowest = b"forward 2147483648
forward 2147483648
up 2147483648
";
    assert_eq!(try_solve(lowest, Transition::Simple), Some(Ok(i64::MIN)));
    let error_first = b"oops
forward 4294967295
down 4294967295
";
    assert_eq!(
        try_solve(error_first, Transition::Simple),
        Some(Err(ParseError { line: 0, fault: Fault::MalformedCommand }))
    );
    let overflow_first = b"forward 4294967295
down 4294967295
oops
";
    assert_eq!(
        try_solve(overflow_first, Transition::Simple),
        Some(Err(ParseError { line: 2, fault: Fault::MalformedCommand }))
    );
}

#[test]
fn day02_can_perform_guards_every_field() {
    let edge = Submarine { pos_x: i64::MAX, pos_z: i64::MIN, aim: i64::MAX };
    let one = |dir| MoveCommand(dir, 1);
    let none = |dir| MoveCommand(dir, 0);
    assert!(!can_perform(&edge, one(Direction::Forward), Transition::Simple));
    assert!(!can_perform(&edge, one(Direction::Up), Transition::Simple));
    assert!(can_perform(&edge, one(Direction::Down), Transition::Simple));
    assert!(can_perform(&edge, none(Direction::Forward), Transition::Simple));
    assert!(!can_perform(&edge, one(Direction::Down), Transition::Aimed));
    assert!(can_perform(&edge, one(Direction::Up), Transition::Aimed));
    assert!(!can_perform(&edge, one(Direction::Forward), Transition::Aimed));
    assert!(can_perform(&edge, none(Direction::Forward), Transition::Aimed));
    let steep = Submarine { pos_x: 0, pos_z: -10, aim: i64::MAX };
    assert!(can_perform(&steep, one(Direction::Forward), Transition::Aimed));
    assert!(!can_perform(&steep, MoveCommand(Direction::Forward, 2), Transition::Aimed));
    let deep = Submarine { pos_x: 0, pos_z: i64::MAX, aim: 1 };
    assert!(!can_perform(&deep, one(Direction::Forward), Transition::Aimed));
    assert!(can_perform(&deep, one(Direction::Forward), Transition::Simple));
}

#[test]
fn day02_run_in_range_follows_the_course() {
    let forward = Ok(MoveCommand(Direction::Forward, 4294967295));
    let down = Ok(MoveCommand(Direction::Down, 4294967295));
    let bad = Err(ParseError { line: 1, fault: Fault::InvalidAmount });
    assert!(run_in_range(&vec![], Transition::Simple));
    assert!(run_in_range(&vec![forward, forward], Transition::Simple));
    assert!(!run_in_range(&vec![forward, down], Transition::Simple));
    assert!(run_in_range(&vec![forward, bad, down], Transition::Simple));
    assert!(run_in_range(&vec![forward, down], Transition::Aimed));
    assert!(!run_in_range(&vec![down, forward], Transition::Aimed));
}

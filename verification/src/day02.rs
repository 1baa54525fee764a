//! Submarine dead reckoning: a list of move commands, one per line, is
//! applied in order to a submarine that starts at the origin; the answer is
//! its horizontal position times its depth.
//!
//! The first line that is no command ends the run with its error.

use crate::common::{find_byte, parse_input_as_value_list, parse_u32};
use crate::common::{lines, ok_prefix, ok_run, span, u32_of, value_list};
use crate::common::{Fault, FromLine, ParseError};
use itertools::Itertools;
use vstd::prelude::*;
use vstd::slice::slice_subrange;

verus! {

/// A movement direction that can be commanded.
#[derive(Clone, Copy, Debug, PartialEq, Eq, Structural)]
pub enum Direction {
    Forward,
    Down,
    Up,
}

/// A command to move the submarine in a direction by a given number of units.
#[derive(Clone, Copy, Debug, PartialEq, Eq, Structural)]
pub struct MoveCommand(pub Direction, pub u32);

/// How a command changes the submarine.
#[derive(Clone, Copy, Debug, PartialEq, Eq, Structural)]
pub enum Transition {
    /// Up and down change the depth.
    Simple,
    /// Up and down change the aim; going forward changes the depth by the
    /// aim times the distance.
    Aimed,
}

/// The submarine's position in the ocean.
///
/// In face of normal conventions, z is measured as units _below_ sea level.
#[derive(Clone, Copy, Debug, PartialEq, Eq, Structural)]
pub struct Submarine {
    pub pos_x: i64,
    pub pos_z: i64,
    pub aim: i64,
}

/// A submarine's position as unbounded integers.
pub struct Pose {
    pub x: int,
    pub z: int,
    pub aim: int,
}

impl View for Submarine {
    type V = Pose;

    open spec fn view(&self) -> Pose {
        Pose { x: self.pos_x as int, z: self.pos_z as int, aim: self.aim as int }
    }
}

/// The byte that parts the direction from the amount.
pub const SPACE: u8 = 32;

/// The bytes of the keyword `forward`.
pub open spec fn forward_word() -> Seq<u8> {
    seq![102u8, 111u8, 114u8, 119u8, 97u8, 114u8, 100u8]
}

/// The bytes of the keyword `down`.
pub open spec fn down_word() -> Seq<u8> {
    seq![100u8, 111u8, 119u8, 110u8]
}

/// The bytes of the keyword `up`.
pub open spec fn up_word() -> Seq<u8> {
    seq![117u8, 112u8]
}

/// The direction that `token` names.
pub open spec fn direction_of(token: Seq<u8>) -> Result<Direction, Fault> {
    if token == forward_word() {
        Ok(Direction::Forward)
    } else if token == down_word() {
        Ok(Direction::Down)
    } else if token == up_word() {
        Ok(Direction::Up)
    } else {
        Err(Fault::UnrecognisedDirection)
    }
}

/// Where the first space of `line` stands, or its length if it has none.
pub open spec fn span_to_space(line: Seq<u8>) -> int {
    span(line, 0, SPACE) as int
}

/// The command that `line` writes: a direction, one space, an amount. The
/// direction is what stands before the first space, the amount all that
/// follows it.
pub open spec fn command_of(line: Seq<u8>) -> Result<MoveCommand, Fault> {
    let cut = span_to_space(line);
    if cut >= line.len() {
        Err(Fault::MalformedCommand)
    } else {
        match direction_of(line.subrange(0, cut)) {
            Err(fault) => Err(fault),
            Ok(dir) => match u32_of(line.subrange(cut + 1, line.len() as int)) {
                None => Err(Fault::InvalidAmount),
                Some(amt) => Ok(MoveCommand(dir, amt)),
            },
        }
    }
}

/// What each non-blank line of `input` parses to as a command, in order.
pub open spec fn commands(input: Seq<u8>) -> Seq<Result<MoveCommand, ParseError>> {
    value_list::<MoveCommand>(input)
}

/// Where every submarine starts.
pub open spec fn origin() -> Pose {
    Pose { x: 0, z: 0, aim: 0 }
}

/// The simple transition: up and down change the depth, forward the
/// horizontal position.
pub open spec fn simple_step(p: Pose, cmd: MoveCommand) -> Pose {
    match cmd.0 {
        Direction::Up => Pose { z: p.z - cmd.1, ..p },
        Direction::Down => Pose { z: p.z + cmd.1, ..p },
        Direction::Forward => Pose { x: p.x + cmd.1, ..p },
    }
}

/// The aimed transition: up and down change the aim; forward changes the
/// horizontal position by the amount and the depth by the amount times the
/// aim.
pub open spec fn aimed_step(p: Pose, cmd: MoveCommand) -> Pose {
    match cmd.0 {
        Direction::Up => Pose { aim: p.aim - cmd.1, ..p },
        Direction::Down => Pose { aim: p.aim + cmd.1, ..p },
        Direction::Forward => Pose { x: p.x + cmd.1, z: p.z + cmd.1 * p.aim, ..p },
    }
}

/// One command applied under `rule`.
pub open spec fn step(p: Pose, cmd: MoveCommand, rule: Transition) -> Pose {
    match rule {
        Transition::Simple => simple_step(p, cmd),
        Transition::Aimed => aimed_step(p, cmd),
    }
}

/// Whether a `Submarine` can hold `p`.
pub open spec fn in_range(p: Pose) -> bool {
    &&& i64::MIN <= p.x <= i64::MAX
    &&& i64::MIN <= p.z <= i64::MAX
    &&& i64::MIN <= p.aim <= i64::MAX
}

/// Whether a `Submarine` at `p` can take `cmd` under `rule`: the new
/// position fits, and so does the product that the aimed transition forms on
/// the way.
pub open spec fn step_fits(p: Pose, cmd: MoveCommand, rule: Transition) -> bool {
    &&& in_range(step(p, cmd, rule))
    &&& rule == Transition::Aimed && cmd.0 == Direction::Forward ==> i64::MIN <= cmd.1 * p.aim
        <= i64::MAX
}

/// Where a submarine that starts at `start` is after `cmds`, applied in
/// order under `rule`.
pub open spec fn course(start: Pose, cmds: Seq<MoveCommand>, rule: Transition) -> Pose
    decreases cmds.len(),
{
    if cmds.len() == 0 {
        start
    } else {
        step(course(start, cmds.drop_last(), rule), cmds.last(), rule)
    }
}

/// Whether a `Submarine` can hold every position on the way through `cmds`.
pub open spec fn course_fits(start: Pose, cmds: Seq<MoveCommand>, rule: Transition) -> bool {
    forall|k: int|
        0 <= k < cmds.len() ==> step_fits(course(start, #[trigger] cmds.take(k), rule), cmds[k], rule)
}

/// What folding `items` from `start` gives: the first error, or else the
/// position after all the commands.
pub open spec fn fold_of(
    start: Pose,
    items: Seq<Result<MoveCommand, ParseError>>,
    rule: Transition,
) -> Result<Pose, ParseError> {
    let n = ok_run(items, 0) as int;
    if n < items.len() {
        Err(items[n]->Err_0)
    } else {
        Ok(course(start, ok_prefix(items), rule))
    }
}

/// What running `items` from the origin under `rule` gives: the first
/// error, or else the horizontal position times the depth after all the
/// commands.
pub open spec fn run_of(items: Seq<Result<MoveCommand, ParseError>>, rule: Transition) -> Result<
    int,
    ParseError,
> {
    match fold_of(origin(), items, rule) {
        Ok(p) => Ok(p.x * p.z),
        Err(e) => Err(e),
    }
}

/// Whether the run over `items` stays within what `i64` holds: every
/// position up to the first error, and the product at the end.
pub open spec fn run_fits(items: Seq<Result<MoveCommand, ParseError>>, rule: Transition) -> bool {
    &&& course_fits(origin(), ok_prefix(items), rule)
    &&& match run_of(items, rule) {
        Ok(v) => i64::MIN <= v <= i64::MAX,
        Err(_) => true,
    }
}

/// The answer for `input` under `rule`: the error of the first line that is
/// no command, or else the horizontal position times the depth after all
/// commands.
pub open spec fn answer(input: Seq<u8>, rule: Transition) -> Result<int, ParseError> {
    run_of(commands(input), rule)
}

/// Whether the run on `input` stays within what `i64` holds.
pub open spec fn answer_fits(input: Seq<u8>, rule: Transition) -> bool {
    run_fits(commands(input), rule)
}

/// The sum of the amounts of the commands of `cmds` that go in direction
/// `dir`.
pub open spec fn total(cmds: Seq<MoveCommand>, dir: Direction) -> int
    decreases cmds.len(),
{
    if cmds.len() == 0 {
        0
    } else if cmds.last().0 == dir {
        total(cmds.drop_last(), dir) + cmds.last().1
    } else {
        total(cmds.drop_last(), dir)
    }
}

/// The horizontal position times the depth after `cmds`, applied from the
/// origin under `rule`.
pub open spec fn product_after(cmds: Seq<MoveCommand>, rule: Transition) -> int {
    course(origin(), cmds, rule).x * course(origin(), cmds, rule).z
}

/// Under the simple transition the submarine ends at the sum of the forward
/// amounts, at a depth of the sum of the down amounts less the sum of the up
/// amounts, with its aim untouched; so the answer is the product of the two.
pub proof fn lemma_simple_course_is_sums(cmds: Seq<MoveCommand>)
    ensures
        course(origin(), cmds, Transition::Simple).x == total(cmds, Direction::Forward),
        course(origin(), cmds, Transition::Simple).z == total(cmds, Direction::Down) - total(
            cmds,
            Direction::Up,
        ),
        course(origin(), cmds, Transition::Simple).aim == 0,
        product_after(cmds, Transition::Simple) == total(cmds, Direction::Forward) * (total(
            cmds,
            Direction::Down,
        ) - total(cmds, Direction::Up)),
    decreases cmds.len(),
{
    if cmds.len() > 0 {
        lemma_simple_course_is_sums(cmds.drop_last());
    }
}

/// Under the aimed transition the order of the commands matters: there are
/// two commands that give one answer in one order and another in the other.
pub proof fn lemma_aimed_order_matters()
    ensures
        exists|a: MoveCommand, b: MoveCommand|
            product_after(seq![a, b], Transition::Aimed) != product_after(
                seq![b, a],
                Transition::Aimed,
            ),
{
    let a = MoveCommand(Direction::Down, 1);
    let b = MoveCommand(Direction::Forward, 1);
    let none = Seq::<MoveCommand>::empty();
    assert(seq![a, b].drop_last() =~= seq![a]);
    assert(seq![b, a].drop_last() =~= seq![b]);
    assert(seq![a].drop_last() =~= none);
    assert(seq![b].drop_last() =~= none);
    assert(course(origin(), none, Transition::Aimed) == origin());
    assert(course(origin(), seq![a], Transition::Aimed) == Pose { x: 0, z: 0, aim: 1 });
    assert(course(origin(), seq![b], Transition::Aimed) == Pose { x: 1, z: 0, aim: 0 });
    assert(course(origin(), seq![a, b], Transition::Aimed) == Pose { x: 1, z: 1, aim: 1 });
    assert(course(origin(), seq![b, a], Transition::Aimed) == Pose { x: 1, z: 0, aim: 1 });
    assert(product_after(seq![a, b], Transition::Aimed) == 1);
    assert(product_after(seq![b, a], Transition::Aimed) == 0);
}

/// The simple answer for an input whose lines are all commands is the sum of
/// the forward amounts times the sum of the down amounts less the sum of the
/// up amounts.
pub proof fn lemma_simple_answer_is_product_of_sums(input: Seq<u8>)
    requires
        answer(input, Transition::Simple) is Ok,
    ensures
        answer(input, Transition::Simple) == Ok::<int, ParseError>(
            total(ok_prefix(commands(input)), Direction::Forward) * (total(
                ok_prefix(commands(input)),
                Direction::Down,
            ) - total(ok_prefix(commands(input)), Direction::Up)),
        ),
{
    lemma_simple_course_is_sums(ok_prefix(commands(input)));
}

/// An input without a non-blank line leaves the submarine at the origin: the
/// answer is 0 under either rule.
pub proof fn lemma_no_command_gives_zero(input: Seq<u8>, rule: Transition)
    requires
        lines(input).len() == 0,
    ensures
        answer(input, rule) == Ok::<int, ParseError>(0),
        answer_fits(input, rule),
{
    let items = commands(input);
    assert(items.len() == 0);
    assert(ok_run(items, 0) == 0);
    assert(ok_prefix(items) =~= Seq::<MoveCommand>::empty());
    assert(fold_of(origin(), items, rule) == Ok::<Pose, ParseError>(origin()));
    let p = origin();
    assert(p.x * p.z == 0) by (nonlinear_arith)
        requires
            p.x == 0,
    ;
}

/// Whether two slices hold the same bytes.
fn same_bytes(a: &[u8], b: &[u8]) -> (r: bool)
    ensures
        r == (a@ == b@),
{
    if a.len() != b.len() {
        return false;
    }
    let mut i: usize = 0;
    while i < a.len()
        invariant
            a@.len() == b@.len(),
            i <= a@.len(),
            forall|j: int| 0 <= j < i ==> a@[j] == b@[j],
        decreases a@.len() - i,
    {
        if a[i] != b[i] {
            return false;
        }
        i = i + 1;
    }
    assert(a@ =~= b@);
    true
}

impl Direction {
    /// Reads a direction keyword.
    pub fn parse(token: &[u8]) -> (r: Result<Direction, Fault>)
        ensures
            r == direction_of(token@),
    {
        let forward: [u8; 7] = [102, 111, 114, 119, 97, 114, 100];
        let down: [u8; 4] = [100, 111, 119, 110];
        let up: [u8; 2] = [117, 112];
        assert(forward@ =~= forward_word());
        assert(down@ =~= down_word());
        assert(up@ =~= up_word());
        if same_bytes(token, forward.as_slice()) {
            Ok(Direction::Forward)
        } else if same_bytes(token, down.as_slice()) {
            Ok(Direction::Down)
        } else if same_bytes(token, up.as_slice()) {
            Ok(Direction::Up)
        } else {
            Err(Fault::UnrecognisedDirection)
        }
    }
}

impl FromLine for MoveCommand {
    open spec fn of_line(line: Seq<u8>) -> Result<MoveCommand, Fault> {
        command_of(line)
    }

    /// Reads one command line.
    fn from_line(line: &[u8]) -> (r: Result<MoveCommand, Fault>) {
        let cut = find_byte(line, 0, SPACE);
        if cut >= line.len() {
            return Err(Fault::MalformedCommand);
        }
        let dir = match Direction::parse(slice_subrange(line, 0, cut)) {
            Ok(dir) => dir,
            Err(fault) => {
                return Err(fault);
            },
        };
        match parse_u32(slice_subrange(line, cut + 1, line.len())) {
            Some(amt) => Ok(MoveCommand(dir, amt)),
            None => Err(Fault::InvalidAmount),
        }
    }
}

impl Default for Submarine {
    fn default() -> (r: Submarine)
        ensures
            r@ == origin(),
    {
        Submarine { pos_x: 0, pos_z: 0, aim: 0 }
    }
}

impl Submarine {
    /// Perform a movement on the submarine.
    pub fn perform_simple(self, cmd: MoveCommand) -> (r: Submarine)
        requires
            step_fits(self@, cmd, Transition::Simple),
        ensures
            r@ == simple_step(self@, cmd),
    {
        let mut sub = self;
        let MoveCommand(dir, amt) = cmd;
        let amt = amt as i64;
        match dir {
            Direction::Up => sub.pos_z -= amt,
            Direction::Down => sub.pos_z += amt,
            Direction::Forward => sub.pos_x += amt,
        }
        sub
    }

    /// Perform a movement on the submarine, steering by its aim.
    pub fn perform_aimed(self, cmd: MoveCommand) -> (r: Submarine)
        requires
            step_fits(self@, cmd, Transition::Aimed),
        ensures
            r@ == aimed_step(self@, cmd),
    {
        let mut sub = self;
        let MoveCommand(dir, amt) = cmd;
        let amt = amt as i64;
        match dir {
            Direction::Up => sub.aim -= amt,
            Direction::Down => sub.aim += amt,
            Direction::Forward => {
                sub.pos_x += amt;
                sub.pos_z += amt * sub.aim;
            },
        }
        sub
    }

    /// Perform a movement on the submarine under `rule`.
    pub fn perform(self, cmd: MoveCommand, rule: Transition) -> (r: Submarine)
        requires
            step_fits(self@, cmd, rule),
        ensures
            r@ == step(self@, cmd, rule),
    {
        match rule {
            Transition::Simple => self.perform_simple(cmd),
            Transition::Aimed => self.perform_aimed(cmd),
        }
    }
}

/// Folds `items` from `start` with itertools' `fold_ok`, each command applied
/// by `Submarine::perform` under `rule`. `fold_ok` hands the items to the
/// function one after the other and stops at the first `Err`, which it
/// returns; with no error it returns what the last call gave. The contract
/// says that, with what `perform` ensures for each call.
#[verifier::external_body]
fn fold_commands(
    items: Vec<Result<MoveCommand, ParseError>>,
    start: Submarine,
    rule: Transition,
) -> (r: Result<Submarine, ParseError>)
    requires
        course_fits(start@, ok_prefix(items@), rule),
    ensures
        match r {
            Ok(sub) => fold_of(start@, items@, rule) == Ok::<Pose, ParseError>(sub@),
            Err(e) => fold_of(start@, items@, rule) == Err::<Pose, ParseError>(e),
        },
{
    items.into_iter().fold_ok(start, |sub, cmd| sub.perform(cmd, rule))
}

/// Runs `items` under `rule` from the origin and multiplies the horizontal
/// position by the depth.
pub fn run(items: Vec<Result<MoveCommand, ParseError>>, rule: Transition) -> (r: Result<
    i64,
    ParseError,
>)
    requires
        run_fits(items@, rule),
    ensures
        match r {
            Ok(v) => run_of(items@, rule) == Ok::<int, ParseError>(v as int),
            Err(e) => run_of(items@, rule) == Err::<int, ParseError>(e),
        },
{
    match fold_commands(items, Submarine::default(), rule) {
        Ok(sub) => Ok(sub.pos_x * sub.pos_z),
        Err(e) => Err(e),
    }
}

/// Tells whether the submarine can take `cmd` under `rule` without leaving
/// what `i64` holds.
pub fn can_perform(sub: &Submarine, cmd: MoveCommand, rule: Transition) -> (ok: bool)
    ensures
        ok == step_fits(sub@, cmd, rule),
{
    let amt: i128 = cmd.1 as i128;
    let low: i128 = i64::MIN as i128;
    let high: i128 = i64::MAX as i128;
    match rule {
        Transition::Simple => match cmd.0 {
            Direction::Up => sub.pos_z as i128 - amt >= low,
            Direction::Down => sub.pos_z as i128 + amt <= high,
            Direction::Forward => sub.pos_x as i128 + amt <= high,
        },
        Transition::Aimed => match cmd.0 {
            Direction::Up => sub.aim as i128 - amt >= low,
            Direction::Down => sub.aim as i128 + amt <= high,
            Direction::Forward => {
                let aim: i128 = sub.aim as i128;
                assert(-0x8000_0000_0000_0000_0000_0000 <= amt * aim
                    <= 0x8000_0000_0000_0000_0000_0000) by (nonlinear_arith)
                    requires
                        0 <= amt <= 0xffff_ffff,
                        -0x8000_0000_0000_0000 <= aim <= 0x8000_0000_0000_0000,
                ;
                let lift: i128 = amt * aim;
                let depth: i128 = sub.pos_z as i128 + lift;
                sub.pos_x as i128 + amt <= high && low <= lift && lift <= high && low <= depth
                    && depth <= high
            },
        },
    }
}

/// Tells whether the run over `items` stays within what `i64` holds.
pub fn run_in_range(items: &Vec<Result<MoveCommand, ParseError>>, rule: Transition) -> (ok: bool)
    ensures
        ok == run_fits(items@, rule),
{
    let ghost cmds = ok_prefix(items@);
    let mut sub = Submarine::default();
    let mut i: usize = 0;
    assert(cmds.take(0) =~= Seq::<MoveCommand>::empty());
    while i < items.len()
        invariant
            cmds == ok_prefix(items@),
            i <= items@.len(),
            ok_run(items@, 0) == i + ok_run(items@, i as int),
            sub@ == course(origin(), cmds.take(i as int), rule),
            forall|k: int|
                0 <= k < i ==> step_fits(
                    course(origin(), #[trigger] cmds.take(k), rule),
                    cmds[k],
                    rule,
                ),
        decreases items@.len() - i,
    {
        match items[i] {
            Err(_) => {
                assert(ok_run(items@, i as int) == 0);
                assert(cmds.len() == i);
                assert(course_fits(origin(), cmds, rule));
                return true;
            },
            Ok(cmd) => {
                assert(ok_run(items@, i as int) > 0);
                assert(cmds[i as int] == cmd);
                assert(cmds.take(i + 1).drop_last() =~= cmds.take(i as int));
                if !can_perform(&sub, cmd, rule) {
                    assert(!step_fits(course(origin(), cmds.take(i as int), rule), cmds[i as int], rule));
                    assert(!course_fits(origin(), cmds, rule));
                    return false;
                }
                sub = sub.perform(cmd, rule);
            },
        }
        i = i + 1;
    }
    assert(ok_run(items@, i as int) == 0);
    assert(cmds.take(i as int) =~= cmds);
    let x: i128 = sub.pos_x as i128;
    let z: i128 = sub.pos_z as i128;
    assert(-0x4000_0000_0000_0000_0000_0000_0000_0000 <= x * z
        <= 0x4000_0000_0000_0000_0000_0000_0000_0000) by (nonlinear_arith)
        requires
            -0x8000_0000_0000_0000 <= x <= 0x8000_0000_0000_0000,
            -0x8000_0000_0000_0000 <= z <= 0x8000_0000_0000_0000,
    ;
    let product: i128 = x * z;
    i64::MIN as i128 <= product && product <= i64::MAX as i128
}

/// Runs the commands of `input` under `rule` from the origin and multiplies
/// the horizontal position by the depth.
pub fn solve(input: &[u8], rule: Transition) -> (r: Result<i64, ParseError>)
    requires
        answer_fits(input@, rule),
    ensures
        match r {
            Ok(v) => answer(input@, rule) == Ok::<int, ParseError>(v as int),
            Err(e) => answer(input@, rule) == Err::<int, ParseError>(e),
        },
{
    run(parse_input_as_value_list::<MoveCommand>(input), rule)
}

/// Like `solve`, for any input: `None` where the run would leave what `i64`
/// holds.
pub fn try_solve(input: &[u8], rule: Transition) -> (r: Option<Result<i64, ParseError>>)
    ensures
        match r {
            Some(Ok(v)) => answer_fits(input@, rule) && answer(input@, rule) == Ok::<
                int,
                ParseError,
            >(v as int),
            Some(Err(e)) => answer_fits(input@, rule) && answer(input@, rule) == Err::<
                int,
                ParseError,
            >(e),
            None => !answer_fits(input@, rule),
        },
{
    let items = parse_input_as_value_list::<MoveCommand>(input);
    if run_in_range(&items, rule) {
        Some(run(items, rule))
    } else {
        None
    }
}

/// Calculate the final position of the submarine after a series of
/// movements, under the simple transition.
pub fn solve_part1(input: &[u8]) -> (r: Result<i64, ParseError>)
    requires
        answer_fits(input@, Transition::Simple),
    ensures
        match r {
            Ok(v) => answer(input@, Transition::Simple) == Ok::<int, ParseError>(v as int),
            Err(e) => answer(input@, Transition::Simple) == Err::<int, ParseError>(e),
        },
{
    solve(input, Transition::Simple)
}

/// Calculate the final position of the submarine after a series of
/// movements, under the aimed transition.
pub fn solve_part2(input: &[u8]) -> (r: Result<i64, ParseError>)
    requires
        answer_fits(input@, Transition::Aimed),
    ensures
        match r {
            Ok(v) => answer(input@, Transition::Aimed) == Ok::<int, ParseError>(v as int),
            Err(e) => answer(input@, Transition::Aimed) == Err::<int, ParseError>(e),
        },
{
    solve(input, Transition::Aimed)
}

} // verus!

//! Height trends: the input holds one height reading per line, and the
//! answer counts how often a reading, or the sum of three readings in a row,
//! is greater than the one before.
//!
//! The two counts treat a line that is no integer differently. The count over
//! single readings ends with that line's error. The count over windows leaves
//! the line out and goes on with the readings around it.

use crate::common::{lemma_lines_within_len, lemma_ok_run_ends_within, lemma_ok_values_within_len};
use crate::common::{lines, ok_prefix, ok_run, ok_values, parse_input_as_value_list, value_list};
use crate::common::ParseError;
use itertools::Itertools;
use vstd::prelude::*;

verus! {

/// What each non-blank line of `input` parses to as a height reading, in
/// order.
pub open spec fn readings(input: Seq<u8>) -> Seq<Result<i32, ParseError>> {
    value_list::<i32>(input)
}

/// The readings as unbounded integers.
pub open spec fn heights(s: Seq<i32>) -> Seq<int> {
    s.map_values(|v: i32| v as int)
}

/// How many items of `s` are greater than the item before them.
pub open spec fn count_increases(s: Seq<int>) -> nat
    decreases s.len(),
{
    if s.len() < 2 {
        0
    } else if s[s.len() - 1] > s[s.len() - 2] {
        count_increases(s.drop_last()) + 1
    } else {
        count_increases(s.drop_last())
    }
}

/// The positions of `s` whose item is greater than the item before it.
pub open spec fn rises(s: Seq<int>) -> Set<int> {
    Set::new(|i: int| 1 <= i < s.len() && s[i] > s[i - 1])
}

/// How many windows of three items in a row `s` has.
pub open spec fn window_count(len: nat) -> nat {
    if len >= 3 {
        (len - 2) as nat
    } else {
        0
    }
}

/// Every three items in a row of `s`, from the front.
pub open spec fn triples(s: Seq<i32>) -> Seq<(i32, i32, i32)> {
    Seq::new(window_count(s.len()), |i: int| (s[i], s[i + 1], s[i + 2]))
}

/// The sum of every three items in a row of `s`, from the front.
pub open spec fn window_sums(s: Seq<int>) -> Seq<int> {
    Seq::new(window_count(s.len()), |i: int| s[i] + s[i + 1] + s[i + 2])
}

/// The count over single readings: the error of the first line that is no
/// integer, or else the number of readings greater than the one before.
pub open spec fn reading_increases(input: Seq<u8>) -> Result<int, ParseError> {
    let items = readings(input);
    let n = ok_run(items, 0) as int;
    if n < items.len() {
        Err(items[n]->Err_0)
    } else {
        Ok(count_increases(heights(ok_prefix(items))) as int)
    }
}

/// The count over windows: of the lines that are integers, the number of
/// three-reading sums greater than the sum one reading earlier.
pub open spec fn window_increases(input: Seq<u8>) -> int {
    count_increases(window_sums(heights(ok_values(readings(input))))) as int
}

/// `count_increases` is the number of positions, from the second on, whose
/// item is greater than the item before; with fewer than two items it is 0.
pub proof fn lemma_count_increases_counts_rises(s: Seq<int>)
    ensures
        rises(s).finite(),
        rises(s).len() == count_increases(s),
        s.len() < 2 ==> count_increases(s) == 0,
    decreases s.len(),
{
    if s.len() < 2 {
        assert(rises(s) =~= Set::<int>::empty());
    } else {
        let front = s.drop_last();
        let k = s.len() - 1;
        lemma_count_increases_counts_rises(front);
        if s[k] > s[k - 1] {
            assert(rises(s) =~= rises(front).insert(k));
        } else {
            assert(rises(s) =~= rises(front));
        }
    }
}

/// Whether an `i32` can hold the count over the single readings of `input`,
/// as far as they are counted: up to the first line that is no integer.
pub open spec fn reading_count_fits(input: Seq<u8>) -> bool {
    count_increases(heights(ok_prefix(readings(input)))) <= i32::MAX
}

/// Whether an `i32` can hold the count over the windows of `input`.
pub open spec fn window_count_fits(input: Seq<u8>) -> bool {
    window_increases(input) <= i32::MAX
}

/// The count over a list is at least the count over any prefix of it.
pub proof fn lemma_count_increases_grows(s: Seq<int>, k: int)
    requires
        0 <= k <= s.len(),
    ensures
        count_increases(s.take(k)) <= count_increases(s),
    decreases s.len(),
{
    if k == s.len() {
        assert(s.take(k) =~= s);
    } else {
        assert(s.drop_last().take(k) =~= s.take(k));
        lemma_count_increases_grows(s.drop_last(), k);
    }
}

/// There are no more increases than items.
pub proof fn lemma_count_increases_within_len(s: Seq<int>)
    ensures
        count_increases(s) <= s.len(),
    decreases s.len(),
{
    if s.len() >= 2 {
        lemma_count_increases_within_len(s.drop_last());
    }
}

/// An `i32` can hold both counts of every input of up to `i32::MAX` bytes.
pub proof fn lemma_short_input_counts_fit(input: Seq<u8>)
    requires
        input.len() <= i32::MAX,
    ensures
        reading_count_fits(input),
        window_count_fits(input),
{
    let items = readings(input);
    lemma_lines_within_len(input, 0);
    lemma_ok_run_ends_within(items, 0);
    lemma_ok_values_within_len(items);
    lemma_count_increases_within_len(heights(ok_prefix(items)));
    lemma_count_increases_within_len(window_sums(heights(ok_values(items))));
}

/// With fewer than three readings there is no window, and nothing to count.
pub proof fn lemma_few_readings_have_no_window(s: Seq<int>)
    requires
        s.len() < 3,
    ensures
        window_sums(s).len() == 0,
        count_increases(window_sums(s)) == 0,
{
}

/// An input without a non-blank line has nothing to count: both counts
/// are 0.
pub proof fn lemma_no_reading_counts_nothing(input: Seq<u8>)
    requires
        lines(input).len() == 0,
    ensures
        reading_increases(input) == Ok::<int, ParseError>(0),
        window_increases(input) == 0,
{
    assert(heights(ok_prefix(readings(input))) =~= Seq::<int>::empty());
    assert(readings(input) =~= Seq::empty());
}

/// Keeps the readings that parsed, in order.
pub fn valid_readings(items: &Vec<Result<i32, ParseError>>) -> (out: Vec<i32>)
    ensures
        out@ == ok_values(items@),
        out@.len() <= items@.len(),
{
    let mut out: Vec<i32> = Vec::new();
    let mut i: usize = 0;
    assert(items@.take(0) =~= Seq::empty());
    while i < items.len()
        invariant
            i <= items@.len(),
            out@.len() <= i,
            out@ == ok_values(items@.take(i as int)),
        decreases items@.len() - i,
    {
        assert(items@.take(i + 1).drop_last() =~= items@.take(i as int));
        match items[i] {
            Ok(v) => {
                out.push(v);
            },
            Err(_) => {},
        }
        i = i + 1;
    }
    assert(items@.take(i as int) =~= items@);
    out
}

/// Every three readings in a row, by itertools' `tuple_windows`. Over an
/// iterator of at least three items it gives the first three, then moves on
/// by one item at a time until the last item has been part of a tuple; over
/// fewer than three it gives nothing.
#[verifier::external_body]
fn triple_windows(values: &Vec<i32>) -> (out: Vec<(i32, i32, i32)>)
    ensures
        out@ == triples(values@),
{
    values.iter().copied().tuple_windows().collect()
}

/// The sum of each window of `windows`.
pub open spec fn triple_sums(windows: Seq<(i32, i32, i32)>) -> Seq<int> {
    windows.map_values(|w: (i32, i32, i32)| w.0 + w.1 + w.2)
}

/// Counts the windows whose sum is greater than the sum of the window before.
pub fn count_rising_sums(windows: &Vec<(i32, i32, i32)>) -> (count: i32)
    requires
        count_increases(triple_sums(windows@)) <= i32::MAX,
    ensures
        count == count_increases(triple_sums(windows@)),
{
    let ghost sums = triple_sums(windows@);
    let mut count: i32 = 0;
    let mut last: i64 = 0;
    let mut i: usize = 0;
    assert(sums.take(0) =~= Seq::<int>::empty());
    while i < windows.len()
        invariant
            sums == triple_sums(windows@),
            count_increases(sums) <= i32::MAX,
            i <= windows@.len(),
            count == count_increases(sums.take(i as int)),
            i > 0 ==> last == sums[i - 1],
        decreases windows@.len() - i,
    {
        let (a, b, c) = windows[i];
        let sum: i64 = a as i64 + b as i64 + c as i64;
        proof {
            assert(sums.take(i + 1).drop_last() =~= sums.take(i as int));
            assert(sum == sums[i as int]);
            lemma_count_increases_grows(sums, i + 1);
        }
        if i > 0 && sum > last {
            count = count + 1;
        }
        last = sum;
        i = i + 1;
    }
    assert(sums.take(i as int) =~= sums);
    count
}

/// Count the number of increases in a list of height readings.
///
/// The first item is not considered an increase. The first line that is no
/// integer ends the count with its error.
pub fn solve_part1(input: &[u8]) -> (r: Result<i32, ParseError>)
    requires
        reading_count_fits(input@),
    ensures
        match r {
            Ok(count) => reading_increases(input@) == Ok::<int, ParseError>(count as int),
            Err(e) => reading_increases(input@) == Err::<int, ParseError>(e),
        },
{
    let items = parse_input_as_value_list::<i32>(input);
    let ghost seen = heights(ok_prefix(items@));
    let mut count: i32 = 0;
    let mut last: i32 = 0;
    let mut i: usize = 0;
    while i < items.len()
        invariant
            items@ == readings(input@),
            count_increases(seen) <= i32::MAX,
            i <= items@.len(),
            ok_run(items@, 0) == i + ok_run(items@, i as int),
            seen == heights(ok_prefix(items@)),
            count == count_increases(seen.take(i as int)),
            i > 0 ==> items@[i - 1] == Ok::<i32, ParseError>(last),
        decreases items@.len() - i,
    {
        let value = match items[i] {
            Ok(value) => value,
            Err(e) => {
                assert(ok_run(items@, i as int) == 0);
                return Err(e);
            },
        };
        proof {
            assert(ok_run(items@, i as int) > 0);
            assert(seen.take(i + 1).drop_last() =~= seen.take(i as int));
            lemma_count_increases_grows(seen, i + 1);
        }
        if i > 0 && value > last {
            count = count + 1;
        }
        last = value;
        i = i + 1;
    }
    assert(ok_run(items@, i as int) == 0);
    assert(seen.take(i as int) =~= seen);
    Ok(count)
}

/// Count the number of increases over a 3-reading sliding window.
///
/// The increase is calculated between the sum of the last sliding window and
/// the present. The first window is not considered an increase. Lines that
/// are no integers are left out, so this count never fails.
pub fn solve_part2(input: &[u8]) -> (r: Result<i32, ParseError>)
    requires
        window_count_fits(input@),
    ensures
        r == Ok::<i32, ParseError>(window_increases(input@) as i32),
{
    let items = parse_input_as_value_list::<i32>(input);
    let values = valid_readings(&items);
    let windows = triple_windows(&values);
    assert(triple_sums(windows@) =~= window_sums(heights(values@)));
    Ok(count_rising_sums(&windows))
}

} // verus!

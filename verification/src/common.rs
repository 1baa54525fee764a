//! Line reading and decimal parsing shared by the solvers.

use vstd::prelude::*;
use vstd::slice::slice_subrange;

verus! {

/// What was wrong with a line.
#[derive(Clone, Copy, Debug, PartialEq, Eq, Structural)]
pub enum Fault {
    /// The line is not a decimal integer that fits its type.
    InvalidInteger,
    /// The command has no space between direction and amount.
    MalformedCommand,
    /// The direction is not one of the three keywords.
    UnrecognisedDirection,
    /// The amount is not a non-negative decimal integer that fits its type.
    InvalidAmount,
}

/// A line that failed to parse: its zero-based position among the non-blank
/// lines of the input, and what was wrong with it.
#[derive(Clone, Copy, Debug, PartialEq, Eq, Structural)]
pub struct ParseError {
    pub line: usize,
    pub fault: Fault,
}

/// The byte that ends a line.
pub const LINE_FEED: u8 = 10;

/// The byte that may stand before a line feed as part of the line end.
pub const CARRIAGE_RETURN: u8 = 13;

/// The number of bytes of `s` from `start` on that come before the next
/// `stop` byte, or before the end where there is none.
pub open spec fn span(s: Seq<u8>, start: int, stop: u8) -> nat
    decreases s.len() - start,
{
    if 0 <= start < s.len() && s[start] != stop {
        1 + span(s, start + 1, stop)
    } else {
        0
    }
}

/// A line without the carriage return that may end it.
pub open spec fn strip_cr(line: Seq<u8>) -> Seq<u8> {
    if line.len() > 0 && line.last() == CARRIAGE_RETURN {
        line.drop_last()
    } else {
        line
    }
}

/// The non-blank lines of `s` that begin at `start` or later, in order. A
/// line ends before a line feed or at the end of `s`; one carriage return at
/// its end is not part of it. Nothing else is trimmed: a line of spaces is
/// not blank.
pub open spec fn lines_from(s: Seq<u8>, start: int) -> Seq<Seq<u8>>
    decreases s.len() - start,
{
    if 0 <= start < s.len() {
        let end = start + span(s, start, LINE_FEED);
        let line = strip_cr(s.subrange(start, end));
        let rest = if end < s.len() {
            lines_from(s, end + 1)
        } else {
            Seq::empty()
        };
        if line.len() == 0 {
            rest
        } else {
            seq![line] + rest
        }
    } else {
        Seq::empty()
    }
}

/// The non-blank lines of `s`, in order.
pub open spec fn lines(s: Seq<u8>) -> Seq<Seq<u8>> {
    lines_from(s, 0)
}

/// What each slice of `v` holds.
pub open spec fn views(v: Seq<&[u8]>) -> Seq<Seq<u8>> {
    v.map_values(|l: &[u8]| l@)
}

/// A value that one line of the input writes.
pub trait FromLine: Sized {
    /// What `line` parses to.
    spec fn of_line(line: Seq<u8>) -> Result<Self, Fault>;

    /// Parses one line.
    fn from_line(line: &[u8]) -> (r: Result<Self, Fault>)
        ensures
            r == Self::of_line(line@),
    ;
}

/// What the line at position `i` of `lines` parses to.
pub open spec fn value_at<T: FromLine>(lines: Seq<Seq<u8>>, i: int) -> Result<T, ParseError> {
    match T::of_line(lines[i]) {
        Ok(v) => Ok(v),
        Err(fault) => Err(ParseError { line: i as usize, fault }),
    }
}

/// What each non-blank line of `input` parses to, in order. A line that does
/// not parse gives an error and the list goes on after it.
pub open spec fn value_list<T: FromLine>(input: Seq<u8>) -> Seq<Result<T, ParseError>> {
    Seq::new(lines(input).len(), |i: int| value_at::<T>(lines(input), i))
}

/// The number of items at the front of `items`, from `from` on, that are `Ok`.
pub open spec fn ok_run<T>(items: Seq<Result<T, ParseError>>, from: int) -> nat
    decreases items.len() - from,
{
    if 0 <= from < items.len() && items[from] is Ok {
        1 + ok_run(items, from + 1)
    } else {
        0
    }
}

/// The values that come before the first error of `items`.
pub open spec fn ok_prefix<T>(items: Seq<Result<T, ParseError>>) -> Seq<T> {
    Seq::new(ok_run(items, 0), |i: int| items[i]->Ok_0)
}

/// The values of the items of `items` that are `Ok`, in order.
pub open spec fn ok_values<T>(items: Seq<Result<T, ParseError>>) -> Seq<T>
    decreases items.len(),
{
    if items.len() == 0 {
        Seq::empty()
    } else {
        let front = ok_values(items.drop_last());
        match items.last() {
            Ok(v) => front.push(v),
            Err(_) => front,
        }
    }
}

/// A run of bytes ends within the sequence.
pub proof fn lemma_span_ends_within(s: Seq<u8>, start: int, stop: u8)
    requires
        0 <= start <= s.len(),
    ensures
        start + span(s, start, stop) <= s.len(),
    decreases s.len() - start,
{
    if start < s.len() && s[start] != stop {
        lemma_span_ends_within(s, start + 1, stop);
    }
}

/// There are no more non-blank lines than bytes.
pub proof fn lemma_lines_within_len(s: Seq<u8>, start: int)
    requires
        0 <= start <= s.len(),
    ensures
        lines_from(s, start).len() <= s.len() - start,
    decreases s.len() - start,
{
    if start < s.len() {
        let end = start + span(s, start, LINE_FEED);
        lemma_span_ends_within(s, start, LINE_FEED);
        if end < s.len() {
            lemma_lines_within_len(s, end + 1);
        }
    }
}

/// The run of `Ok` items from `from` ends within the list.
pub proof fn lemma_ok_run_ends_within<T>(items: Seq<Result<T, ParseError>>, from: int)
    requires
        0 <= from <= items.len(),
    ensures
        from + ok_run(items, from) <= items.len(),
    decreases items.len() - from,
{
    if from < items.len() && items[from] is Ok {
        lemma_ok_run_ends_within(items, from + 1);
    }
}

/// There are no more `Ok` values than items.
pub proof fn lemma_ok_values_within_len<T>(items: Seq<Result<T, ParseError>>)
    ensures
        ok_values(items).len() <= items.len(),
    decreases items.len(),
{
    if items.len() > 0 {
        lemma_ok_values_within_len(items.drop_last());
    }
}

/// Finds the end of the run of bytes from `start` that holds no `stop` byte.
pub fn find_byte(input: &[u8], start: usize, stop: u8) -> (end: usize)
    requires
        start <= input@.len(),
    ensures
        end == start + span(input@, start as int, stop),
        start <= end <= input@.len(),
{
    let mut end: usize = start;
    while end < input.len() && input[end] != stop
        invariant
            start <= end <= input@.len(),
            span(input@, start as int, stop) == (end - start) + span(input@, end as int, stop),
        decreases input@.len() - end,
    {
        end = end + 1;
    }
    end
}

/// Cuts `input` into its non-blank lines.
pub fn read_lines<'a>(input: &'a [u8]) -> (out: Vec<&'a [u8]>)
    ensures
        views(out@) == lines(input@),
        out@.len() <= input@.len(),
{
    let mut out: Vec<&'a [u8]> = Vec::new();
    let mut pos: usize = 0;
    assert(views(out@) =~= Seq::<Seq<u8>>::empty());
    while pos < input.len()
        invariant
            pos <= input@.len(),
            out@.len() <= pos,
            lines(input@) == views(out@) + lines_from(input@, pos as int),
        decreases input@.len() - pos,
    {
        let end = find_byte(input, pos, LINE_FEED);
        let stripped = if end > pos && input[end - 1] == CARRIAGE_RETURN {
            end - 1
        } else {
            end
        };
        let line = slice_subrange(input, pos, stripped);
        let ghost before = views(out@);
        assert(line@ == strip_cr(input@.subrange(pos as int, end as int)));
        if stripped > pos {
            out.push(line);
            assert(views(out@) =~= before + seq![line@]);
        }
        pos = if end < input.len() {
            end + 1
        } else {
            end
        };
    }
    out
}

/// Whether `b` is an ASCII decimal digit.
pub open spec fn is_digit(b: u8) -> bool {
    48 <= b <= 57
}

/// The number that the decimal digits `s` write; 0 for no digits.
pub open spec fn digits_value(s: Seq<u8>) -> nat
    decreases s.len(),
{
    if s.len() == 0 {
        0
    } else {
        digits_value(s.drop_last()) * 10 + (s.last() - 48) as nat
    }
}

/// The number that `s` writes, where `s` is one or more decimal digits and
/// nothing else.
pub open spec fn decimal(s: Seq<u8>) -> Option<nat> {
    if s.len() > 0 && forall|i: int| 0 <= i < s.len() ==> is_digit(#[trigger] s[i]) {
        Some(digits_value(s))
    } else {
        None
    }
}

/// The number that `s` writes, where `s` is a decimal with an optional `+`
/// in front.
pub open spec fn unsigned_decimal(s: Seq<u8>) -> Option<nat> {
    if s.len() > 0 && s[0] == 43 {
        decimal(s.skip(1))
    } else {
        decimal(s)
    }
}

/// The integer that `s` writes, where `s` is a decimal with an optional `+`
/// or `-` in front.
pub open spec fn signed_decimal(s: Seq<u8>) -> Option<int> {
    if s.len() > 0 && s[0] == 45 {
        match decimal(s.skip(1)) {
            Some(v) => Some(-(v as int)),
            None => None,
        }
    } else {
        match unsigned_decimal(s) {
            Some(v) => Some(v as int),
            None => None,
        }
    }
}

/// The `u32` that `s` writes, if it writes one.
pub open spec fn u32_of(s: Seq<u8>) -> Option<u32> {
    match unsigned_decimal(s) {
        Some(v) if v <= u32::MAX => Some(v as u32),
        _ => None,
    }
}

/// The `i32` that `s` writes, if it writes one.
pub open spec fn i32_of(s: Seq<u8>) -> Option<i32> {
    match signed_decimal(s) {
        Some(v) if i32::MIN <= v <= i32::MAX => Some(v as i32),
        _ => None,
    }
}

/// A number is at least the number that any prefix of its digits writes.
pub proof fn lemma_digits_value_grows(s: Seq<u8>, k: int)
    requires
        0 <= k <= s.len(),
    ensures
        digits_value(s.take(k)) <= digits_value(s),
    decreases s.len(),
{
    if k == s.len() {
        assert(s.take(k) =~= s);
    } else {
        assert(s.drop_last().take(k) =~= s.take(k));
        lemma_digits_value_grows(s.drop_last(), k);
    }
}

/// Reads a run of one or more decimal digits as a number up to `limit`.
pub fn parse_digits(digits: &[u8], limit: u64) -> (r: Option<u64>)
    ensures
        r == match decimal(digits@) {
            Some(v) if v <= limit => Some(v as u64),
            _ => None::<u64>,
        },
{
    if digits.len() == 0 {
        return None;
    }
    let mut acc: u64 = 0;
    let mut i: usize = 0;
    assert(digits@.take(0) =~= Seq::<u8>::empty());
    while i < digits.len()
        invariant
            i <= digits@.len(),
            acc <= limit,
            acc == digits_value(digits@.take(i as int)),
            forall|j: int| 0 <= j < i ==> is_digit(#[trigger] digits@[j]),
        decreases digits@.len() - i,
    {
        let byte = digits[i];
        if byte < 48 || byte > 57 {
            return None;
        }
        let d: u64 = (byte - 48) as u64;
        proof {
            assert(digits@.take(i + 1).drop_last() =~= digits@.take(i as int));
            lemma_digits_value_grows(digits@, i + 1);
        }
        if d > limit || acc > (limit - d) / 10 {
            return None;
        }
        acc = acc * 10 + d;
        i = i + 1;
    }
    assert(digits@.take(i as int) =~= digits@);
    Some(acc)
}

/// Reads `token` as a `u32`: decimal digits with an optional `+` in front.
pub fn parse_u32(token: &[u8]) -> (r: Option<u32>)
    ensures
        r == u32_of(token@),
{
    let digits = if token.len() > 0 && token[0] == 43 {
        slice_subrange(token, 1, token.len())
    } else {
        token
    };
    match parse_digits(digits, 0xffff_ffff) {
        Some(v) => Some(v as u32),
        None => None,
    }
}

/// Reads `token` as an `i32`: decimal digits with an optional `+` or `-` in
/// front.
pub fn parse_i32(token: &[u8]) -> (r: Option<i32>)
    ensures
        r == i32_of(token@),
{
    if token.len() > 0 && token[0] == 45 {
        match parse_digits(slice_subrange(token, 1, token.len()), 0x8000_0000) {
            Some(v) => Some((-(v as i64)) as i32),
            None => None,
        }
    } else {
        let digits = if token.len() > 0 && token[0] == 43 {
            slice_subrange(token, 1, token.len())
        } else {
            token
        };
        match parse_digits(digits, 0x7fff_ffff) {
            Some(v) => Some(v as i32),
            None => None,
        }
    }
}

impl FromLine for i32 {
    open spec fn of_line(line: Seq<u8>) -> Result<i32, Fault> {
        match i32_of(line) {
            Some(v) => Ok(v),
            None => Err(Fault::InvalidInteger),
        }
    }

    fn from_line(line: &[u8]) -> (r: Result<i32, Fault>) {
        match parse_i32(line) {
            Some(v) => Ok(v),
            None => Err(Fault::InvalidInteger),
        }
    }
}

/// Parses every non-blank line of `input` as a `T`.
pub fn parse_input_as_value_list<T: FromLine>(input: &[u8]) -> (out: Vec<Result<T, ParseError>>)
    ensures
        out@ == value_list::<T>(input@),
        out@.len() <= input@.len(),
{
    let rows = read_lines(input);
    let mut out: Vec<Result<T, ParseError>> = Vec::new();
    let mut i: usize = 0;
    while i < rows.len()
        invariant
            views(rows@) == lines(input@),
            i <= rows@.len(),
            out@ == value_list::<T>(input@).take(i as int),
        decreases rows@.len() - i,
    {
        let item = match T::from_line(rows[i]) {
            Ok(v) => Ok(v),
            Err(fault) => Err(ParseError { line: i, fault }),
        };
        assert(views(rows@)[i as int] == rows@[i as int]@);
        out.push(item);
        assert(out@ =~= value_list::<T>(input@).take(i + 1));
        i = i + 1;
    }
    assert(out@ =~= value_list::<T>(input@));
    out
}

} // verus!

use crate::error::Error;
use vstd::prelude::*;
use vstd::std_specs::iter::IteratorSpec;

verus! {

/// What the console handed over for one instruction.
pub enum Input {
    /// Nothing was read.
    Nothing,
    /// One byte was read.
    Byte(u8),
    /// One line was read, as it came, line end included.
    Line(String),
}

/// The mathematical value of an `Input`.
pub enum Event {
    Nothing,
    Byte(u8),
    Line(Seq<char>),
}

impl View for Input {
    type V = Event;

    open spec fn view(&self) -> Event {
        match self {
            Input::Nothing => Event::Nothing,
            Input::Byte(b) => Event::Byte(*b),
            Input::Line(s) => Event::Line(s@),
        }
    }
}

/// The mathematical values of a list of inputs.
pub open spec fn events(inputs: Seq<Input>) -> Seq<Event> {
    Seq::new(inputs.len(), |i: int| inputs[i]@)
}

/// What an instruction wants to have read before it runs.
#[derive(Clone, Copy, Debug, PartialEq, Eq, Structural)]
pub enum Request {
    /// It reads nothing.
    Nothing,
    /// It reads one byte.
    Byte,
    /// It reads one line.
    Line,
}

/// What an instruction asks to have written.
#[derive(Clone, Copy, Debug, PartialEq, Eq, Structural)]
pub enum Output {
    /// It writes nothing.
    Nothing,
    /// It writes this character.
    Char(char),
    /// It writes this integer in decimal.
    Int(i32),
}

/// The White_Space characters of Unicode.
pub open spec fn is_space(c: char) -> bool {
    let u = c as int;
    ||| 0x09 <= u <= 0x0d
    ||| u == 0x20
    ||| u == 0x85
    ||| u == 0xa0
    ||| u == 0x1680
    ||| 0x2000 <= u <= 0x200a
    ||| u == 0x2028
    ||| u == 0x2029
    ||| u == 0x202f
    ||| u == 0x205f
    ||| u == 0x3000
}

/// `s` without the white space at its start.
pub open spec fn trim_start(s: Seq<char>) -> Seq<char>
    decreases s.len(),
{
    if s.len() > 0 && is_space(s[0]) {
        trim_start(s.drop_first())
    } else {
        s
    }
}

/// `s` without the white space at its end.
pub open spec fn trim_end(s: Seq<char>) -> Seq<char>
    decreases s.len(),
{
    if s.len() > 0 && is_space(s.last()) {
        trim_end(s.drop_last())
    } else {
        s
    }
}

/// `s` without the white space at either end.
pub open spec fn trim(s: Seq<char>) -> Seq<char> {
    trim_end(trim_start(s))
}

/// One of the ten ASCII digits.
pub open spec fn is_digit(c: char) -> bool {
    0x30 <= c as int <= 0x39
}

/// The number that a run of digits writes in base ten.
pub open spec fn digits_value(s: Seq<char>) -> int
    decreases s.len(),
{
    if s.len() == 0 {
        0
    } else {
        digits_value(s.drop_last()) * 10 + (s.last() as int - 0x30)
    }
}

/// `s` starts with a sign.
pub open spec fn is_signed(s: Seq<char>) -> bool {
    s.len() > 0 && (s[0] == '-' || s[0] == '+')
}

/// `s` without its sign, if it has one.
pub open spec fn unsigned_part(s: Seq<char>) -> Seq<char> {
    if is_signed(s) {
        s.drop_first()
    } else {
        s
    }
}

/// The integer that `s` writes: an optional `+` or `-`, then one or more
/// digits and nothing else, with a value that fits in 32 bits.
pub open spec fn decimal(s: Seq<char>) -> Option<i32> {
    let body = unsigned_part(s);
    let magnitude = digits_value(body);
    let value = if is_signed(s) && s[0] == '-' { -magnitude } else { magnitude };
    if body.len() > 0 && (forall|i: int| 0 <= i < body.len() ==> is_digit(#[trigger] body[i]))
        && i32::MIN <= value <= i32::MAX {
        Some(value as i32)
    } else {
        None
    }
}

/// The integer that a line of input holds, white space around it set aside.
pub open spec fn line_value(line: Seq<char>) -> Option<i32> {
    decimal(trim(line))
}

/// Where the white space at the start of `s` ends: `k` is that place when
/// everything before it is white space and what stands at it is not.
pub proof fn lemma_trim_start(s: Seq<char>, k: int)
    requires
        0 <= k <= s.len(),
        forall|i: int| 0 <= i < k ==> is_space(#[trigger] s[i]),
        k < s.len() ==> !is_space(s[k]),
    ensures
        trim_start(s) == s.skip(k),
    decreases k,
{
    if k == 0 {
        assert(s.skip(0) =~= s);
    } else {
        let rest = s.drop_first();
        assert forall|i: int| 0 <= i < k - 1 implies is_space(#[trigger] rest[i]) by {
            assert(rest[i] == s[i + 1]);
        }
        lemma_trim_start(rest, k - 1);
        assert(rest.skip(k - 1) =~= s.skip(k));
    }
}

/// Where the white space at the end of `s` starts: `k` is that place when
/// everything from it on is white space and what stands before it is not.
pub proof fn lemma_trim_end(s: Seq<char>, k: int)
    requires
        0 <= k <= s.len(),
        forall|i: int| k <= i < s.len() ==> is_space(#[trigger] s[i]),
        k > 0 ==> !is_space(s[k - 1]),
    ensures
        trim_end(s) == s.take(k),
    decreases s.len() - k,
{
    if k == s.len() {
        assert(s.take(k) =~= s);
    } else {
        let rest = s.drop_last();
        lemma_trim_end(rest, k);
        assert(rest.take(k) =~= s.take(k));
    }
}

/// A run of digits writes no smaller a number than any of its beginnings.
pub proof fn lemma_digits_value_grows(s: Seq<char>, k: int)
    requires
        0 <= k <= s.len(),
        forall|i: int| 0 <= i < s.len() ==> is_digit(#[trigger] s[i]),
    ensures
        0 <= digits_value(s.take(k)) <= digits_value(s),
    decreases s.len() - k,
{
    if k == s.len() {
        assert(s.take(k) =~= s);
        lemma_digits_value_not_negative(s);
    } else {
        let rest = s.drop_last();
        lemma_digits_value_grows(rest, k);
        assert(rest.take(k) =~= s.take(k));
        assert(is_digit(s[s.len() - 1]));
    }
}

proof fn lemma_digits_value_not_negative(s: Seq<char>)
    requires
        forall|i: int| 0 <= i < s.len() ==> is_digit(#[trigger] s[i]),
    ensures
        0 <= digits_value(s),
    decreases s.len(),
{
    if s.len() > 0 {
        lemma_digits_value_not_negative(s.drop_last());
        assert(is_digit(s[s.len() - 1]));
    }
}

/// Tells whether `c` is white space.
pub fn is_space_char(c: char) -> (r: bool)
    ensures
        r == is_space(c),
{
    let u: u32 = c as u32;
    (0x09 <= u && u <= 0x0d) || u == 0x20 || u == 0x85 || u == 0xa0 || u == 0x1680 || (0x2000 <= u
        && u <= 0x200a) || u == 0x2028 || u == 0x2029 || u == 0x202f || u == 0x205f || u == 0x3000
}

/// The value of `c` as a digit, if it is one.
pub fn digit_of(c: char) -> (r: Option<i64>)
    ensures
        r == if is_digit(c) {
            Some((c as int - 0x30) as i64)
        } else {
            None
        },
{
    let u: u32 = c as u32;
    if 0x30 <= u && u <= 0x39 {
        Some((u - 0x30) as i64)
    } else {
        None
    }
}

/// The characters of `s`, in order.
pub fn chars_of(s: &str) -> (v: Vec<char>)
    ensures
        v@ == s@,
{
    broadcast use vstd::string::group_string_axioms;

    let mut v: Vec<char> = Vec::new();
    for c in it: s.chars()
        invariant
            it.seq() == s@,
            v@ == it.seq().take(it.index() as int),
    {
        v.push(c);
    }
    assert(v@ =~= s@);
    v
}

/// The bounds of `s` without the white space at either end.
pub fn trim_bounds(s: &Vec<char>) -> (r: (usize, usize))
    ensures
        r.0 <= r.1 <= s.len(),
        s@.subrange(r.0 as int, r.1 as int) == trim(s@),
{
    let n: usize = s.len();
    let mut from: usize = 0;
    while from < n && is_space_char(s[from])
        invariant
            n == s.len(),
            from <= n,
            forall|i: int| 0 <= i < from ==> is_space(#[trigger] s@[i]),
        decreases n - from,
    {
        from = from + 1;
    }
    let mut to: usize = n;
    while to > from && is_space_char(s[to - 1])
        invariant
            n == s.len(),
            from <= to <= n,
            forall|i: int| to <= i < n ==> is_space(#[trigger] s@[i]),
        decreases to,
    {
        to = to - 1;
    }
    proof {
        lemma_trim_start(s@, from as int);
        let rest = s@.skip(from as int);
        assert forall|i: int| to - from <= i < rest.len() implies is_space(#[trigger] rest[i]) by {
            assert(rest[i] == s@[i + from]);
        }
        lemma_trim_end(rest, to - from);
        assert(rest.take(to - from) =~= s@.subrange(from as int, to as int));
    }
    (from, to)
}

/// Reads the integer that the characters of `s` from `from` up to `to` write.
#[verifier::loop_isolation(false)]
pub fn parse_decimal(s: &Vec<char>, from: usize, to: usize) -> (r: Option<i32>)
    requires
        from <= to <= s.len(),
    ensures
        r == decimal(s@.subrange(from as int, to as int)),
{
    let ghost whole = s@.subrange(from as int, to as int);
    let mut start: usize = from;
    let mut negative: bool = false;
    if from < to && (s[from] == '-' || s[from] == '+') {
        negative = s[from] == '-';
        start = from + 1;
    }
    let ghost body = s@.subrange(start as int, to as int);
    proof {
        if start == from {
            assert(body =~= whole);
            if from < to {
                assert(whole[0] == s@[from as int]);
            }
        } else {
            assert(whole[0] == s@[from as int]);
            assert(body =~= whole.drop_first());
        }
    }
    if start == to {
        return None;
    }
    let mut i: usize = start;
    let mut acc: i64 = 0;
    while i < to
        invariant
            start <= i <= to <= s.len(),
            body == s@.subrange(start as int, to as int),
            body == unsigned_part(whole),
            body.len() > 0,
            forall|k: int| 0 <= k < i - start ==> is_digit(#[trigger] body[k]),
            acc == digits_value(body.take(i - start)),
            0 <= acc <= 0x8000_0000,
        decreases to - i,
    {
        let c: char = s[i];
        assert(body[i - start] == c);
        let digit: i64 = match digit_of(c) {
            Some(d) => d,
            None => {
                assert(!is_digit(body[i - start]));
                return None;
            },
        };
        let next: i64 = acc * 10 + digit;
        proof {
            let upto = body.take(i - start + 1);
            assert(upto.drop_last() =~= body.take(i - start));
            assert(upto.last() == body[i - start]);
            assert(digits_value(upto) == next);
        }
        if next > 0x8000_0000 {
            proof {
                if forall|k: int| 0 <= k < body.len() ==> is_digit(#[trigger] body[k]) {
                    lemma_digits_value_grows(body, i - start + 1);
                }
            }
            return None;
        }
        acc = next;
        i = i + 1;
    }
    assert(body.take(to - start) =~= body);
    if negative {
        Some((0 - acc) as i32)
    } else if acc <= 0x7fff_ffff {
        Some(acc as i32)
    } else {
        None
    }
}

/// Reads the integer that a line of input holds. White space at either end,
/// the line end with it, does not count.
pub fn read_int(line: &str) -> (r: Result<i32, Error>)
    ensures
        r == match line_value(line@) {
            Some(v) => Ok::<i32, Error>(v),
            None => Err(Error::Parse),
        },
{
    let chars = chars_of(line);
    let (from, to) = trim_bounds(&chars);
    match parse_decimal(&chars, from, to) {
        Some(v) => Ok(v),
        None => Err(Error::Parse),
    }
}

} // verus!

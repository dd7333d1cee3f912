use vstd::prelude::*;

verus! {

broadcast use vstd::string::axiom_spec_iter;

/// The characters of `s`
pub fn chars_of(s: &str) -> (r: Vec<char>)
    ensures
        r@ == s@,
{
    let mut r: Vec<char> = Vec::new();
    for c in it: s.chars()
        invariant
            r@ == it.seq().take(it.index() as int),
            it.seq() == s@,
    {
        r.push(c);
    }
    r
}

/// `true` when `s` and `t` hold the same characters
pub fn str_equals(s: &str, t: &str) -> (r: bool)
    ensures
        r == (s@ == t@),
{
    let a = s.to_owned();
    let b = t.to_owned();
    a == b
}

/// `c` is an ASCII decimal digit.
pub open spec fn is_digit(c: char) -> bool {
    '0' <= c <= '9'
}

/// The value of the decimal digit `c`
pub open spec fn digit_value(c: char) -> nat {
    (c as int - '0' as int) as nat
}

/// `s` is a non-empty sequence of decimal digits.
pub open spec fn is_digits(s: Seq<char>) -> bool {
    s.len() > 0 && forall|i: int| 0 <= i < s.len() ==> is_digit(#[trigger] s[i])
}

/// The value of the decimal number written with the digits `s`
pub open spec fn digits_value(s: Seq<char>) -> nat
    decreases s.len(),
{
    if s.len() == 0 {
        0
    } else {
        digits_value(s.drop_last()) * 10 + digit_value(s.last())
    }
}

/// The value of the unsigned decimal number written in `s`, with an optional leading `+`,
/// when it is at most `max`
pub open spec fn unsigned_value(s: Seq<char>, max: nat) -> Option<nat> {
    let d = if s.len() > 0 && s[0] == '+' {
        s.drop_first()
    } else {
        s
    };
    if is_digits(d) && digits_value(d) <= max {
        Some(digits_value(d))
    } else {
        None
    }
}

/// A value read is at most the bound it was read with.
pub proof fn lemma_unsigned_value_bound(s: Seq<char>, max: nat)
    ensures
        unsigned_value(s, max) matches Some(v) ==> v <= max,
{
}

/// The pieces of `s` between the occurrences of `sep`, in order; one piece when `sep` does
/// not occur
pub open spec fn split_on(s: Seq<char>, sep: char) -> Seq<Seq<char>>
    decreases s.len(),
{
    if s.len() == 0 {
        seq![Seq::empty()]
    } else if s.last() == sep {
        split_on(s.drop_last(), sep).push(Seq::empty())
    } else {
        let f = split_on(s.drop_last(), sep);
        f.update(f.len() - 1, f.last().push(s.last()))
    }
}

/// A sequence in which `sep` does not occur is a single piece.
pub proof fn lemma_split_on_single(s: Seq<char>, sep: char)
    requires
        forall|i: int| 0 <= i < s.len() ==> s[i] != sep,
    ensures
        split_on(s, sep) == seq![s],
    decreases s.len(),
{
    if s.len() > 0 {
        lemma_split_on_single(s.drop_last(), sep);
        assert(s.drop_last().push(s.last()) =~= s);
        assert(seq![s.drop_last()].update(0, s.drop_last().push(s.last())) =~= seq![s]);
    } else {
        assert(s =~= Seq::<char>::empty());
    }
}

/// Appending `sep` then a sequence in which `sep` does not occur appends that sequence as a
/// piece.
pub proof fn lemma_split_on_append(x: Seq<char>, y: Seq<char>, sep: char)
    requires
        forall|i: int| 0 <= i < y.len() ==> y[i] != sep,
    ensures
        split_on(x + seq![sep] + y, sep) == split_on(x, sep).push(y),
    decreases y.len(),
{
    let s = x + seq![sep] + y;
    if y.len() == 0 {
        assert(s.drop_last() =~= x);
        assert(y =~= Seq::<char>::empty());
    } else {
        lemma_split_on_append(x, y.drop_last(), sep);
        assert(s.drop_last() =~= x + seq![sep] + y.drop_last());
        assert(s.last() == y.last());
        let f = split_on(x, sep).push(y.drop_last());
        assert(y.drop_last().push(y.last()) =~= y);
        assert(f.update(f.len() - 1, f.last().push(y.last())) =~= split_on(x, sep).push(y));
    }
}

/// Splitting gives at least one piece.
proof fn lemma_split_on_nonempty(s: Seq<char>, sep: char)
    ensures
        split_on(s, sep).len() >= 1,
    decreases s.len(),
{
    if s.len() > 0 {
        lemma_split_on_nonempty(s.drop_last(), sep);
    }
}

/// Adding digits never makes the value of a digit sequence smaller.
proof fn lemma_digits_value_prefix(s: Seq<char>, i: int)
    requires
        0 <= i <= s.len(),
    ensures
        digits_value(s.take(i)) <= digits_value(s),
    decreases s.len() - i,
{
    if i < s.len() {
        lemma_digits_value_prefix(s, i + 1);
        assert(s.take(i + 1).drop_last() =~= s.take(i));
    } else {
        assert(s.take(i) =~= s);
    }
}

/// The pieces of `s` between the occurrences of `sep`
pub fn split_chars(s: &Vec<char>, sep: char) -> (r: Vec<Vec<char>>)
    ensures
        r@.map_values(|piece: Vec<char>| piece@) == split_on(s@, sep),
{
    let mut r: Vec<Vec<char>> = Vec::new();
    r.push(Vec::new());
    let mut i: usize = 0;
    proof {
        assert(s@.take(0) =~= Seq::<char>::empty());
        assert(r@.map_values(|piece: Vec<char>| piece@) =~= seq![Seq::<char>::empty()]);
    }
    while i < s.len()
        invariant
            i <= s@.len(),
            r@.map_values(|piece: Vec<char>| piece@) == split_on(s@.take(i as int), sep),
            r@.len() >= 1,
        decreases s@.len() - i,
    {
        let ghost before = r@.map_values(|piece: Vec<char>| piece@);
        proof {
            assert(s@.take(i + 1).drop_last() =~= s@.take(i as int));
        }
        let c = s[i];
        if c == sep {
            r.push(Vec::new());
            proof {
                assert(r@.map_values(|piece: Vec<char>| piece@) =~= before.push(Seq::empty()));
            }
        } else {
            let last = r.len() - 1;
            let mut piece = r[last].clone();
            piece.push(c);
            r.set(last, piece);
            proof {
                assert(r@.map_values(|piece: Vec<char>| piece@) =~= before.update(
                    before.len() - 1,
                    before.last().push(c),
                ));
            }
        }
        i += 1;
    }
    proof {
        assert(s@.take(i as int) =~= s@);
    }
    r
}

/// The value of the unsigned decimal number written in `s`, with an optional leading `+`,
/// when it is at most `max`
pub fn parse_unsigned(s: &Vec<char>, max: u32) -> (r: Option<u32>)
    ensures
        r == (match unsigned_value(s@, max as nat) {
            Some(v) => Some(v as u32),
            None => None::<u32>,
        }),
{
    let start: usize = if s.len() > 0 && s[0] == '+' {
        1
    } else {
        0
    };
    let ghost d = if s@.len() > 0 && s@[0] == '+' {
        s@.drop_first()
    } else {
        s@
    };
    assert(d =~= s@.skip(start as int));
    assert(unsigned_value(s@, max as nat) == (if is_digits(d) && digits_value(d) <= max {
        Some(digits_value(d))
    } else {
        None
    }));
    if start == s.len() {
        return None;
    }
    let mut value: u64 = 0;
    let mut i: usize = start;
    while i < s.len()
        invariant
            start <= i <= s@.len(),
            d == s@.skip(start as int),
            unsigned_value(s@, max as nat) == (if is_digits(d) && digits_value(d) <= max {
                Some(digits_value(d))
            } else {
                None
            }),
            start < s@.len(),
            value <= max,
            value == digits_value(d.take(i - start)),
            forall|j: int| 0 <= j < i - start ==> is_digit(#[trigger] d[j]),
        decreases s@.len() - i,
    {
        let c = s[i];
        proof {
            assert(d[i - start] == c);
            assert(d.take(i - start + 1).drop_last() =~= d.take(i - start));
        }
        if c < '0' || c > '9' {
            proof {
                assert(!is_digit(d[i - start]));
                assert(!is_digits(d));
            }
            return None;
        }
        let digit: u64 = (c as u64) - ('0' as u64);
        value = value * 10 + digit;
        proof {
            assert(d.take(i - start + 1).last() == c);
            assert(value == digits_value(d.take(i - start + 1)));
        }
        if value > max as u64 {
            proof {
                lemma_digits_value_prefix(d, i - start + 1);
                assert(digits_value(d) > max);
            }
            return None;
        }
        i += 1;
    }
    proof {
        assert(d.take(i - start) =~= d);
    }
    Some(value as u32)
}

/// The character of the decimal digit `d`
pub open spec fn digit_char(d: nat) -> char {
    (d + 48) as char
}

/// The decimal digits of `n`, with no leading zero but for zero itself
pub open spec fn decimal(n: nat) -> Seq<char>
    decreases n,
{
    if n < 10 {
        seq![digit_char(n)]
    } else {
        decimal(n / 10).push(digit_char(n % 10))
    }
}

/// The decimal digits of `n`, with a leading zero when there is only one
pub open spec fn two_digits(n: nat) -> Seq<char> {
    if n < 10 {
        seq!['0', digit_char(n)]
    } else {
        decimal(n)
    }
}

/// The decimal writing of `n` on at least two characters: its digits, with a leading zero
/// when there is only one, after a minus sign when it is negative
pub open spec fn signed_two_digits(n: int) -> Seq<char> {
    if n < 0 {
        seq!['-'] + decimal((-n) as nat)
    } else {
        two_digits(n as nat)
    }
}

/// The text of the decimal digit `d`
fn digit_str(d: u64) -> (r: &'static str)
    requires
        d < 10,
    ensures
        r@ == seq![digit_char(d as nat)],
{
    proof {
        reveal_strlit("0");
        reveal_strlit("1");
        reveal_strlit("2");
        reveal_strlit("3");
        reveal_strlit("4");
        reveal_strlit("5");
        reveal_strlit("6");
        reveal_strlit("7");
        reveal_strlit("8");
        reveal_strlit("9");
    }
    let r = match d {
        0 => "0",
        1 => "1",
        2 => "2",
        3 => "3",
        4 => "4",
        5 => "5",
        6 => "6",
        7 => "7",
        8 => "8",
        _ => "9",
    };
    assert(r@ =~= seq![digit_char(d as nat)]);
    r
}

/// Appends the decimal digits of `n` to `s`
pub fn push_decimal(s: &mut String, n: u64)
    ensures
        final(s)@ == old(s)@ + decimal(n as nat),
    decreases n,
{
    if n >= 10 {
        push_decimal(s, n / 10);
    }
    s.append(digit_str(n % 10));
    assert(s@ =~= old(s)@ + decimal(n as nat)) by {
        if n >= 10 {
            assert(decimal(n as nat) == decimal((n / 10) as nat).push(digit_char((n % 10) as nat)));
        }
    }
}

/// Appends to `s` the decimal writing of `n` on at least two characters
pub fn push_signed_two_digits(s: &mut String, n: i64)
    requires
        n > i64::MIN,
    ensures
        final(s)@ == old(s)@ + signed_two_digits(n as int),
{
    if n < 0 {
        s.append("-");
        proof {
            reveal_strlit("-");
        }
        push_decimal(s, (-n) as u64);
        assert(s@ =~= old(s)@ + signed_two_digits(n as int));
    } else {
        if n < 10 {
            s.append("0");
            proof {
                reveal_strlit("0");
            }
        }
        push_decimal(s, n as u64);
        assert(s@ =~= old(s)@ + signed_two_digits(n as int));
    }
}

/// `a` divided by `b`, rounded toward zero
pub open spec fn truncated_quotient(a: int, b: int) -> int {
    if a >= 0 {
        a / b
    } else {
        -((-a) / b)
    }
}

/// The remainder of `a` divided by `b`, rounded toward zero: it has the sign of `a`
pub open spec fn truncated_remainder(a: int, b: int) -> int {
    a - b * truncated_quotient(a, b)
}

/// A duration of `seconds` seconds as text: hours, minutes of two digits and seconds of two
/// digits (`1h02m03s`), or without hours when there are none (`2m03s`), or seconds alone when
/// there are no minutes either (`3s`)
pub open spec fn duration_text(seconds: nat) -> Seq<char> {
    let hours = seconds / 3600;
    let minutes = (seconds % 3600) / 60;
    let secs = seconds % 60;
    if hours != 0 {
        decimal(hours) + seq!['h'] + two_digits(minutes) + seq!['m'] + two_digits(secs) + seq!['s']
    } else if minutes != 0 {
        decimal(minutes) + seq!['m'] + two_digits(secs) + seq!['s']
    } else {
        decimal(secs) + seq!['s']
    }
}

/// A time of `seconds` seconds in a day as text: hours, minutes and seconds, each on at
/// least two characters, separated by colons (`08:05:00`); for a negative time, each of them
/// is rounded toward zero and negative when not zero (`-1:-1:-1` for -3661 seconds)
pub open spec fn time_of_day_text(seconds: int) -> Seq<char> {
    signed_two_digits(truncated_quotient(truncated_quotient(seconds, 60), 60)) + seq![':']
        + signed_two_digits(truncated_remainder(truncated_quotient(seconds, 60), 60)) + seq![':']
        + signed_two_digits(truncated_remainder(seconds, 60))
}

/// A duration of `seconds` seconds as text, as `duration_text` writes it
pub fn duration_to_string(seconds: u32) -> (r: String)
    ensures
        r@ == duration_text(seconds as nat),
{
    let hours = seconds / 3600;
    let minutes = (seconds % 3600) / 60;
    let secs = seconds % 60;
    let mut r = "".to_owned();
    proof {
        reveal_strlit("");
        reveal_strlit("h");
        reveal_strlit("m");
        reveal_strlit("s");
    }
    if hours != 0 {
        push_decimal(&mut r, hours as u64);
        r.append("h");
        push_signed_two_digits(&mut r, minutes as i64);
        r.append("m");
        push_signed_two_digits(&mut r, secs as i64);
        r.append("s");
    } else if minutes != 0 {
        push_decimal(&mut r, minutes as u64);
        r.append("m");
        push_signed_two_digits(&mut r, secs as i64);
        r.append("s");
    } else {
        push_decimal(&mut r, secs as u64);
        r.append("s");
    }
    assert(r@ =~= duration_text(seconds as nat));
    r
}

/// A time of `seconds` seconds in a day as text, as `time_of_day_text` writes it
pub fn time_of_day_to_string(seconds: i64) -> (r: String)
    ensures
        r@ == time_of_day_text(seconds as int),
{
    let hours = seconds / 60 / 60;
    let minutes = seconds / 60 % 60;
    let secs = seconds % 60;
    assert(hours == truncated_quotient(truncated_quotient(seconds as int, 60), 60));
    assert(minutes == truncated_remainder(truncated_quotient(seconds as int, 60), 60));
    assert(secs == truncated_remainder(seconds as int, 60));
    let mut r = "".to_owned();
    proof {
        reveal_strlit("");
        reveal_strlit(":");
    }
    push_signed_two_digits(&mut r, hours as i64);
    r.append(":");
    push_signed_two_digits(&mut r, minutes as i64);
    r.append(":");
    push_signed_two_digits(&mut r, secs as i64);
    assert(r@ =~= time_of_day_text(seconds as int));
    r
}

/// Counts of high, medium and low values as text: `High 1; Medium 2; Low 3; total 6`
pub open spec fn counts_text(high: nat, medium: nat, low: nat) -> Seq<char> {
    "High "@ + decimal(high) + "; Medium "@ + decimal(medium) + "; Low "@ + decimal(low) + "; total "@
        + decimal(high + medium + low)
}

/// Counts of high, medium and low values as text, as `counts_text` writes them
pub fn counts_to_string(high: u16, medium: u16, low: u16) -> (r: String)
    requires
        high + medium + low <= u16::MAX,
    ensures
        r@ == counts_text(high as nat, medium as nat, low as nat),
{
    let mut r = "High ".to_owned();
    push_decimal(&mut r, high as u64);
    r.append("; Medium ");
    push_decimal(&mut r, medium as u64);
    r.append("; Low ");
    push_decimal(&mut r, low as u64);
    r.append("; total ");
    push_decimal(&mut r, (high + medium + low) as u64);
    assert(r@ =~= counts_text(high as nat, medium as nat, low as nat));
    r
}

/// The parameters of a request as command line arguments
pub open spec fn request_params_text(
    leg_arrival_penalty: nat,
    leg_walking_penalty: nat,
    max_nb_of_legs: nat,
    max_journey_duration: nat,
) -> Seq<char> {
    "--leg_arrival_penalty "@ + duration_text(leg_arrival_penalty) + " --leg_walking_penalty "@
        + duration_text(leg_walking_penalty) + " --max_nb_of_legs "@ + decimal(max_nb_of_legs)
        + " --max_journey_duration "@ + duration_text(max_journey_duration)
}

/// The parameters of a request as command line arguments, as `request_params_text` writes
/// them, from the durations in seconds and the number of legs
pub fn request_params_to_string(
    leg_arrival_penalty: u32,
    leg_walking_penalty: u32,
    max_nb_of_legs: u8,
    max_journey_duration: u32,
) -> (r: String)
    ensures
        r@ == request_params_text(
            leg_arrival_penalty as nat,
            leg_walking_penalty as nat,
            max_nb_of_legs as nat,
            max_journey_duration as nat,
        ),
{
    let mut r = "--leg_arrival_penalty ".to_owned();
    r.append(duration_to_string(leg_arrival_penalty).as_str());
    r.append(" --leg_walking_penalty ");
    r.append(duration_to_string(leg_walking_penalty).as_str());
    r.append(" --max_nb_of_legs ");
    push_decimal(&mut r, max_nb_of_legs as u64);
    r.append(" --max_journey_duration ");
    r.append(duration_to_string(max_journey_duration).as_str());
    assert(r@ =~= request_params_text(
        leg_arrival_penalty as nat,
        leg_walking_penalty as nat,
        max_nb_of_legs as nat,
        max_journey_duration as nat,
    ));
    r
}

} // verus!

//! What the clients of the hub make of a line that the user types: a
//! request to compute a Fibonacci number (`fibonacci(12)`) or a factorial
//! (`12!`), or else a chat message.

use crate::decimal::{
    decimal, is_canonical, is_digit, lemma_canonical_is_decimal, lemma_decimal_round_trip,
    parse_u64, parse_u64_spec, without_sign,
};
use crate::registry::texts;
use vstd::prelude::*;
use vstd::string::*;
use vstd::utf8::is_ascii_chars;

verus! {

/// The text that opens a request for a Fibonacci number.
pub open spec fn fibonacci_prefix() -> Seq<char> {
    seq!['f', 'i', 'b', 'o', 'n', 'a', 'c', 'c', 'i', '(']
}

/// The argument of a request for a Fibonacci number: `line` is
/// `fibonacci(`, a canonical decimal number, and `)`, and the argument is
/// that number as written. Any other line has no such argument.
pub open spec fn fibonacci_argument(line: Seq<char>) -> Option<Seq<char>> {
    let start = fibonacci_prefix().len() as int;
    let end = line.len() - 1;
    if start < end && line.take(start) == fibonacci_prefix() && line.last() == ')' && is_canonical(
        line.subrange(start, end),
    ) {
        Some(line.subrange(start, end))
    } else {
        None
    }
}

/// The argument of a request for a factorial: `line` is a canonical decimal
/// number and `!`, and the argument is that number as written. Any other
/// line has no such argument.
pub open spec fn factorial_argument(line: Seq<char>) -> Option<Seq<char>> {
    let end = line.len() - 1;
    if 0 < end && line.last() == '!' && is_canonical(line.subrange(0, end)) {
        Some(line.subrange(0, end))
    } else {
        None
    }
}

/// What a line asks for, with text as sequences of characters.
pub enum CommandModel {
    Fibonacci(u64),
    Factorial(u64),
    NotANumber(Seq<char>),
    Message(Seq<char>),
}

/// What a line that the user typed asks for.
#[derive(Debug, PartialEq, Eq)]
pub enum Command {
    /// Compute the Fibonacci number of this index.
    Fibonacci(u64),
    /// Compute the factorial of this number.
    Factorial(u64),
    /// A computation was asked for, but its argument, which is given here
    /// as it was written, is too large a number.
    NotANumber(String),
    /// Send this line as a chat message.
    Message(String),
}

impl View for Command {
    type V = CommandModel;

    open spec fn view(&self) -> CommandModel {
        match self {
            Command::Fibonacci(n) => CommandModel::Fibonacci(*n),
            Command::Factorial(n) => CommandModel::Factorial(*n),
            Command::NotANumber(text) => CommandModel::NotANumber(text@),
            Command::Message(text) => CommandModel::Message(text@),
        }
    }
}

/// What `line` asks for: a Fibonacci number or a factorial where the line
/// has the form of such a request and its argument fits in 64 bits, the
/// argument alone where it does not fit, and else a chat message with the
/// line as its text.
pub open spec fn command_of(line: Seq<char>) -> CommandModel {
    match fibonacci_argument(line) {
        Some(digits) => match parse_u64_spec(digits) {
            Some(n) => CommandModel::Fibonacci(n),
            None => CommandModel::NotANumber(digits),
        },
        None => match factorial_argument(line) {
            Some(digits) => match parse_u64_spec(digits) {
                Some(n) => CommandModel::Factorial(n),
                None => CommandModel::NotANumber(digits),
            },
            None => CommandModel::Message(line),
        },
    }
}

/// A canonical number is read as its value where that fits in 64 bits, and
/// not at all where it does not.
proof fn lemma_parse_canonical(digits: Seq<char>)
    requires
        is_canonical(digits),
    ensures
        parse_u64_spec(digits) == if crate::decimal::number_value(digits) <= u64::MAX {
            Some(crate::decimal::number_value(digits) as u64)
        } else {
            None
        },
{
    assert(is_digit(digits[0]));
    assert(without_sign(digits) == digits);
}

/// The requests for a Fibonacci number are exactly the lines `fibonacci(`,
/// the number in decimal notation, `)`: such a line asks for the Fibonacci
/// number of that index, and no other line does.
pub proof fn lemma_fibonacci_request(line: Seq<char>, n: u64)
    ensures
        command_of(line) == CommandModel::Fibonacci(n) <==> line == fibonacci_prefix() + decimal(
            n as nat,
        ) + seq![')'],
{
    let start = fibonacci_prefix().len() as int;
    let written = fibonacci_prefix() + decimal(n as nat) + seq![')'];
    lemma_decimal_round_trip(n as nat);
    if command_of(line) == CommandModel::Fibonacci(n) {
        let digits = fibonacci_argument(line)->0;
        lemma_parse_canonical(digits);
        lemma_canonical_is_decimal(digits);
        assert(line =~= line.take(start) + line.subrange(start, line.len() - 1) + seq![line.last()]);
    }
    if line == written {
        assert(line.take(start) =~= fibonacci_prefix());
        assert(line.subrange(start, line.len() - 1) =~= decimal(n as nat));
        lemma_parse_canonical(decimal(n as nat));
    }
}

/// The requests for a factorial are exactly the lines of a number in
/// decimal notation and `!`: such a line asks for the factorial of that
/// number, and no other line does.
pub proof fn lemma_factorial_request(line: Seq<char>, n: u64)
    ensures
        command_of(line) == CommandModel::Factorial(n) <==> line == decimal(n as nat) + seq!['!'],
{
    let written = decimal(n as nat) + seq!['!'];
    lemma_decimal_round_trip(n as nat);
    if command_of(line) == CommandModel::Factorial(n) {
        let digits = factorial_argument(line)->0;
        lemma_parse_canonical(digits);
        lemma_canonical_is_decimal(digits);
        assert(line =~= line.subrange(0, line.len() - 1) + seq![line.last()]);
    }
    if line == written {
        assert(line.subrange(0, line.len() - 1) =~= decimal(n as nat));
        lemma_parse_canonical(decimal(n as nat));
    }
}

/// Whether the ASCII text `text` begins with the ASCII text `prefix`.
fn has_prefix(text: &str, prefix: &str) -> (found: bool)
    requires
        text.is_ascii(),
        prefix.is_ascii(),
    ensures
        found == (prefix@.len() <= text@.len() && text@.take(prefix@.len() as int) == prefix@),
{
    broadcast use is_ascii_spec_bytes;

    let bytes = text.as_bytes();
    let wanted = prefix.as_bytes();
    if wanted.len() > bytes.len() {
        return false;
    }
    let mut i: usize = 0;
    while i < wanted.len()
        invariant
            i <= wanted@.len() <= bytes@.len(),
            wanted@.len() == prefix@.len(),
            bytes@.len() == text@.len(),
            text.is_ascii(),
            prefix.is_ascii(),
            forall|j: int| 0 <= j < bytes@.len() ==> text@[j] as u8 == #[trigger] bytes@[j],
            forall|j: int| 0 <= j < wanted@.len() ==> prefix@[j] as u8 == #[trigger] wanted@[j],
            forall|j: int| 0 <= j < i ==> text@[j] == #[trigger] prefix@[j],
        decreases wanted@.len() - i,
    {
        proof {
            assert(text@[i as int] as u8 == bytes@[i as int]);
            assert(prefix@[i as int] as u8 == wanted@[i as int]);
            assert('\0' <= text@[i as int] <= '\u{7f}');
            assert('\0' <= prefix@[i as int] <= '\u{7f}');
        }
        if bytes[i] != wanted[i] {
            proof {
                assert(text@.take(prefix@.len() as int)[i as int] == text@[i as int]);
            }
            return false;
        }
        i = i + 1;
    }
    proof {
        assert(text@.take(prefix@.len() as int) =~= prefix@);
    }
    true
}

/// Whether the characters of the ASCII text `text` from `from` up to `to`
/// are a canonical decimal number.
fn canonical_between(text: &str, from: usize, to: usize) -> (canonical: bool)
    requires
        text.is_ascii(),
        from <= to <= text@.len(),
    ensures
        canonical == is_canonical(text@.subrange(from as int, to as int)),
{
    broadcast use is_ascii_spec_bytes;

    let bytes = text.as_bytes();
    let ghost digits = text@.subrange(from as int, to as int);
    if from == to {
        return false;
    }
    let mut i: usize = from;
    while i < to
        invariant
            from <= i <= to <= text@.len(),
            bytes@.len() == text@.len(),
            text.is_ascii(),
            digits == text@.subrange(from as int, to as int),
            forall|j: int| 0 <= j < bytes@.len() ==> text@[j] as u8 == #[trigger] bytes@[j],
            forall|j: int| 0 <= j < i - from ==> is_digit(#[trigger] digits[j]),
        decreases to - i,
    {
        let b = bytes[i];
        proof {
            assert(digits[i - from] == text@[i as int]);
            assert(text@[i as int] as u8 == b);
            assert('\0' <= text@[i as int] <= '\u{7f}');
        }
        if b < 48u8 || b > 57u8 {
            assert(!is_digit(digits[i - from]));
            return false;
        }
        i = i + 1;
    }
    proof {
        assert(digits[0] == text@[from as int]);
        assert(text@[from as int] as u8 == bytes@[from as int]);
        assert('\0' <= text@[from as int] <= '\u{7f}');
    }
    to - from == 1 || bytes[from] != 48u8
}

/// A line with a character outside ASCII is no request for a computation.
proof fn lemma_requests_are_ascii(line: Seq<char>)
    requires
        !is_ascii_chars(line),
    ensures
        fibonacci_argument(line) is None,
        factorial_argument(line) is None,
{
    let i = choose|i: int| 0 <= i < line.len() && !('\0' <= #[trigger] line[i] <= '\u{7f}');
    let start = fibonacci_prefix().len() as int;
    let end = line.len() - 1;
    if fibonacci_argument(line) is Some {
        if i < start {
            assert(line.take(start)[i] == line[i]);
            assert(fibonacci_prefix()[i] == line[i]);
        } else if i < end {
            assert(line.subrange(start, end)[i - start] == line[i]);
            assert(is_digit(line.subrange(start, end)[i - start]));
        }
    }
    if factorial_argument(line) is Some {
        if i < end {
            assert(line.subrange(0, end)[i] == line[i]);
            assert(is_digit(line.subrange(0, end)[i]));
        }
    }
}

/// The argument of a request for a Fibonacci number, as it was written, if
/// `line` is such a request.
pub fn fibonacci_pattern(line: &str) -> (argument: Option<String>)
    ensures
        argument is Some == fibonacci_argument(line@) is Some,
        argument matches Some(digits) ==> fibonacci_argument(line@) == Some(digits@),
{
    if !line.is_ascii() {
        proof {
            lemma_requests_are_ascii(line@);
        }
        return None;
    }
    broadcast use is_ascii_spec_bytes;

    let prefix = "fibonacci(";
    proof {
        reveal_strlit("fibonacci(");
        assert(prefix@ =~= fibonacci_prefix());
        assert(prefix.is_ascii());
    }
    let bytes = line.as_bytes();
    let len = bytes.len();
    if len < 12 || !has_prefix(line, prefix) {
        return None;
    }
    proof {
        assert(line@[len - 1] as u8 == bytes@[len - 1]);
        assert('\0' <= line@[len - 1] <= '\u{7f}');
    }
    if bytes[len - 1] != 41u8 || !canonical_between(line, 10, len - 1) {
        return None;
    }
    Some(String::from_str(line.substring_ascii(10, len - 1)))
}

/// The argument of a request for a factorial, as it was written, if `line`
/// is such a request.
pub fn factorial_pattern(line: &str) -> (argument: Option<String>)
    ensures
        argument is Some == factorial_argument(line@) is Some,
        argument matches Some(digits) ==> factorial_argument(line@) == Some(digits@),
{
    if !line.is_ascii() {
        proof {
            lemma_requests_are_ascii(line@);
        }
        return None;
    }
    broadcast use is_ascii_spec_bytes;

    let bytes = line.as_bytes();
    let len = bytes.len();
    if len < 2 {
        return None;
    }
    proof {
        assert(line@[len - 1] as u8 == bytes@[len - 1]);
        assert('\0' <= line@[len - 1] <= '\u{7f}');
    }
    if bytes[len - 1] != 33u8 || !canonical_between(line, 0, len - 1) {
        return None;
    }
    Some(String::from_str(line.substring_ascii(0, len - 1)))
}

/// The number that the argument of a request writes, if it fits in 64
/// bits.
pub fn extract_number(argument: &str) -> (number: Option<u64>)
    ensures
        number == parse_u64_spec(argument@),
{
    parse_u64(argument)
}

/// What the line `line` asks for.
pub fn parse_command(line: &str) -> (command: Command)
    ensures
        command@ == command_of(line@),
{
    match fibonacci_pattern(line) {
        Some(digits) => match extract_number(digits.as_str()) {
            Some(n) => Command::Fibonacci(n),
            None => Command::NotANumber(digits),
        },
        None => match factorial_pattern(line) {
            Some(digits) => match extract_number(digits.as_str()) {
                Some(n) => Command::Factorial(n),
                None => Command::NotANumber(digits),
            },
            None => Command::Message(String::from_str(line)),
        },
    }
}

/// The names `names`, each between `<` and `>`, with `, ` between one and
/// the next.
pub open spec fn listed(names: Seq<Seq<char>>) -> Seq<char>
    decreases names.len(),
{
    if names.len() == 0 {
        Seq::empty()
    } else if names.len() == 1 {
        "<"@ + names[0] + ">"@
    } else {
        listed(names.drop_last()) + ", "@ + "<"@ + names.last() + ">"@
    }
}

/// The line that tells a user who else is connected.
pub open spec fn others_line_text(names: Seq<Seq<char>>) -> Seq<char> {
    "Other connected users: "@ + listed(names) + "."@
}

/// The line that tells a user who else is connected, if anybody is: the
/// names in the order given, each between `<` and `>`.
pub fn others_line(names: &Vec<String>) -> (line: Option<String>)
    ensures
        line is Some == (names@.len() > 0),
        line matches Some(text) ==> text@ == others_line_text(texts(names@)),
{
    if names.len() == 0 {
        return None;
    }
    let mut line = String::from_str("Other connected users: ");
    let mut i: usize = 0;
    proof {
        assert(texts(names@).take(0) =~= Seq::empty());
        assert(line@ =~= "Other connected users: "@ + listed(texts(names@).take(0)));
    }
    while i < names.len()
        invariant
            i <= names@.len(),
            line@ == "Other connected users: "@ + listed(texts(names@).take(i as int)),
        decreases names@.len() - i,
    {
        let ghost seen = texts(names@).take(i as int);
        let ghost longer = texts(names@).take(i + 1);
        if i > 0 {
            line.append(", ");
        }
        line.append("<");
        line.append(names[i].as_str());
        line.append(">");
        proof {
            assert(longer.drop_last() =~= seen);
            assert(longer.last() == names@[i as int]@);
            assert(line@ =~= "Other connected users: "@ + listed(longer));
        }
        i = i + 1;
    }
    proof {
        assert(texts(names@).take(i as int) =~= texts(names@));
    }
    line.append(".");
    Some(line)
}

/// The sum of `a` and `b`, where it is a 32-bit number.
pub fn add_numbers(a: i32, b: i32) -> (sum: i32)
    requires
        i32::MIN <= a + b <= i32::MAX,
    ensures
        sum == a + b,
{
    a + b
}

} // verus!

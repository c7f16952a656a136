use chat_hub::client::{
    add_numbers, extract_number, factorial_pattern, fibonacci_pattern, others_line,
    parse_command, Command,
};
use chat_hub::decimal::{parse_u64, to_decimal};
use chat_hub::http::{handle_rejection, Reply};
use regex::Regex;

#[test]
fn test_fibonacci_pattern() {
    let captures = fibonacci_pattern("fibonacci(123)").unwrap();
    let number = extract_number(&captures).unwrap();
    assert_eq!(number, 123);
}

#[test]
fn test_factorial_pattern() {
    let captures = factorial_pattern("0!").unwrap();
    let number = extract_number(&captures).unwrap();
    assert_eq!(number, 0);
}

#[test]
fn fibonacci_pattern_captures_the_argument() {
    assert_eq!(fibonacci_pattern("fibonacci(0)"), Some("0".to_string()));
    assert_eq!(fibonacci_pattern("fibonacci(7)"), Some("7".to_string()));
    assert_eq!(
        fibonacci_pattern("fibonacci(18446744073709551616)"),
        Some("18446744073709551616".to_string())
    );
}

#[test]
fn fibonacci_pattern_rejects_other_lines() {
    for line in [
        "",
        "fibonacci",
        "fibonacci(",
        "fibonacci()",
        "fibonacci(01)",
        "fibonacci(00)",
        "fibonacci(-1)",
        "fibonacci(+1)",
        "fibonacci(1.5)",
        "fibonacci(1))",
        "fibonacci((1)",
        "fibonacci(1) ",
        " fibonacci(1)",
        "Fibonacci(1)",
        "fibonacci(1)\n",
        "fibonacci(x)",
        "fibonacci(1 )",
        "fibonacc1(1)",
        "fibonacci(\u{661})",
        "fibonacci(1)\u{e9}",
        "5!",
    ] {
        assert_eq!(fibonacci_pattern(line), None, "{line:?}");
    }
}

#[test]
fn factorial_pattern_captures_the_argument() {
    assert_eq!(factorial_pattern("5!"), Some("5".to_string()));
    assert_eq!(factorial_pattern("10!"), Some("10".to_string()));
    assert_eq!(
        factorial_pattern("99999999999999999999999!"),
        Some("99999999999999999999999".to_string())
    );
}

#[test]
fn factorial_pattern_rejects_other_lines() {
    for line in [
        "", "!", "5", "05!", "00!", "5!!", "!5", "-5!", "+5!", "5 !", " 5!", "5! ", "a!", "5!\n",
        "\u{665}!", "fibonacci(5)",
    ] {
        assert_eq!(factorial_pattern(line), None, "{line:?}");
    }
}

#[test]
fn patterns_agree_with_the_regular_expressions() {
    let fibonacci = Regex::new(r"^fibonacci\((0|[1-9][0-9]*)\)$").unwrap();
    let factorial = Regex::new(r"^(0|[1-9][0-9]*)!$").unwrap();
    let pieces = [
        "", "0", "1", "9", "10", "01", "007", "42", "!", "(", ")", "fibonacci", "fibonacci(",
        " ", "\n", "x", "+", "-", "\u{663}", "18446744073709551615", "18446744073709551616",
    ];
    for a in pieces {
        for b in pieces {
            for c in pieces {
                let line = format!("{a}{b}{c}");
                let expected = fibonacci
                    .captures(&line)
                    .map(|captures| captures.get(1).unwrap().as_str().to_string());
                assert_eq!(fibonacci_pattern(&line), expected, "{line:?}");
                let expected = factorial
                    .captures(&line)
                    .map(|captures| captures.get(1).unwrap().as_str().to_string());
                assert_eq!(factorial_pattern(&line), expected, "{line:?}");
            }
        }
    }
}

#[test]
fn extract_number_reads_what_fits() {
    assert_eq!(extract_number("0"), Some(0));
    assert_eq!(extract_number("123"), Some(123));
    assert_eq!(extract_number("18446744073709551615"), Some(u64::MAX));
    assert_eq!(extract_number("18446744073709551616"), None);
    assert_eq!(extract_number("99999999999999999999999"), None);
}

#[test]
fn parse_u64_agrees_with_the_standard_library() {
    for text in [
        "",
        "+",
        "-",
        "0",
        "+0",
        "-0",
        "7",
        "+7",
        "++7",
        "007",
        "+007",
        "12a",
        "a12",
        "1 2",
        " 12",
        "12 ",
        "1_000",
        "0x10",
        "18446744073709551615",
        "+18446744073709551615",
        "18446744073709551616",
        "18446744073709551620",
        "28446744073709551615",
        "000000000000000000000000000018446744073709551615",
        "184467440737095516150",
        "\u{661}\u{662}",
        "1\u{e9}",
        "\u{ff11}",
    ] {
        assert_eq!(parse_u64(text), text.parse::<u64>().ok(), "{text:?}");
    }
}

#[test]
fn to_decimal_writes_the_digits() {
    assert_eq!(to_decimal(0), "0");
    assert_eq!(to_decimal(9), "9");
    assert_eq!(to_decimal(10), "10");
    assert_eq!(to_decimal(1203), "1203");
    assert_eq!(to_decimal(usize::MAX), usize::MAX.to_string());
    for n in 0..2000usize {
        assert_eq!(to_decimal(n), n.to_string());
        assert_eq!(parse_u64(&to_decimal(n)), Some(n as u64));
    }
}

#[test]
fn parse_command_tells_requests_from_messages() {
    assert_eq!(parse_command("fibonacci(123)"), Command::Fibonacci(123));
    assert_eq!(parse_command("fibonacci(0)"), Command::Fibonacci(0));
    assert_eq!(parse_command("0!"), Command::Factorial(0));
    assert_eq!(parse_command("25!"), Command::Factorial(25));
    assert_eq!(
        parse_command("fibonacci(18446744073709551615)"),
        Command::Fibonacci(u64::MAX)
    );
    assert_eq!(
        parse_command("fibonacci(18446744073709551616)"),
        Command::NotANumber("18446744073709551616".to_string())
    );
    assert_eq!(
        parse_command("18446744073709551616!"),
        Command::NotANumber("18446744073709551616".to_string())
    );
    for line in ["hello", "", "fibonacci(01)", "5 !", "fibonacci(5)!", "what is 5!?"] {
        assert_eq!(parse_command(line), Command::Message(line.to_string()));
    }
}

#[test]
fn others_line_lists_the_names() {
    assert_eq!(others_line(&vec![]), None);
    assert_eq!(
        others_line(&vec!["User 1".to_string()]),
        Some("Other connected users: <User 1>.".to_string())
    );
    assert_eq!(
        others_line(&vec![
            "User 1".to_string(),
            "User 3".to_string(),
            "User 12".to_string()
        ]),
        Some("Other connected users: <User 1>, <User 3>, <User 12>.".to_string())
    );
    assert_eq!(
        others_line(&vec!["".to_string(), "a, b".to_string()]),
        Some("Other connected users: <>, <a, b>.".to_string())
    );
}

#[test]
fn others_line_agrees_with_join() {
    for count in 1..6usize {
        let names: Vec<String> = (0..count).map(|n| format!("User {}", n * 7 + 1)).collect();
        let expected = format!(
            "Other connected users: {}.",
            names
                .iter()
                .map(|user| format!("<{user}>"))
                .collect::<Vec<String>>()
                .join(", ")
        );
        assert_eq!(others_line(&names), Some(expected));
    }
}

#[test]
fn add_numbers_adds() {
    assert_eq!(5, add_numbers(2, 3));
    assert_eq!(add_numbers(-7, 7), 0);
    assert_eq!(add_numbers(i32::MAX, 0), i32::MAX);
    assert_eq!(add_numbers(i32::MIN, i32::MAX), -1);
}

#[test]
fn rejection_is_answered_by_its_kind() {
    assert_eq!(
        handle_rejection(true),
        Reply { status: 404, body: "Not found" }
    );
    assert_eq!(
        handle_rejection(false),
        Reply { status: 500, body: "Internal server error" }
    );
}

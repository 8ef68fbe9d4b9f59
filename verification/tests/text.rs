use llama_serve::text::{count_rows, div_ceil, push_decimal};

fn decimal(n: usize) -> String {
    let mut text = String::new();
    push_decimal(&mut text, n);
    text
}

#[test]
fn decimal_numbers() {
    for n in [0, 7, 9, 10, 99, 100, 1024, 65535, usize::MAX] {
        assert_eq!(decimal(n), n.to_string());
    }
    let mut text = "n = ".to_string();
    push_decimal(&mut text, 42);
    assert_eq!(text, "n = 42");
}

#[test]
fn quotients_are_rounded_up() {
    assert_eq!(div_ceil(0, 7), 0);
    assert_eq!(div_ceil(1, 7), 1);
    assert_eq!(div_ceil(7, 7), 1);
    assert_eq!(div_ceil(8, 7), 2);
    assert_eq!(div_ceil(usize::MAX, 1), usize::MAX);
}

#[test]
fn rows_of_texts() {
    let rows = |text: &str, width: usize| -> usize {
        text.lines().map(|line| (line.len() + 1).div_ceil(width)).sum()
    };
    for text in [
        "",
        "\n",
        "\n\n",
        "a",
        "user> hello\n",
        "user> hello\nassistant> hi\nuser> \n",
        "one\r\ntwo\r\n",
        "lone\rreturn",
        "ends in return\r",
        "\r\n",
        "h\u{e9}llo w\u{f6}rld\n\u{4f60}\u{597d}\n\u{1f600}",
    ] {
        for width in [1, 2, 3, 5, 8, 80] {
            assert_eq!(count_rows(text, width), rows(text, width), "{text:?} {width}");
        }
    }
    assert_eq!(count_rows("123456789\n", 5), 2);
    assert_eq!(count_rows("1234567890\n", 5), 3);
}

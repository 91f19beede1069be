use revpick::parser::{mk_reflike, parse_bufread, parse_line, parse_lines, Located, RefLike};
use revpick::text::split_lines;

fn mk_located(hash: &str, col: usize, line: usize) -> Located<RefLike> {
    Located {
        el: RefLike {
            hash: hash.to_string(),
        },
        col: col,
        line: line,
    }
}

#[test]
fn test_token() {
    assert_eq!(
        parse_line("deadbeef", 0).unwrap(),
        vec![mk_located("deadbeef", 0, 0)]
    );

    assert_eq!(
        parse_line("deadbeef-faceb00c", 0).unwrap(),
        vec![mk_located("deadbeef", 0, 0), mk_located("faceb00c", 9, 0)]
    );
}

#[test]
fn test_full_parse_line() {
    assert_eq!(
        parse_line("deadbeef-525-hello-faceb00c", 0).unwrap(),
        vec![mk_located("deadbeef", 0, 0), mk_located("faceb00c", 19, 0)]
    );
}

#[test]
fn test_regression_split_line() {
    assert_eq!(
        parse_line("   Compiling dialoguer v0.1.0 (https://github.com/mitsuhiko/dialoguer?rev=5f28d3d74768b6ba532866ee3c83df9324f9df06#5f28d3d7)", 0).unwrap(),
        vec![mk_located("5f28d3d74768b6ba532866ee3c83df9324f9df06", 74, 0), mk_located("5f28d3d7", 115, 0)]
    );
}

#[test]
fn test_full_parse_lines() {
    let str = "hello deadbeef\nlorem ipsum\r\ndolor 9d393a816701d3e74f268f3b6c3f6ff43f25e811 sup\n";

    assert_eq!(
        parse_bufread(str),
        vec![
            mk_located("deadbeef", 6, 0),
            mk_located("9d393a816701d3e74f268f3b6c3f6ff43f25e811", 6, 2),
        ]
    );
}

#[test]
fn multi_line_example_from_lines() {
    let lines = vec![
        "hello deadbeef".to_string(),
        "lorem ipsum".to_string(),
        "dolor 9d393a816701d3e74f268f3b6c3f6ff43f25e811 sup".to_string(),
    ];
    assert_eq!(
        parse_lines(&lines),
        vec![
            mk_located("deadbeef", 6, 0),
            mk_located("9d393a816701d3e74f268f3b6c3f6ff43f25e811", 6, 2),
        ]
    );
}

#[test]
fn row_number_is_kept() {
    assert_eq!(
        parse_line("x abcdef", 7).unwrap(),
        vec![mk_located("abcdef", 2, 7)]
    );
}

#[test]
fn length_gate_at_six() {
    assert_eq!(parse_line("abcde 12345", 0).unwrap(), vec![]);
    assert_eq!(
        parse_line("abcdef 123456", 0).unwrap(),
        vec![mk_located("abcdef", 0, 0), mk_located("123456", 7, 0)]
    );
}

#[test]
fn no_token_is_short() {
    let tokens = parse_bufread("a1 b22 c333 d4444 e55555 f666666 0123456789abcdef\nfff ffffff");
    assert!(tokens.iter().all(|t| t.el.hash.len() >= 6));
    let hashes: Vec<&str> = tokens.iter().map(|t| t.el.hash.as_str()).collect();
    assert_eq!(hashes, vec!["e55555", "f666666", "0123456789abcdef", "ffffff"]);
}

#[test]
fn tokens_on_a_line_are_ordered_and_apart() {
    let tokens = parse_line("aaaaaa-bbbbbb cccccc:dddddd eeeeeeeeee", 0).unwrap();
    assert_eq!(tokens.len(), 5);
    for w in tokens.windows(2) {
        assert!(w[0].col < w[1].col);
        assert!(w[0].col + w[0].el.hash.len() < w[1].col);
    }
}

#[test]
fn runs_at_both_ends_and_upper_case() {
    assert_eq!(
        parse_line("ABCDEF12 zz 0099FFaa", 0).unwrap(),
        vec![mk_located("ABCDEF12", 0, 0), mk_located("0099FFaa", 12, 0)]
    );
}

#[test]
fn empty_and_plain_lines_yield_nothing() {
    assert_eq!(parse_line("", 0).unwrap(), vec![]);
    assert_eq!(parse_line("hello world, no hashes", 0).unwrap(), vec![]);
    assert_eq!(parse_bufread(""), vec![]);
}

#[test]
fn columns_count_characters() {
    assert_eq!(
        parse_line("héllo→ cafebabe", 0).unwrap(),
        vec![mk_located("cafebabe", 7, 0)]
    );
}

#[test]
fn a_single_separator_splits_runs() {
    assert_eq!(
        parse_line("abcdef0_1234567", 0).unwrap(),
        vec![mk_located("abcdef0", 0, 0), mk_located("1234567", 8, 0)]
    );
}

#[test]
fn mk_reflike_needs_six_characters() {
    assert_eq!(mk_reflike("abcde"), None);
    assert_eq!(
        mk_reflike("abcdef"),
        Some(RefLike {
            hash: "abcdef".to_string()
        })
    );
}

#[test]
fn split_lines_follows_line_endings() {
    assert_eq!(split_lines("a\r\nb\n"), vec!["a".to_string(), "b".to_string()]);
    assert_eq!(
        split_lines("a\n\nb"),
        vec!["a".to_string(), "".to_string(), "b".to_string()]
    );
    assert_eq!(split_lines("x\r"), vec!["x\r".to_string()]);
    assert_eq!(split_lines(""), Vec::<String>::new());
    assert_eq!(split_lines("\n"), vec!["".to_string()]);
}

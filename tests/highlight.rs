use revpick::highlight::{tokens_fit_lines, revs, splice};
use revpick::parser::{parse_lines, Located, RefLike};

fn mk_located(hash: &str, col: usize) -> Located<RefLike> {
    Located {
        el: RefLike {
            hash: hash.to_string(),
        },
        col: col,
        line: 0,
    }
}

fn mk_on_line(hash: &str, col: usize, line: usize) -> Located<RefLike> {
    Located {
        el: RefLike {
            hash: hash.to_string(),
        },
        col: col,
        line: line,
    }
}

fn strip_styles(s: &str) -> String {
    s.replace("\u{1b}[33m", "")
        .replace("\u{1b}[35m", "")
        .replace("\u{1b}[0m", "")
}

#[test]
fn test_highlight_line() {
    colored::control::set_override(true);
    let testline = "deadbeef-525-hello-faceb00c";
    let revs = vec![mk_located("deadbeef", 0), mk_located("faceb00c", 19)];
    assert_eq!(
        revpick::highlight::line(&testline, &revs, None),
        "\u{1b}[35mdeadbeef\u{1b}[0m-525-hello-\u{1b}[35mfaceb00c\u{1b}[0m"
    );
}

#[test]
fn test_highlight_select_line() {
    colored::control::set_override(true);
    let testline = "deadbeef-525-hello-faceb00c";
    let revs = vec![mk_located("deadbeef", 0), mk_located("faceb00c", 19)];
    assert_eq!(
        revpick::highlight::line(&testline, &revs, Some(0)),
        "\u{1b}[33mdeadbeef\u{1b}[0m-525-hello-\u{1b}[35mfaceb00c\u{1b}[0m"
    );
}

#[test]
fn test_highlight_nothing() {
    let testline = "deadbeef-525-hello-faceb00c";
    let revs = vec![];
    assert_eq!(revpick::highlight::line(&testline, &revs, None), testline);
}

#[test]
fn selecting_the_second_token() {
    colored::control::set_override(true);
    let testline = "deadbeef-525-hello-faceb00c";
    let revs = vec![mk_located("deadbeef", 0), mk_located("faceb00c", 19)];
    assert_eq!(
        revpick::highlight::line(&testline, &revs, Some(1)),
        "\u{1b}[35mdeadbeef\u{1b}[0m-525-hello-\u{1b}[33mfaceb00c\u{1b}[0m"
    );
}

#[test]
fn marking_strips_back_to_the_line() {
    colored::control::set_override(true);
    let text = "x 0123456789 y abcdefab: z";
    let lines = vec![text.to_string()];
    let tokens = parse_lines(&lines);
    assert_eq!(tokens.len(), 2);
    for sel in [None, Some(0), Some(1)] {
        let out = revpick::highlight::line(text, &tokens, sel);
        assert_ne!(out, text);
        assert_eq!(strip_styles(&out), text);
    }
}

#[test]
fn splice_puts_painted_text_in_place() {
    let tokens = vec![mk_located("abcdef", 2), mk_located("123456", 9)];
    let painted = vec!["<A>".to_string(), "<B>".to_string()];
    assert_eq!(splice("x abcdef 123456!", &tokens, 0, 2, &painted), "x <A> <B>!");
    assert_eq!(
        splice("x abcdef 123456!", &tokens, 1, 2, &vec!["<B>".to_string()]),
        "x abcdef <B>!"
    );
}

#[test]
fn revs_renders_every_line() {
    colored::control::set_override(true);
    let lines = vec![
        "hello deadbeef".to_string(),
        "lorem ipsum".to_string(),
        "dolor 9d393a816701d3e74f268f3b6c3f6ff43f25e811 sup".to_string(),
    ];
    let tokens = parse_lines(&lines);
    assert!(tokens_fit_lines(&lines, &tokens));
    let out: Vec<String> = revs(&lines, &tokens, Some(1))
        .iter()
        .map(|l| (*l).clone())
        .collect();
    assert_eq!(
        out,
        vec![
            "hello \u{1b}[35mdeadbeef\u{1b}[0m".to_string(),
            "lorem ipsum".to_string(),
            "dolor \u{1b}[33m9d393a816701d3e74f268f3b6c3f6ff43f25e811\u{1b}[0m sup".to_string(),
        ]
    );
}

#[test]
fn revs_with_no_tokens_copies_lines() {
    let lines = vec!["one".to_string(), "".to_string(), "three".to_string()];
    let out: Vec<String> = revs(&lines, &[], None)
        .iter()
        .map(|l| (*l).clone())
        .collect();
    assert_eq!(out, lines);
}

#[test]
fn fit_check_rejects_bad_tokens() {
    let lines = vec!["abcdef abcdef".to_string(), "x".to_string()];
    assert!(tokens_fit_lines(&lines, &[mk_on_line("abcdef", 0, 0), mk_on_line("abcdef", 7, 0)]));
    assert!(!tokens_fit_lines(&lines, &[mk_on_line("abcdef", 0, 5)]));
    assert!(!tokens_fit_lines(&lines, &[mk_on_line("abcdef", 0, 1)]));
    assert!(!tokens_fit_lines(&lines, &[mk_on_line("abcdef", 0, 0), mk_on_line("abcdef", 3, 0)]));
    assert!(!tokens_fit_lines(&lines, &[mk_on_line("abcdeg", 0, 0)]));
    assert!(!tokens_fit_lines(&lines, &[mk_on_line("abcdef", 7, 0), mk_on_line("abcdef", 0, 0)]));
}

use revpick::parser::{Located, RefLike};

#[test]
fn without_colours_the_line_is_unchanged() {
    colored::control::set_override(false);
    let testline = "deadbeef-525-hello-faceb00c";
    let revs = vec![
        Located {
            el: RefLike {
                hash: "deadbeef".to_string(),
            },
            col: 0,
            line: 0,
        },
        Located {
            el: RefLike {
                hash: "faceb00c".to_string(),
            },
            col: 19,
            line: 0,
        },
    ];
    assert_eq!(revpick::highlight::line(testline, &revs, Some(0)), testline);
}

use revpick::parser::parse_bufread;
use revpick::select::start;
use revpick::session::{first_backend, truncate_to_viewport};

fn lines(n: usize) -> Vec<String> {
    (0..n).map(|i| format!("line {}", i)).collect()
}

#[test]
fn no_candidates_means_no_interaction() {
    let tokens = parse_bufread("nothing here\nabc 12345 xyz\n");
    assert!(tokens.is_empty());
    assert_eq!(start(tokens.len()), None);
}

#[test]
fn viewport_keeps_the_last_lines() {
    let all = lines(5);
    assert_eq!(truncate_to_viewport(&all, None), all);
    assert_eq!(truncate_to_viewport(&all, Some(3)), all[3..].to_vec());
    assert_eq!(truncate_to_viewport(&all, Some(6)), all);
    assert_eq!(truncate_to_viewport(&all, Some(60)), all);
    assert_eq!(truncate_to_viewport(&all, Some(1)), Vec::<String>::new());
    assert_eq!(truncate_to_viewport(&all, Some(0)), Vec::<String>::new());
    assert_eq!(truncate_to_viewport(&Vec::new(), Some(4)), Vec::<String>::new());
}

#[test]
fn nearest_directory_then_priority() {
    assert_eq!(first_backend(&vec![]), None);
    assert_eq!(first_backend(&vec![vec![false, false], vec![false, false]]), None);
    assert_eq!(
        first_backend(&vec![vec![false, false], vec![false, true], vec![true, false]]),
        Some((1, 1))
    );
    assert_eq!(first_backend(&vec![vec![true, true]]), Some((0, 0)));
    assert_eq!(first_backend(&vec![vec![false, true], vec![true, true]]), Some((0, 1)));
}

use oxi_phil::lines::{collapse, feed};

fn chars(s: &str) -> Vec<char> {
    s.chars().collect()
}

fn buffer(lines: &[&str]) -> Vec<Vec<char>> {
    lines.iter().map(|l| chars(l)).collect()
}

fn strings(lines: &[Vec<char>]) -> Vec<String> {
    lines.iter().map(|l| l.iter().collect()).collect()
}

fn fed(lines: &[&str], piece: &str) -> Vec<String> {
    let mut b = buffer(lines);
    feed(&mut b, &chars(piece));
    strings(&b)
}

#[test]
fn feed_of_an_empty_piece_changes_nothing() {
    assert_eq!(fed(&["a", "b"], ""), vec!["a", "b"]);
}

#[test]
fn feed_of_a_line_break_starts_a_line() {
    assert_eq!(fed(&["a"], "\n"), vec!["a", ""]);
    assert_eq!(fed(&[""], "\n"), vec!["", ""]);
}

#[test]
fn feed_of_plain_text_appends_to_the_current_line() {
    assert_eq!(fed(&["a", "b"], "cd"), vec!["a", "bcd"]);
    assert_eq!(fed(&[""], "x"), vec!["x"]);
}

#[test]
fn feed_of_text_with_line_breaks_adds_its_segments_with_blank_lines_between() {
    assert_eq!(fed(&["a"], "b\nc"), vec!["a", "b", "", "c"]);
    assert_eq!(fed(&["a"], "b\n"), vec!["a", "b", "", ""]);
    assert_eq!(fed(&["a"], "\nb"), vec!["a", "", "", "b"]);
    assert_eq!(fed(&["a"], "\n\n"), vec!["a", "", "", "", "", ""]);
}

#[test]
fn collapse_cuts_each_run_of_blank_lines_to_one() {
    let collapsed = |lines: &[&str]| strings(&collapse(buffer(lines)));
    assert_eq!(collapsed(&["a", "", "", "b"]), vec!["a", "", "b"]);
    assert_eq!(collapsed(&["", "", ""]), vec![""]);
    assert_eq!(collapsed(&["", "a", "", "b", ""]), vec!["", "a", "", "b", ""]);
    assert_eq!(collapsed(&["a", "", "", "", "b", "", "", ""]), vec!["a", "", "b", ""]);
    assert_eq!(collapsed(&[]), Vec::<String>::new());
    assert_eq!(collapsed(&["a", " ", "", "b"]), vec!["a", " ", "", "b"]);
}

use firefam::history_cell::blank_line;
use firefam::history_cell::plain_lines;
use firefam::history_cell::CompositeHistoryCell;
use firefam::history_cell::HistoryCell;
use firefam::history_cell::Line;
use firefam::history_cell::PlainHistoryCell;
use firefam::history_cell::PrefixedWrappedHistoryCell;
use firefam::history_cell::Span;
use firefam::history_cell::WorkLogHistoryCell;

fn styled(text: &str, style: u64) -> Line {
    Line { spans: vec![Span { content: text.to_string(), style }] }
}

fn texts(lines: &[Line]) -> Vec<String> {
    lines
        .iter()
        .map(|l| l.spans.iter().map(|s| s.content.as_str()).collect::<String>())
        .collect()
}

fn plain(lines: &[&str]) -> HistoryCell {
    HistoryCell::Plain(PlainHistoryCell::new(lines.iter().map(|t| styled(t, 3)).collect()))
}

#[test]
fn plain_cell_shows_its_lines_at_any_width() {
    let cell = PlainHistoryCell::new(vec![styled("a", 2), styled("b", 0)]);
    assert_eq!(cell.display_lines(0), vec![styled("a", 2), styled("b", 0)]);
    assert_eq!(cell.display_lines(80), vec![styled("a", 2), styled("b", 0)]);
}

#[test]
fn raw_lines_drop_styles() {
    let cell = PlainHistoryCell::new(vec![styled("a", 2)]);
    assert_eq!(cell.raw_lines(), vec![styled("a", 0)]);
    assert_eq!(plain_lines(vec![styled("x", 9), blank_line()]), vec![styled("x", 0), blank_line()]);
}

#[test]
fn composite_separates_parts_with_blank_line() {
    let cell = CompositeHistoryCell::new(vec![plain(&["one", "two"]), plain(&["three"])]);
    assert_eq!(texts(&cell.display_lines(40)), vec!["one", "two", "", "three"]);
}

#[test]
fn composite_skips_empty_parts() {
    let cell = CompositeHistoryCell::new(vec![plain(&[]), plain(&["a"]), plain(&[]), plain(&["b"])]);
    assert_eq!(texts(&cell.display_lines(40)), vec!["a", "", "b"]);
}

#[test]
fn composite_of_nothing_is_empty() {
    let cell = CompositeHistoryCell::new(Vec::new());
    assert!(cell.display_lines(40).is_empty());
    assert!(cell.raw_lines().is_empty());
}

#[test]
fn composite_raw_lines_are_unstyled() {
    let cell = CompositeHistoryCell::new(vec![plain(&["a"]), plain(&["b"])]);
    assert_eq!(cell.raw_lines(), vec![styled("a", 0), blank_line(), styled("b", 0)]);
}

#[test]
fn work_log_cell_looks_like_its_inner_cell() {
    let cell = WorkLogHistoryCell::new(plain(&["x", "y"]));
    assert!(cell.is_work_log());
    assert_eq!(texts(&cell.display_lines(10)), vec!["x", "y"]);
    assert_eq!(cell.raw_lines(), vec![styled("x", 0), styled("y", 0)]);
    let wrapped = HistoryCell::WorkLog(cell);
    assert!(wrapped.is_work_log());
    assert!(!plain(&["z"]).is_work_log());
}

#[test]
fn nested_composites_flatten() {
    let inner = HistoryCell::Composite(CompositeHistoryCell::new(vec![plain(&["a"]), plain(&["b"])]));
    let outer = CompositeHistoryCell::new(vec![inner, plain(&["c"])]);
    assert_eq!(texts(&outer.display_lines(10)), vec!["a", "", "b", "", "c"]);
}

#[test]
fn prefixed_cell_raw_lines_drop_prefixes_and_styles() {
    let cell = PrefixedWrappedHistoryCell::new(
        vec![styled("first", 4), styled("second", 5)],
        styled("> ", 1),
        styled("  ", 1),
    );
    assert_eq!(cell.raw_lines(), vec![styled("first", 0), styled("second", 0)]);
    assert_eq!(cell.initial_prefix, styled("> ", 1));
}

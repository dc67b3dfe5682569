use backlog::item::BacklogItem;
use backlog::render::{build_prefix, cursor_segments, wrap_description, BacklogList, Cell};

fn item(desc: &str, done: bool) -> BacklogItem {
    BacklogItem { description: desc.chars().collect(), created_at: 0, done }
}

fn chars(s: &str) -> Vec<char> {
    s.chars().collect()
}

fn row_text(row: &[Cell]) -> String {
    row.iter().map(|c| c.ch).collect()
}

fn list(items: Vec<(usize, BacklogItem)>, selected: usize, renumber: bool) -> BacklogList {
    BacklogList::new(items, selected, 0, "Backlog".to_string(), renumber)
}

#[test]
fn wrapping_splits_into_fixed_runs() {
    let lines = wrap_description(&chars("abcdefghij"), 5);
    assert_eq!(lines.len(), 2);
    assert_eq!(lines[0], chars("abcde"));
    assert_eq!(lines[1], chars("fghij"));
}

#[test]
fn wrapping_leaves_a_shorter_last_run() {
    let lines = wrap_description(&chars("abcdefg"), 3);
    assert_eq!(lines, vec![chars("abc"), chars("def"), chars("g")]);
}

#[test]
fn wrapped_runs_concatenate_back_to_the_description() {
    for width in 1..12 {
        let desc = chars("a longer description to wrap");
        let lines = wrap_description(&desc, width);
        let glued: Vec<char> = lines.into_iter().flatten().collect();
        assert_eq!(glued, desc);
    }
}

#[test]
fn an_empty_description_is_one_empty_line() {
    let lines = wrap_description(&chars(""), 5);
    assert_eq!(lines, vec![chars("")]);
}

#[test]
fn zero_width_falls_back_to_a_single_line() {
    let lines = wrap_description(&chars("abc"), 0);
    assert_eq!(lines, vec![chars("abc")]);
}

#[test]
fn the_prefix_carries_number_and_checkbox() {
    assert_eq!(build_prefix(1, false), chars("1. [ ] "));
    assert_eq!(build_prefix(2, true), chars("2. [x] "));
    assert_eq!(build_prefix(12, false), chars("12. [ ] "));
    assert_eq!(build_prefix(305, true), chars("305. [x] "));
}

#[test]
fn a_row_renders_prefix_text_and_fill() {
    let l = list(vec![(0, item("hello", false))], 0, false);
    let grid = l.render(16, 5);
    assert_eq!(grid.len(), 1);
    assert_eq!(grid[0].len(), 16);
    // seven prefix characters, one unpainted gap column, the text, the fill
    assert_eq!(row_text(&grid[0]), "1. [ ]  hello   ");
}

#[test]
fn renumbering_uses_the_visible_position() {
    // the only visible row sits at actual index 2 but renders as "1."
    let l = list(vec![(2, item("ship", false))], 0, true);
    let grid = l.render(16, 5);
    assert_eq!(row_text(&grid[0]), "1. [ ]  ship    ");
}

#[test]
fn plain_numbering_uses_the_actual_index() {
    let l = list(vec![(2, item("ship", false))], 0, false);
    let grid = l.render(16, 5);
    assert_eq!(row_text(&grid[0]), "3. [ ]  ship    ");
}

#[test]
fn continuation_lines_are_indented_without_a_prefix() {
    let l = list(vec![(0, item("abcdefghij", false))], 0, false);
    let grid = l.render(13, 5);
    assert_eq!(grid.len(), 2);
    assert_eq!(row_text(&grid[0]), "1. [ ]  abcde");
    assert_eq!(row_text(&grid[1]), "        fghij");
}

#[test]
fn the_selected_row_is_highlighted_across_the_full_width() {
    let l = list(vec![(0, item("a", false)), (1, item("b", true))], 1, false);
    let grid = l.render(12, 5);
    assert!(grid[0].iter().all(|c| !c.selected));
    // the unpainted prefix gap keeps the default style; all painted cells
    // of the selected row carry both the selection and the done bit
    for (j, c) in grid[1].iter().enumerate() {
        if j == 7 {
            assert!(!c.selected && !c.done && c.ch == ' ');
        } else {
            assert!(c.selected, "column {j} should be selected");
            assert!(c.done, "column {j} should be dimmed");
        }
    }
}

#[test]
fn done_rows_are_dimmed_but_not_reversed() {
    let l = list(vec![(0, item("a", true))], 5, false);
    let grid = l.render(12, 5);
    for (j, c) in grid[0].iter().enumerate() {
        if j != 7 {
            assert!(c.done);
        }
        assert!(!c.selected);
    }
}

#[test]
fn rendering_stops_at_the_viewport_height() {
    let l = list(
        vec![(0, item("abcdefghij", false)), (1, item("klmnopqrst", false))],
        0,
        false,
    );
    // each row wraps into two lines of five; three fit
    let grid = l.render(13, 3);
    assert_eq!(grid.len(), 3);
    assert_eq!(row_text(&grid[0]), "1. [ ]  abcde");
    assert_eq!(row_text(&grid[1]), "        fghij");
    assert_eq!(row_text(&grid[2]), "2. [ ]  klmno");
}

#[test]
fn scrolling_skips_leading_rows() {
    let l = BacklogList::new(
        vec![(0, item("one", false)), (1, item("two", false)), (2, item("three", false))],
        2,
        1,
        "Backlog".to_string(),
        false,
    );
    let grid = l.render(14, 5);
    assert_eq!(grid.len(), 2);
    assert_eq!(row_text(&grid[0]), "2. [ ]  two   ");
    assert_eq!(row_text(&grid[1]), "3. [ ]  three ");
}

#[test]
fn a_viewport_under_the_minimum_width_draws_nothing() {
    let l = list(vec![(0, item("hello", false))], 0, false);
    assert!(l.render(9, 5).is_empty());
    assert!(l.render(10, 0).is_empty());
    assert_eq!(l.render(0, 0).len(), 0);
}

#[test]
fn cursor_segments_split_the_buffer() {
    let buf = chars("hello");
    let (before, under, after) = cursor_segments(&buf, 2);
    assert_eq!(before, chars("he"));
    assert_eq!(under, Some('l'));
    assert_eq!(after, chars("lo"));
    let (before, under, after) = cursor_segments(&buf, 5);
    assert_eq!(before, chars("hello"));
    assert_eq!(under, None);
    assert_eq!(after, chars(""));
}

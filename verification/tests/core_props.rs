//! Unit checks of the packer, the negotiator, the fragment builders and the
//! serializer on concrete values.

use promptly::fragments::{decimal_string, format_git_branch, format_run_time};
use promptly::layout::{Color, Div, Layout, LayoutOptions, Span, Style};
use promptly::render::Run;

fn divs(texts: Vec<&str>) -> Vec<Div> {
    texts
        .iter()
        .map(|s| Div::new(Span::new(s)))
        .collect::<Vec<Div>>()
}

fn span_contents(d: &Div) -> Vec<String> {
    d.iter_spans()
        .iter()
        .map(|s| s.content_str().to_string())
        .collect::<Vec<String>>()
}

#[test]
fn pack_measures_single_row() {
    // Each float costs its width plus three frame cells: 7 + 7 + 7.
    let floats = divs(vec!["AAAA", "BBBB", "CCCC"]);
    assert_eq!(Layout::pack_into_width(80, 80, &floats), Some((21, 1)));
}

#[test]
fn pack_wraps_rows_and_tracks_peak() {
    // Costs 7, 7, 7 against a budget of 15: two on the first row, one on
    // the second; the peak is the first row's 14.
    let floats = divs(vec!["AAAA", "BBBB", "CCCC"]);
    assert_eq!(Layout::pack_into_width(15, 15, &floats), Some((14, 2)));
}

#[test]
fn pack_fails_when_one_float_cannot_fit() {
    // "EEEEEEEE" costs 11; no row of 10 columns can hold it.
    let floats = divs(vec!["DDDD", "EEEEEEEE"]);
    assert_eq!(Layout::pack_into_width(10, 10, &floats), None);
}

#[test]
fn pack_of_no_floats_is_one_empty_row() {
    let floats: Vec<Div> = Vec::new();
    assert_eq!(Layout::pack_into_width(7, 7, &floats), Some((0, 1)));
}

#[test]
fn split_groups_like_pack_measures() {
    // The packing at width 15 reports two rows; the grouping produces the
    // same two rows, with the same floats in order.
    let floats = divs(vec!["AAAA", "BBBB", "CCCC"]);
    let (peak, rows) = Layout::pack_into_width(15, 15, &floats).unwrap();
    let grouped = Layout::split_for_width(15, divs(vec!["AAAA", "BBBB", "CCCC"]));
    assert_eq!(grouped.len(), rows);
    assert!(peak <= 15);
    assert_eq!(grouped[0].len(), 2);
    assert_eq!(grouped[1].len(), 1);
    assert_eq!(span_contents(&grouped[0][0]), vec!["AAAA"]);
    assert_eq!(span_contents(&grouped[0][1]), vec!["BBBB"]);
    assert_eq!(span_contents(&grouped[1][0]), vec!["CCCC"]);
}

#[test]
fn split_of_no_floats_has_no_rows() {
    let grouped = Layout::split_for_width(10, Vec::new());
    assert_eq!(grouped.len(), 0);
}

#[test]
fn minimal_width_is_tight() {
    // Costs 7 and 11 without a bump: the tightest width is 11 and the
    // grouping needs two rows there; one column less rejects the packing.
    let floats = divs(vec!["DDDD", "EEEEEEEE"]);
    assert_eq!(Layout::find_minimal_width(&floats, 0), (11, 2));
    assert!(Layout::pack_into_width(11, 11, &floats).is_some());
    assert!(Layout::pack_into_width(10, 10, &floats).is_none());
}

#[test]
fn minimal_width_bump_reduces_later_floats() {
    // With a bump of 5 the later float's claim drops from 11 to 6, so the
    // first float's 7 decides the width.
    let floats = divs(vec!["DDDD", "EEEEEEEE"]);
    assert_eq!(Layout::find_minimal_width(&floats, 5), (7, 2));
}

#[test]
fn empty_left_block_gets_zero_extent() {
    let options = LayoutOptions::new()
        .width(40)
        .use_color(false)
        .use_safe_corners(true)
        .escape_for_readline(false);
    let layout = Layout::build(
        Div::new(Span::new("TTT")),
        Vec::new(),
        divs(vec!["DDDD", "EEEE"]),
        &options,
    )
    .unwrap();
    assert_eq!(layout.left_extent, 0);
    assert_eq!(layout.left_by_row.len(), 0);
    let runs = Run::render_layout(&layout);
    assert_eq!(runs.len(), layout.height + 2);
}

#[test]
fn empty_right_block_gets_zero_extent() {
    let options = LayoutOptions::new()
        .width(40)
        .use_color(false)
        .use_safe_corners(true)
        .escape_for_readline(false);
    let layout = Layout::build(
        Div::new(Span::new("TTT")),
        divs(vec!["AAAA", "BBBB"]),
        Vec::new(),
        &options,
    )
    .unwrap();
    assert_eq!(layout.right_extent, 0);
    assert_eq!(layout.right_by_row.len(), 0);
    let runs = Run::render_layout(&layout);
    assert_eq!(runs.len(), layout.height + 2);
}

#[test]
fn too_narrow_terminal_yields_no_layout() {
    let options = LayoutOptions::new()
        .width(7)
        .use_color(false)
        .use_safe_corners(true)
        .escape_for_readline(false);
    let layout = Layout::build(
        Div::new(Span::new("TTT")),
        divs(vec!["AAAA"]),
        divs(vec!["DDDD"]),
        &options,
    );
    assert!(layout.is_none());
}

#[test]
fn fallback_run_is_bare_prompt() {
    let runs = Run::get_fallback_run();
    assert_eq!(runs.len(), 1);
    assert_eq!(runs[0].format(false), "> ");
}

#[test]
fn rendering_is_repeatable() {
    let options = LayoutOptions::new()
        .width(42)
        .use_color(false)
        .use_safe_corners(true)
        .escape_for_readline(false);
    let layout = Layout::build(
        Div::new(Span::new("TTT")),
        divs(vec!["AAAA", "BBBB"]),
        divs(vec!["DDDD", "EEEEEEEE"]),
        &options,
    )
    .unwrap();
    let first: Vec<String> = Run::render_layout(&layout)
        .iter()
        .map(|r| r.format(false))
        .collect();
    let second: Vec<String> = Run::render_layout(&layout)
        .iter()
        .map(|r| r.format(false))
        .collect();
    assert_eq!(first, second);
}

#[test]
fn round_corners_replace_square_ones() {
    let options = LayoutOptions::new()
        .width(43)
        .use_color(false)
        .use_safe_corners(false)
        .escape_for_readline(false);
    let layout = Layout::build(
        Div::new(Span::new("TTT")),
        divs(vec!["AAAA", "BBBB", "CCCC"]),
        divs(vec!["DDDD", "EEEE"]),
        &options,
    )
    .unwrap();
    let rows: Vec<String> = Run::render_layout(&layout)
        .iter()
        .map(|r| r.format(false))
        .collect();
    assert_eq!(
        rows,
        vec![
            "┬──────┬──────┬──────┬─┬──────┬──────╮ TTT ",
            "├ AAAA ┴ BBBB ┴ CCCC ╯ ╰ DDDD ┴ EEEE ┴─────",
            "╰➤ ",
        ]
    );
}

#[test]
fn safe_arrow_replaces_the_glyph() {
    let options = LayoutOptions::new()
        .width(80)
        .use_color(false)
        .use_safe_arrow(true)
        .use_safe_corners(true)
        .escape_for_readline(false);
    let layout = Layout::build(
        Div::new(Span::new("TTT")),
        divs(vec!["AAAA"]),
        divs(vec!["DDDD"]),
        &options,
    )
    .unwrap();
    let rows: Vec<String> = Run::render_layout(&layout)
        .iter()
        .map(|r| r.format(false))
        .collect();
    assert_eq!(rows[rows.len() - 1], "└> ");
}

#[test]
fn color_markers_emit_reset_and_template() {
    let options = LayoutOptions::new()
        .width(80)
        .use_color(true)
        .use_safe_corners(true)
        .escape_for_readline(false)
        .prompt_template(Span::new("").foreground(Color::Green).dimmed());
    let layout = Layout::build(
        Div::new(Span::new("TTT")),
        divs(vec!["AAAA"]),
        divs(vec!["DDDD"]),
        &options,
    )
    .unwrap();
    let rows: Vec<String> = Run::render_layout(&layout)
        .iter()
        .map(|r| r.format(false))
        .collect();
    assert_eq!(
        rows[rows.len() - 1],
        "\u{1b}[0m└\u{1b}[0m\u{1b}[2;32m➤\u{1b}[0m "
    );
}

#[test]
fn run_time_zero_is_epsilon() {
    let div = format_run_time(0);
    assert_eq!(span_contents(&div), vec!["ε"]);
    assert_eq!(div.width(), 1);
}

#[test]
fn run_time_full_clock() {
    let div = format_run_time(3723);
    assert_eq!(span_contents(&div), vec!["1", "h", "2", "m", "3", "s"]);
}

#[test]
fn run_time_hour_boundary_stays_in_minutes() {
    // Exactly one hour is below the strict hour threshold and shows as
    // sixty minutes.
    let div = format_run_time(3600);
    assert_eq!(span_contents(&div), vec!["60", "m"]);
}

#[test]
fn run_time_minute_boundary_stays_in_seconds() {
    let div = format_run_time(60);
    assert_eq!(span_contents(&div), vec!["60", "s"]);
}

#[test]
fn run_time_minute_and_second() {
    let div = format_run_time(61);
    assert_eq!(span_contents(&div), vec!["1", "m", "1", "s"]);
}

#[test]
fn git_branch_tag_wraps_the_name() {
    let div = format_git_branch("main");
    assert_eq!(span_contents(&div), vec!["@", "git", "{", "main", "}"]);
    assert_eq!(div.width(), 4 + 1 + 3 + 1 + 1);
}

#[test]
fn decimal_strings() {
    assert_eq!(decimal_string(0), "0");
    assert_eq!(decimal_string(7), "7");
    assert_eq!(decimal_string(12345), "12345");
    assert_eq!(decimal_string(4294967295), "4294967295");
}

#[test]
fn style_escape_sequences() {
    let styled = Span::new("x").foreground(Color::Red).bold();
    assert_eq!(styled.format_style(false), "\u{1b}[1;31m");
    assert_eq!(styled.format_style(true), "\\[\u{1b}[1;31m\\]");
    let plain = Span::new("x");
    assert_eq!(plain.format_style(false), "");
    let busy = Span::new("x")
        .foreground(Color::Green)
        .background(Color::Blue)
        .dimmed()
        .underline();
    // Attribute codes in fixed order, then the background, then the
    // foreground; the background uses the foreground code table.
    assert_eq!(busy.format_style(false), "\u{1b}[2;4;34;32m");
}

#[test]
fn reset_style_strings() {
    assert_eq!(Span::get_reset_style(false), "\u{1b}[0m");
    assert_eq!(Span::get_reset_style(true), "\\[\u{1b}[0m\\]");
    assert_eq!(Span::make_readline_safe("abc", false), "abc");
    assert_eq!(Span::make_readline_safe("abc", true), "\\[abc\\]");
}

#[test]
fn color_and_style_codes() {
    assert_eq!(Color::Black.encode_foreground(), 30);
    assert_eq!(Color::Blue.encode_foreground(), 34);
    assert_eq!(Color::Blue.encode_background(), 44);
    assert_eq!(Style::Bold.encode(), 1);
    assert_eq!(Style::Reverse.encode(), 7);
    assert_eq!(Style::StrikeThrough.encode(), 9);
}

#[test]
fn widths_count_characters_not_bytes() {
    let span = Span::new("ε➤─");
    assert_eq!(span.width(), 3);
    let mut div = Div::new(Span::new("ab"));
    div.add_span(Span::new("ε"));
    assert_eq!(div.width(), 3);
}

//! End-to-end grid scenarios: a terminal width, left and right floats and a
//! prior-runtime text go in, exact rendered rows come out.

use promptly::layout::{Div, Layout, LayoutOptions, Span};
use promptly::render::Run;

fn format_runs(runs: &Vec<Run>) -> Vec<String> {
    runs.iter()
        .map(|r| r.format(false))
        .collect::<Vec<String>>()
}

fn do_test(width: usize, dt_str: &str, left: Vec<&str>, right: Vec<&str>, result: Vec<&str>) {
    let options = LayoutOptions::new()
        .width(width)
        .use_color(false)
        .use_safe_corners(true)
        .escape_for_readline(false);
    let dt = Div::new(Span::new(dt_str));
    let l = left
        .iter()
        .map(|s| Div::new(Span::new(s)))
        .collect::<Vec<Div>>();
    let r = right
        .iter()
        .map(|s| Div::new(Span::new(s)))
        .collect::<Vec<Div>>();
    let layout = Layout::build(dt, l, r, &options).unwrap();
    let runs = Run::render_layout(&layout);
    assert_eq!(format_runs(&runs), result);
}

#[test]
fn single_line() {
    do_test(80,
            "TTT",
            vec!["AAAA", "BBBB", "CCCC"],
            vec!["DDDD", "EEEE"],
            vec!["┬──────┬──────┬──────┬──────────────────────────────────────┬──────┬──────┐ TTT ",
                 "├ AAAA ┴ BBBB ┴ CCCC ┘                                      └ DDDD ┴ EEEE ┴─────",
                 "└➤ "]);
}

#[test]
fn single_line_min() {
    do_test(43,
            "TTT",
            vec!["AAAA", "BBBB", "CCCC"],
            vec!["DDDD", "EEEE"],
            vec!["┬──────┬──────┬──────┬─┬──────┬──────┐ TTT ",
                 "├ AAAA ┴ BBBB ┴ CCCC ┘ └ DDDD ┴ EEEE ┴─────",
                 "└➤ "]);
}

#[test]
fn drop_left_2_1() {
    do_test(
        30,
        "TTT",
        vec!["AAAA", "BBBB", "CCCC"],
        vec!["DDDD", "EEEEEEEE"],
        vec![
            "┬──────┬──────┬──┬──────┐ TTT ",
            "├ AAAA ┴ BBBB ┤  ├ DDDD ┴───┬─",
            "├ CCCC ───────┘  └ EEEEEEEE ┘ ",
            "└➤ ",
        ],
    );
}

#[test]
fn drop_left_2_1_stretch() {
    do_test(
        30,
        "TTT",
        vec!["AAAA", "BBBB", "CCCCC"],
        vec!["DDDD", "EEEEEEEE"],
        vec![
            "┬──────┬──────┬──┬──────┐ TTT ",
            "├ AAAA ┴ BBBB ┤  ├ DDDD ┴───┬─",
            "├ CCCCC ──────┘  └ EEEEEEEE ┘ ",
            "└➤ ",
        ],
    );
}

#[test]
fn drop_left_2_1_shrink() {
    do_test(
        30,
        "TTT",
        vec!["AAAA", "BBBB", "CC"],
        vec!["DDDD", "EEEEEEEE"],
        vec![
            "┬──────┬──────┬──┬──────┐ TTT ",
            "├ AAAA ┴ BBBB ┤  ├ DDDD ┴───┬─",
            "├ CC ─────────┘  └ EEEEEEEE ┘ ",
            "└➤ ",
        ],
    );
}

#[test]
fn drop_left_2_2() {
    do_test(
        30,
        "TTT",
        vec!["AAAA", "BBBB", "CCCC", "DDDD"],
        vec!["DDDD", "EEEEEEEE"],
        vec![
            "┬──────┬──────┬──┬──────┐ TTT ",
            "├ AAAA ┼ BBBB ┤  ├ DDDD ┴───┬─",
            "├ CCCC ┴ DDDD ┘  └ EEEEEEEE ┘ ",
            "└➤ ",
        ],
    );
}

#[test]
fn drop_left_2_2_shrink() {
    do_test(
        30,
        "TTT",
        vec!["AAAA", "BBBB", "CC", "DDDD"],
        vec!["DDDD", "EEEEEEEE"],
        vec![
            "┬──────┬──────┬──┬──────┐ TTT ",
            "├ AAAA ┴ BBBB ┤  ├ DDDD ┴───┬─",
            "├ CC ─ DDDD ──┘  └ EEEEEEEE ┘ ",
            "└➤ ",
        ],
    );
}

#[test]
fn drop_left_2_2_stretch() {
    do_test(
        30,
        "TTT",
        vec!["AAAA", "BBBB", "CCCCC", "DDD"],
        vec!["DDDD", "EEEEEEEE"],
        vec![
            "┬──────┬──────┬──┬──────┐ TTT ",
            "├ AAAA ┴ BBBB ┤  ├ DDDD ┴───┬─",
            "├ CCCCC ─ DDD ┘  └ EEEEEEEE ┘ ",
            "└➤ ",
        ],
    );
}

#[test]
fn drop_left_2_2_stretch_more() {
    do_test(
        30,
        "TTT",
        vec!["AAAA", "BBBB", "CCCCC", "DDDDD"],
        vec!["DDDD", "EEEEEEEE"],
        vec![
            "┬──────┬────────┬┬──────┐ TTT ",
            "├ AAAA ┴ BBBB ──┤├ DDDD ┴───┬─",
            "├ CCCCC ─ DDDDD ┘└ EEEEEEEE ┘ ",
            "└➤ ",
        ],
    );
}

#[test]
fn drop_left_3_2_stretch_more() {
    do_test(
        29,
        "TTT",
        vec!["AAAA", "BBBB", "CCCCC", "DDDDD"],
        vec!["DDDD", "EEEEEEEE"],
        vec![
            "┬──────┬──────┬─┬──────┐ TTT ",
            "├ AAAA ┴ BBBB ┤ ├ DDDD ┴───┬─",
            "├ CCCCC ──────┤ └ EEEEEEEE ┘ ",
            "├ DDDDD ──────┘              ",
            "└➤ ",
        ],
    );
}

#[test]
fn drop_right_long_short() {
    do_test(42,
            "TTT",
            vec!["AAAA", "BBBB", "CCCC"],
            vec!["DDDDDDDD", "EEEE"],
            vec!["┬──────┬──────┬──────┬───┬──────────┐ TTT ",
                 "├ AAAA ┴ BBBB ┴ CCCC ┘   ├ DDDDDDDD ┼─────",
                 "│                        └ EEEE ────┘     ",
                 "└➤ "]);
}

#[test]
fn drop_right_short_long() {
    do_test(42,
            "TTT",
            vec!["AAAA", "BBBB", "CCCC"],
            vec!["DDDD", "EEEEEEEE"],
            vec!["┬──────┬──────┬──────┬───────┬──────┐ TTT ",
                 "├ AAAA ┴ BBBB ┴ CCCC ┘       ├ DDDD ┴───┬─",
                 "│                            └ EEEEEEEE ┘ ",
                 "└➤ "]);
}

#[test]
fn drop_right_short_long_stretch1() {
    do_test(42,
            "TTT",
            vec!["AAAA", "BBBB", "CCCC"],
            vec!["DDDD", "EEEEEEEEE"],
            vec!["┬──────┬──────┬──────┬───────┬──────┐ TTT ",
                 "├ AAAA ┴ BBBB ┴ CCCC ┘       ├ DDDD ┴────┬",
                 "│                            └ EEEEEEEEE ┘",
                 "└➤ "]);
}

#[test]
fn drop_right_short_long_stretch2() {
    do_test(42,
            "TTT",
            vec!["AAAA", "BBBB", "CCCC"],
            vec!["DDDD", "EEEEEEEEEE"],
            vec!["┬──────┬──────┬──────┬──────┬───────┐ TTT ",
                 "├ AAAA ┴ BBBB ┴ CCCC ┘      ├ DDDD ─┴────┬",
                 "│                           └ EEEEEEEEEE ┘",
                 "└➤ "]);
}

#[test]
fn drop_right_short_long_stretch4() {
    do_test(42,
            "TTT",
            vec!["AAAA", "BBBB", "CCCC"],
            vec!["DDDD", "EEEEEEEEEEEE"],
            vec!["┬──────┬──────┬──────┬────┬─────────┐ TTT ",
                 "├ AAAA ┴ BBBB ┴ CCCC ┘    ├ DDDD ───┴────┬",
                 "│                         └ EEEEEEEEEEEE ┘",
                 "└➤ "]);
}

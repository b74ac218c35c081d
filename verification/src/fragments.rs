//! Pure construction of the text fragments shown in the prompt.
//!
//! The surrounding program reads the clock, the environment and the
//! repository; this module turns the plain values it hands over — a run time
//! in seconds, a branch name — into styled floats for the layout.

use vstd::prelude::*;

use crate::layout::{Color, Div, Span, SpanV, no_styles, spec_with_style, Style};

verus! {

/// The character for one decimal digit.
pub open spec fn digit_char(d: int) -> char {
    if d == 0 {
        '0'
    } else if d == 1 {
        '1'
    } else if d == 2 {
        '2'
    } else if d == 3 {
        '3'
    } else if d == 4 {
        '4'
    } else if d == 5 {
        '5'
    } else if d == 6 {
        '6'
    } else if d == 7 {
        '7'
    } else if d == 8 {
        '8'
    } else {
        '9'
    }
}

/// The decimal digits of a non-negative number, most significant first.
pub open spec fn dec_digits(n: int) -> Seq<char>
    decreases n,
{
    if n < 10 {
        seq![digit_char(n)]
    } else {
        dec_digits(n / 10).push(digit_char(n % 10))
    }
}

/// One decimal digit as a string slice.
fn digit_str(d: u32) -> (r: &'static str)
    requires
        d < 10,
    ensures
        r@ == seq![digit_char(d as int)],
{
    let r: &'static str = match d {
        0 => "0",
        1 => "1",
        2 => "2",
        3 => "3",
        4 => "4",
        5 => "5",
        6 => "6",
        7 => "7",
        8 => "8",
        _ => "9",
    };
    proof {
        reveal_strlit("0");
        reveal_strlit("1");
        reveal_strlit("2");
        reveal_strlit("3");
        reveal_strlit("4");
        reveal_strlit("5");
        reveal_strlit("6");
        reveal_strlit("7");
        reveal_strlit("8");
        reveal_strlit("9");
        assert(r@ =~= seq![digit_char(d as int)]);
    }
    r
}

/// Appends the decimal digits of `n` to `out`.
fn append_decimal(out: &mut String, n: u32)
    ensures
        final(out)@ == old(out)@ + dec_digits(n as int),
    decreases n,
{
    if n < 10 {
        out.append(digit_str(n));
    } else {
        append_decimal(out, n / 10);
        out.append(digit_str(n % 10));
        proof {
            assert(out@ =~= old(out)@ + dec_digits(n as int));
        }
    }
}

/// The decimal digits of `n` as a string.
pub fn decimal_string(n: u32) -> (r: String)
    ensures
        r@ == dec_digits(n as int),
{
    let mut out = String::new();
    append_decimal(&mut out, n);
    proof {
        assert(out@ =~= dec_digits(n as int));
    }
    out
}

/// A bold span in the given color.
pub open spec fn bold_span(content: Seq<char>, c: Color) -> SpanV {
    SpanV {
        content: content,
        foreground: Some(c),
        background: None,
        styles: spec_with_style(no_styles(), Style::Bold),
    }
}

/// A dimmed span in the given color.
pub open spec fn dimmed_span(content: Seq<char>, c: Color) -> SpanV {
    SpanV {
        content: content,
        foreground: Some(c),
        background: None,
        styles: spec_with_style(no_styles(), Style::Dimmed),
    }
}

/// A bold-and-colored value with a dimmed unit letter after it.
pub open spec fn timed_part(value: int, unit: char) -> Seq<SpanV> {
    seq![bold_span(dec_digits(value), Color::Purple), dimmed_span(seq![unit], Color::Purple)]
}

/// The float that shows a prior command's run time `t` in seconds: `ε` for
/// zero, else hour, minute and second parts in `3h2m1s` style, where each
/// part appears only when its value calls for it.
pub open spec fn spec_run_time(t: int) -> Seq<SpanV> {
    if t == 0 {
        seq![bold_span(seq!['ε'], Color::Purple)]
    } else {
        let h = t / 3600;
        let s1 = if t > 3600 {
            t - 3600 * h
        } else {
            t
        };
        let h_part = if t > 3600 {
            timed_part(h, 'h')
        } else {
            Seq::empty()
        };
        let m = s1 / 60;
        let s2 = if s1 > 60 {
            s1 - 60 * m
        } else {
            s1
        };
        let m_part = if s1 > 60 {
            timed_part(m, 'm')
        } else {
            Seq::empty()
        };
        let s_part = if s2 > 0 {
            timed_part(s2, 's')
        } else {
            Seq::empty()
        };
        h_part + m_part + s_part
    }
}

/// Appends a bold-and-colored value span and a dimmed unit span.
fn add_timed_part(out: &mut Div, value: u32, unit: &str)
    requires
        unit@.len() == 1,
    ensures
        final(out)@ == old(out)@ + timed_part(value as int, unit@[0]),
{
    let num = decimal_string(value);
    out.add_span(Span::new(num.as_str()).foreground(Color::Purple).bold());
    out.add_span(Span::new(unit).foreground(Color::Purple).dimmed());
    proof {
        assert(unit@ =~= seq![unit@[0]]);
        assert(out@ =~= old(out)@ + timed_part(value as int, unit@[0]));
    }
}

/// The float that shows a prior command's run time in seconds.
pub fn format_run_time(t: i32) -> (r: Div)
    ensures
        r@ == spec_run_time(t as int),
{
    let mut out = Div::new_empty();
    if t == 0 {
        proof {
            reveal_strlit("ε");
            assert("ε"@ =~= seq!['ε']);
        }
        out.add_span(Span::new("ε").foreground(Color::Purple).bold());
        proof {
            assert(out@ =~= spec_run_time(t as int));
        }
        return out;
    }
    let ghost mut cur: Seq<SpanV> = Seq::empty();
    let mut s = t;
    if s > 3600 {
        let h = s / 3600;
        s = s - 3600 * h;
        proof {
            reveal_strlit("h");
        }
        add_timed_part(&mut out, h as u32, "h");
        proof {
            cur = cur + timed_part(t as int / 3600, 'h');
            assert(out@ =~= cur);
        }
    } else {
        proof {
            cur = cur + Seq::<SpanV>::empty();
            assert(out@ =~= cur);
        }
    }
    let ghost s1 = s as int;
    if s > 60 {
        let m = s / 60;
        s = s - 60 * m;
        proof {
            reveal_strlit("m");
        }
        add_timed_part(&mut out, m as u32, "m");
        proof {
            cur = cur + timed_part(s1 / 60, 'm');
            assert(out@ =~= cur);
        }
    } else {
        proof {
            cur = cur + Seq::<SpanV>::empty();
            assert(out@ =~= cur);
        }
    }
    if s > 0 {
        proof {
            reveal_strlit("s");
        }
        add_timed_part(&mut out, s as u32, "s");
        proof {
            cur = cur + timed_part(s as int, 's');
            assert(out@ =~= cur);
        }
    } else {
        proof {
            cur = cur + Seq::<SpanV>::empty();
            assert(out@ =~= cur);
        }
    }
    proof {
        assert(cur =~= spec_run_time(t as int));
    }
    out
}

/// The float that shows a version-control branch: an `@git{...}` tag with
/// the branch name highlighted.
pub open spec fn spec_git_branch(branch: Seq<char>) -> Seq<SpanV> {
    seq![
        SpanV {
            content: seq!['@'],
            foreground: Some(Color::Yellow),
            background: None,
            styles: no_styles(),
        },
        SpanV {
            content: seq!['g', 'i', 't'],
            foreground: Some(Color::Cyan),
            background: None,
            styles: no_styles(),
        },
        SpanV {
            content: seq!['{'],
            foreground: None,
            background: None,
            styles: spec_with_style(no_styles(), Style::Bold),
        },
        bold_span(branch, Color::Yellow),
        SpanV {
            content: seq!['}'],
            foreground: None,
            background: None,
            styles: spec_with_style(no_styles(), Style::Bold),
        },
    ]
}

/// The float that shows a version-control branch.
pub fn format_git_branch(branch: &str) -> (r: Div)
    ensures
        r@ == spec_git_branch(branch@),
{
    proof {
        reveal_strlit("@");
        reveal_strlit("git");
        reveal_strlit("{");
        reveal_strlit("}");
    }
    let mut div = Div::new_empty();
    div.add_span(Span::new("@").foreground(Color::Yellow));
    div.add_span(Span::new("git").foreground(Color::Cyan));
    div.add_span(Span::new("{").bold());
    div.add_span(Span::new(branch).foreground(Color::Yellow).bold());
    div.add_span(Span::new("}").bold());
    proof {
        assert("git"@ =~= seq!['g', 'i', 't']);
        assert("@"@ =~= seq!['@']);
        assert("{"@ =~= seq!['{']);
        assert("}"@ =~= seq!['}']);
        assert(div@ =~= spec_git_branch(branch@));
    }
    div
}

} // verus!

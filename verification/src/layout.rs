//! Text fragments and the layout negotiation.
//!
//! A [`Span`] is a run of same-styled text, a [`Div`] ("float") is an ordered
//! group of spans that is never split across rows, and [`Layout`] records how
//! the floats of the left and right block are distributed over rows for a
//! given terminal width.  Widths count Unicode code points, never bytes.

use vstd::prelude::*;

verus! {

/// The eight base terminal colors.
#[derive(Clone, Copy, Debug, PartialEq, Eq)]
pub enum Color {
    Black,
    Red,
    Green,
    Yellow,
    Blue,
    Purple,
    Cyan,
    White,
}

/// The ANSI code of a color when used as a foreground color.
pub open spec fn spec_foreground_code(c: Color) -> u8 {
    match c {
        Color::Black => 30,
        Color::Red => 31,
        Color::Green => 32,
        Color::Yellow => 33,
        Color::Blue => 34,
        Color::Purple => 35,
        Color::Cyan => 36,
        Color::White => 37,
    }
}

/// The decimal digits of a color's foreground code.
pub open spec fn color_code_chars(c: Color) -> Seq<char> {
    match c {
        Color::Black => seq!['3', '0'],
        Color::Red => seq!['3', '1'],
        Color::Green => seq!['3', '2'],
        Color::Yellow => seq!['3', '3'],
        Color::Blue => seq!['3', '4'],
        Color::Purple => seq!['3', '5'],
        Color::Cyan => seq!['3', '6'],
        Color::White => seq!['3', '7'],
    }
}

impl Color {
    /// The ANSI code selecting this color as the foreground color.
    pub fn encode_foreground(&self) -> (r: u8)
        ensures
            r == spec_foreground_code(*self),
    {
        match self {
            Color::Black => 30,
            Color::Red => 31,
            Color::Green => 32,
            Color::Yellow => 33,
            Color::Blue => 34,
            Color::Purple => 35,
            Color::Cyan => 36,
            Color::White => 37,
        }
    }

    /// The ANSI code selecting this color as the background color.
    pub fn encode_background(self) -> (r: u8)
        ensures
            r == spec_foreground_code(self) + 10,
    {
        self.encode_foreground() + 10
    }
}

/// The decimal digits of a color's foreground code, as a string slice.
fn color_code_str(c: Color) -> (r: &'static str)
    ensures
        r@ == color_code_chars(c),
{
    let r: &'static str = match c {
        Color::Black => "30",
        Color::Red => "31",
        Color::Green => "32",
        Color::Yellow => "33",
        Color::Blue => "34",
        Color::Purple => "35",
        Color::Cyan => "36",
        Color::White => "37",
    };
    proof {
        reveal_strlit("30");
        reveal_strlit("31");
        reveal_strlit("32");
        reveal_strlit("33");
        reveal_strlit("34");
        reveal_strlit("35");
        reveal_strlit("36");
        reveal_strlit("37");
        assert(r@ =~= color_code_chars(c));
    }
    r
}

/// The mutually orthogonal text-attribute flags.
#[derive(Clone, Copy, Debug, PartialEq, Eq)]
pub enum Style {
    Bold,
    Dimmed,
    Italic,
    Underline,
    Blink,
    Reverse,
    Hidden,
    StrikeThrough,
}

/// The ANSI code of a text attribute.
pub open spec fn spec_style_code(s: Style) -> u8 {
    match s {
        Style::Bold => 1,
        Style::Dimmed => 2,
        Style::Italic => 3,
        Style::Underline => 4,
        Style::Blink => 5,
        Style::Reverse => 7,
        Style::Hidden => 8,
        Style::StrikeThrough => 9,
    }
}

impl Style {
    /// The ANSI code of this text attribute.
    pub fn encode(&self) -> (r: u8)
        ensures
            r == spec_style_code(*self),
    {
        match self {
            Style::Bold => 1,
            Style::Dimmed => 2,
            Style::Italic => 3,
            Style::Underline => 4,
            Style::Blink => 5,
            Style::Reverse => 7,
            Style::Hidden => 8,
            Style::StrikeThrough => 9,
        }
    }
}

/// A set of text attributes, one flag per attribute.
#[derive(Clone, Copy, Debug, PartialEq, Eq, Structural)]
pub struct StyleSet {
    pub bold: bool,
    pub dimmed: bool,
    pub italic: bool,
    pub underline: bool,
    pub blink: bool,
    pub reverse: bool,
    pub hidden: bool,
    pub strike_through: bool,
}

/// The set without any attribute.
pub open spec fn no_styles() -> StyleSet {
    StyleSet {
        bold: false,
        dimmed: false,
        italic: false,
        underline: false,
        blink: false,
        reverse: false,
        hidden: false,
        strike_through: false,
    }
}

/// Whether any attribute is set.
pub open spec fn has_any_style(ss: StyleSet) -> bool {
    ss.bold || ss.dimmed || ss.italic || ss.underline || ss.blink || ss.reverse || ss.hidden
        || ss.strike_through
}

/// The set `ss` with the attribute `s` added.
pub open spec fn spec_with_style(ss: StyleSet, s: Style) -> StyleSet {
    match s {
        Style::Bold => StyleSet { bold: true, ..ss },
        Style::Dimmed => StyleSet { dimmed: true, ..ss },
        Style::Italic => StyleSet { italic: true, ..ss },
        Style::Underline => StyleSet { underline: true, ..ss },
        Style::Blink => StyleSet { blink: true, ..ss },
        Style::Reverse => StyleSet { reverse: true, ..ss },
        Style::Hidden => StyleSet { hidden: true, ..ss },
        Style::StrikeThrough => StyleSet { strike_through: true, ..ss },
    }
}

impl StyleSet {
    /// The set without any attribute.
    pub fn empty() -> (r: StyleSet)
        ensures
            r == no_styles(),
    {
        StyleSet {
            bold: false,
            dimmed: false,
            italic: false,
            underline: false,
            blink: false,
            reverse: false,
            hidden: false,
            strike_through: false,
        }
    }

    /// Adds one attribute to the set.
    pub fn insert(&mut self, s: Style)
        ensures
            *final(self) == spec_with_style(*old(self), s),
    {
        match s {
            Style::Bold => self.bold = true,
            Style::Dimmed => self.dimmed = true,
            Style::Italic => self.italic = true,
            Style::Underline => self.underline = true,
            Style::Blink => self.blink = true,
            Style::Reverse => self.reverse = true,
            Style::Hidden => self.hidden = true,
            Style::StrikeThrough => self.strike_through = true,
        }
    }

    /// Whether any attribute is set.
    pub fn any(&self) -> (r: bool)
        ensures
            r == has_any_style(*self),
    {
        self.bold || self.dimmed || self.italic || self.underline || self.blink || self.reverse
            || self.hidden || self.strike_through
    }
}

/// The mathematical model of a [`Span`]: its characters and its styling.
pub struct SpanV {
    pub content: Seq<char>,
    pub foreground: Option<Color>,
    pub background: Option<Color>,
    pub styles: StyleSet,
}

/// A run of same-styled text, immutable once constructed.
#[derive(Debug)]
pub struct Span {
    pub content: String,
    foreground: Option<Color>,
    background: Option<Color>,
    styles: StyleSet,
}

impl View for Span {
    type V = SpanV;

    closed spec fn view(&self) -> SpanV {
        SpanV {
            content: self.content@,
            foreground: self.foreground,
            background: self.background,
            styles: self.styles,
        }
    }
}

impl DeepView for Span {
    type V = SpanV;

    open spec fn deep_view(&self) -> SpanV {
        self.view()
    }
}

/// A span's model with the given characters and no styling.
pub open spec fn plain_span(content: Seq<char>) -> SpanV {
    SpanV { content: content, foreground: None, background: None, styles: no_styles() }
}

impl Span {
    /// A span of the given text without any styling.
    pub fn new(content: &str) -> (r: Self)
        ensures
            r@ == plain_span(content@),
    {
        Span {
            content: String::from_str(content),
            foreground: None,
            background: None,
            styles: StyleSet::empty(),
        }
    }

    /// The span's text.
    pub fn content_str(&self) -> (r: &str)
        ensures
            r@ == self@.content,
    {
        self.content.as_str()
    }

    /// The width of the span in characters (code points, not bytes).
    pub fn width(&self) -> (r: usize)
        ensures
            r == self@.content.len(),
    {
        self.content.as_str().unicode_len()
    }

    /// This span with its foreground color set.
    pub fn foreground(self, clr: Color) -> (r: Self)
        ensures
            r@ == (SpanV { foreground: Some(clr), ..self@ }),
    {
        let mut s = self;
        s.foreground = Some(clr);
        s
    }

    /// This span with its background color set.
    pub fn background(self, clr: Color) -> (r: Self)
        ensures
            r@ == (SpanV { background: Some(clr), ..self@ }),
    {
        let mut s = self;
        s.background = Some(clr);
        s
    }

    /// This span with the bold attribute added.
    pub fn bold(self) -> (r: Self)
        ensures
            r@ == (SpanV { styles: spec_with_style(self@.styles, Style::Bold), ..self@ }),
    {
        let mut s = self;
        s.styles.insert(Style::Bold);
        s
    }

    /// This span with the dimmed attribute added.
    pub fn dimmed(self) -> (r: Self)
        ensures
            r@ == (SpanV { styles: spec_with_style(self@.styles, Style::Dimmed), ..self@ }),
    {
        let mut s = self;
        s.styles.insert(Style::Dimmed);
        s
    }

    /// This span with the italic attribute added.
    pub fn italic(self) -> (r: Self)
        ensures
            r@ == (SpanV { styles: spec_with_style(self@.styles, Style::Italic), ..self@ }),
    {
        let mut s = self;
        s.styles.insert(Style::Italic);
        s
    }

    /// This span with the underline attribute added.
    pub fn underline(self) -> (r: Self)
        ensures
            r@ == (SpanV { styles: spec_with_style(self@.styles, Style::Underline), ..self@ }),
    {
        let mut s = self;
        s.styles.insert(Style::Underline);
        s
    }

    /// This span with the blink attribute added.
    pub fn blink(self) -> (r: Self)
        ensures
            r@ == (SpanV { styles: spec_with_style(self@.styles, Style::Blink), ..self@ }),
    {
        let mut s = self;
        s.styles.insert(Style::Blink);
        s
    }

    /// This span with the reverse-video attribute added.
    pub fn reverse(self) -> (r: Self)
        ensures
            r@ == (SpanV { styles: spec_with_style(self@.styles, Style::Reverse), ..self@ }),
    {
        let mut s = self;
        s.styles.insert(Style::Reverse);
        s
    }

    /// This span with the hidden attribute added.
    pub fn hidden(self) -> (r: Self)
        ensures
            r@ == (SpanV { styles: spec_with_style(self@.styles, Style::Hidden), ..self@ }),
    {
        let mut s = self;
        s.styles.insert(Style::Hidden);
        s
    }

    /// This span with the strike-through attribute added.
    pub fn strike_through(self) -> (r: Self)
        ensures
            r@ == (SpanV { styles: spec_with_style(self@.styles, Style::StrikeThrough), ..self@ }),
    {
        let mut s = self;
        s.styles.insert(Style::StrikeThrough);
        s
    }

    /// The escape sequence that resets all styling, readline-wrapped on demand.
    pub fn get_reset_style(escape_for_readline: bool) -> (r: String)
        ensures
            r@ == spec_reset_style(escape_for_readline),
    {
        proof {
            reveal_strlit("\u{1b}[0m");
        }
        let r = Self::make_readline_safe("\u{1b}[0m", escape_for_readline);
        proof {
            assert(r@ =~= spec_reset_style(escape_for_readline));
        }
        r
    }

    /// Appends the codes of the first four attribute flags.
    fn emit_flags_a(&self, body: &mut String)
        ensures
            final(body)@ == codes_flags_a(self@, old(body)@),
    {
        let ghost mut cur: Seq<char> = old(body)@;
        emit_part(body, self.styles.bold, "1");
        proof {
            reveal_strlit("1");
            assert("1"@ =~= seq!['1']);
            cur = code_append(cur, self@.styles.bold, seq!['1']);
            assert(body@ == cur);
        }
        emit_part(body, self.styles.dimmed, "2");
        proof {
            reveal_strlit("2");
            assert("2"@ =~= seq!['2']);
            cur = code_append(cur, self@.styles.dimmed, seq!['2']);
            assert(body@ == cur);
        }
        emit_part(body, self.styles.italic, "3");
        proof {
            reveal_strlit("3");
            assert("3"@ =~= seq!['3']);
            cur = code_append(cur, self@.styles.italic, seq!['3']);
            assert(body@ == cur);
        }
        emit_part(body, self.styles.underline, "4");
        proof {
            reveal_strlit("4");
            assert("4"@ =~= seq!['4']);
            cur = code_append(cur, self@.styles.underline, seq!['4']);
            assert(body@ == cur);
        }
    }

    /// Appends the codes of the last four attribute flags.
    fn emit_flags_b(&self, body: &mut String)
        ensures
            final(body)@ == codes_flags_b(self@, old(body)@),
    {
        let ghost mut cur: Seq<char> = old(body)@;
        emit_part(body, self.styles.blink, "5");
        proof {
            reveal_strlit("5");
            assert("5"@ =~= seq!['5']);
            cur = code_append(cur, self@.styles.blink, seq!['5']);
            assert(body@ == cur);
        }
        emit_part(body, self.styles.reverse, "7");
        proof {
            reveal_strlit("7");
            assert("7"@ =~= seq!['7']);
            cur = code_append(cur, self@.styles.reverse, seq!['7']);
            assert(body@ == cur);
        }
        emit_part(body, self.styles.hidden, "8");
        proof {
            reveal_strlit("8");
            assert("8"@ =~= seq!['8']);
            cur = code_append(cur, self@.styles.hidden, seq!['8']);
            assert(body@ == cur);
        }
        emit_part(body, self.styles.strike_through, "9");
        proof {
            reveal_strlit("9");
            assert("9"@ =~= seq!['9']);
            cur = code_append(cur, self@.styles.strike_through, seq!['9']);
            assert(body@ == cur);
        }
    }

    /// Appends the background and foreground color codes.
    fn emit_colors(&self, body: &mut String)
        ensures
            final(body)@ == codes_colors(self@, old(body)@),
    {
        let ghost mut cur: Seq<char> = old(body)@;
        match self.background {
            Some(c) => {
                let cs = color_code_str(c);
                emit_part(body, true, cs);
            },
            None => {},
        }
        proof {
            cur = code_append(cur, self@.background is Some, opt_color_chars(self@.background));
            assert(body@ == cur);
        }
        match self.foreground {
            Some(c) => {
                let cs = color_code_str(c);
                emit_part(body, true, cs);
            },
            None => {},
        }
        proof {
            cur = code_append(cur, self@.foreground is Some, opt_color_chars(self@.foreground));
            assert(body@ == cur);
        }
    }

    /// The ANSI escape sequence that switches the terminal to this span's
    /// styling, or the empty string for an unstyled span.
    pub fn format_style(&self, escape_for_readline: bool) -> (r: String)
        ensures
            r@ == spec_format_style(self@, escape_for_readline),
    {
        if self.foreground.is_none() && self.background.is_none() && !self.styles.any() {
            return String::new();
        }
        let mut body = String::new();
        self.emit_flags_a(&mut body);
        self.emit_flags_b(&mut body);
        self.emit_colors(&mut body);
        let mut esc = String::from_str("\u{1b}[");
        esc.append(body.as_str());
        esc.append("m");
        proof {
            reveal_strlit("\u{1b}[");
            reveal_strlit("m");
            assert(esc@ =~= seq!['\u{1b}', '['] + spec_style_codes(self@) + seq!['m']);
        }
        Self::make_readline_safe(esc.as_str(), escape_for_readline)
    }

    /// Wraps an escape sequence in the brackets that tell readline it takes
    /// no columns, when such escaping is asked for.
    pub fn make_readline_safe(s: &str, escape_for_readline: bool) -> (r: String)
        ensures
            r@ == spec_readline_safe(s@, escape_for_readline),
    {
        proof {
            reveal_strlit("\\[");
            reveal_strlit("\\]");
        }
        if escape_for_readline {
            let mut r = String::from_str("\\[");
            r.append(s);
            r.append("\\]");
            proof {
                assert(r@ =~= spec_readline_safe(s@, true));
            }
            r
        } else {
            String::from_str(s)
        }
    }
}

/// The code of an optional color, or the empty sequence.
pub open spec fn opt_color_chars(c: Option<Color>) -> Seq<char> {
    match c {
        None => Seq::empty(),
        Some(cc) => color_code_chars(cc),
    }
}

/// `prev` with one more `;`-separated code appended, when it is emitted.
pub open spec fn code_append(prev: Seq<char>, on: bool, code: Seq<char>) -> Seq<char> {
    if on {
        if prev.len() == 0 {
            code
        } else {
            prev + seq![';'] + code
        }
    } else {
        prev
    }
}

/// `prev` extended with the codes of the first four attribute flags.
pub open spec fn codes_flags_a(s: SpanV, prev: Seq<char>) -> Seq<char> {
    code_append(
        code_append(
            code_append(
                code_append(prev, s.styles.bold, seq!['1']),
                s.styles.dimmed,
                seq!['2'],
            ),
            s.styles.italic,
            seq!['3'],
        ),
        s.styles.underline,
        seq!['4'],
    )
}

/// `prev` extended with the codes of the last four attribute flags.
pub open spec fn codes_flags_b(s: SpanV, prev: Seq<char>) -> Seq<char> {
    code_append(
        code_append(
            code_append(
                code_append(prev, s.styles.blink, seq!['5']),
                s.styles.reverse,
                seq!['7'],
            ),
            s.styles.hidden,
            seq!['8'],
        ),
        s.styles.strike_through,
        seq!['9'],
    )
}

/// `prev` extended with the background and foreground color codes.
pub open spec fn codes_colors(s: SpanV, prev: Seq<char>) -> Seq<char> {
    code_append(
        code_append(prev, s.background is Some, opt_color_chars(s.background)),
        s.foreground is Some,
        opt_color_chars(s.foreground),
    )
}

/// All emitted style codes of a span, separated by `;`: the attribute codes
/// in a fixed order, then the background, then the foreground.  The
/// background uses the foreground code table.
pub open spec fn spec_style_codes(s: SpanV) -> Seq<char> {
    codes_colors(s, codes_flags_b(s, codes_flags_a(s, Seq::empty())))
}

/// Appends one `;`-separated code to the partly built code list, when it is
/// emitted at all.
fn emit_part(body: &mut String, on: bool, code: &str)
    ensures
        final(body)@ == (if on {
            if old(body)@.len() == 0 {
                code@
            } else {
                old(body)@ + seq![';'] + code@
            }
        } else {
            old(body)@
        }),
{
    if on {
        if !body.as_str().is_empty() {
            body.append(";");
            body.append(code);
            proof {
                reveal_strlit(";");
                assert(body@ =~= old(body)@ + seq![';'] + code@);
            }
        } else {
            body.append(code);
            proof {
                assert(body@ =~= code@);
            }
        }
    }
}

/// `s` wrapped in `\[`/`\]` when readline escaping is asked for.
pub open spec fn spec_readline_safe(s: Seq<char>, escape: bool) -> Seq<char> {
    if escape {
        seq!['\\', '['] + s + seq!['\\', ']']
    } else {
        s
    }
}

/// The reset escape sequence, readline-wrapped on demand.
pub open spec fn spec_reset_style(escape: bool) -> Seq<char> {
    spec_readline_safe(seq!['\u{1b}', '[', '0', 'm'], escape)
}

/// The full style escape sequence of a span: empty for an unstyled span,
/// otherwise the joined codes between `ESC [` and `m`.
pub open spec fn spec_format_style(s: SpanV, escape: bool) -> Seq<char> {
    if s.foreground is None && s.background is None && !has_any_style(s.styles) {
        Seq::empty()
    } else {
        spec_readline_safe(seq!['\u{1b}', '['] + spec_style_codes(s) + seq!['m'], escape)
    }
}

/// An ordered group of spans ("float") that is rendered contiguously and
/// never split across a row boundary.
#[derive(Debug)]
pub struct Div {
    children: Vec<Span>,
}

impl View for Div {
    type V = Seq<SpanV>;

    closed spec fn view(&self) -> Seq<SpanV> {
        self.children.deep_view()
    }
}

impl DeepView for Div {
    type V = Seq<SpanV>;

    open spec fn deep_view(&self) -> Seq<SpanV> {
        self.view()
    }
}

/// The width of the first `n` spans of a float, in characters.
pub open spec fn div_width_to(d: Seq<SpanV>, n: int) -> nat
    decreases n,
{
    if n <= 0 {
        0
    } else {
        div_width_to(d, n - 1) + d[n - 1].content.len()
    }
}

/// The width of a float: the sum of its spans' widths, in characters.
pub open spec fn div_width(d: Seq<SpanV>) -> nat {
    div_width_to(d, d.len() as int)
}

/// Prefix sums of span widths grow with the prefix.
pub proof fn lemma_div_width_to_mono(d: Seq<SpanV>, i: int, j: int)
    requires
        0 <= i <= j,
    ensures
        div_width_to(d, i) <= div_width_to(d, j),
    decreases j,
{
    if i < j {
        lemma_div_width_to_mono(d, i, j - 1);
    }
}

impl Div {
    /// A float holding one span.
    pub fn new(s: Span) -> (r: Self)
        ensures
            r@ == seq![s@],
    {
        let mut children: Vec<Span> = Vec::new();
        children.push(s);
        let d = Div { children };
        proof {
            assert(d@ =~= seq![s@]);
        }
        d
    }

    /// A float without any span yet.
    pub fn new_empty() -> (r: Self)
        ensures
            r@ == Seq::<SpanV>::empty(),
    {
        let d = Div { children: Vec::new() };
        proof {
            assert(d@ =~= Seq::<SpanV>::empty());
        }
        d
    }

    /// Appends one span to the float.
    pub fn add_span(&mut self, span: Span)
        ensures
            final(self)@ == old(self)@.push(span@),
    {
        self.children.push(span);
        proof {
            assert(self@ =~= old(self)@.push(span@));
        }
    }

    /// The width of the float in characters: the sum of its spans' widths.
    pub fn width(&self) -> (r: usize)
        requires
            div_width(self@) <= usize::MAX,
        ensures
            r == div_width(self@),
    {
        let n = self.children.len();
        let mut total: usize = 0;
        let mut i: usize = 0;
        while i < n
            invariant
                i <= n,
                n == self.children.len(),
                self@.len() == n,
                div_width(self@) <= usize::MAX,
                total == div_width_to(self@, i as int),
            decreases n - i,
        {
            proof {
                lemma_div_width_to_mono(self@, i + 1, n as int);
                assert(self.children[i as int].deep_view() == self@[i as int]);
            }
            let w = self.children[i].width();
            total = total + w;
            i = i + 1;
        }
        total
    }

    /// The spans of the float, in order.
    pub fn iter_spans(&self) -> (r: &Vec<Span>)
        ensures
            r.deep_view() == self@,
    {
        &self.children
    }
}

/// The switches and templates that steer layout and rendering.
#[derive(Debug)]
pub struct LayoutOptions {
    pub width: usize,
    pub verbose: bool,
    pub use_color: bool,
    pub use_safe_arrow: bool,
    pub use_safe_corners: bool,
    pub escape_for_readline: bool,
    pub border_template: Span,
    pub prompt_template: Span,
}

impl LayoutOptions {
    /// The default options: 80 columns, color on, readline escaping on,
    /// round corners, the real arrow, and unstyled templates.
    pub fn new() -> (r: LayoutOptions)
        ensures
            r.width == 80,
            !r.verbose,
            r.use_color,
            !r.use_safe_arrow,
            !r.use_safe_corners,
            r.escape_for_readline,
            r.border_template@ == plain_span(Seq::<char>::empty()),
            r.prompt_template@ == plain_span(Seq::<char>::empty()),
    {
        proof {
            reveal_strlit("");
            assert(""@ =~= Seq::<char>::empty());
        }
        LayoutOptions {
            width: 80,
            verbose: false,
            use_color: true,
            use_safe_arrow: false,
            use_safe_corners: false,
            escape_for_readline: true,
            border_template: Span::new(""),
            prompt_template: Span::new(""),
        }
    }

    /// These options with the terminal width replaced.
    pub fn width(self, value: usize) -> (r: LayoutOptions)
        ensures
            r == (LayoutOptions { width: value, ..self }),
    {
        let mut o = self;
        o.width = value;
        o
    }

    /// These options with the diagnostic flag replaced.
    pub fn verbose(self, value: bool) -> (r: LayoutOptions)
        ensures
            r == (LayoutOptions { verbose: value, ..self }),
    {
        let mut o = self;
        o.verbose = value;
        o
    }

    /// These options with the color switch replaced.
    pub fn use_color(self, value: bool) -> (r: LayoutOptions)
        ensures
            r == (LayoutOptions { use_color: value, ..self }),
    {
        let mut o = self;
        o.use_color = value;
        o
    }

    /// These options with the ASCII-arrow switch replaced.
    pub fn use_safe_arrow(self, value: bool) -> (r: LayoutOptions)
        ensures
            r == (LayoutOptions { use_safe_arrow: value, ..self }),
    {
        let mut o = self;
        o.use_safe_arrow = value;
        o
    }

    /// These options with the square-corner switch replaced.
    pub fn use_safe_corners(self, value: bool) -> (r: LayoutOptions)
        ensures
            r == (LayoutOptions { use_safe_corners: value, ..self }),
    {
        let mut o = self;
        o.use_safe_corners = value;
        o
    }

    /// These options with the readline-escaping switch replaced.
    pub fn escape_for_readline(self, value: bool) -> (r: LayoutOptions)
        ensures
            r == (LayoutOptions { escape_for_readline: value, ..self }),
    {
        let mut o = self;
        o.escape_for_readline = value;
        o
    }

    /// These options with the border style template replaced.
    pub fn border_template(self, value: Span) -> (r: LayoutOptions)
        ensures
            r == (LayoutOptions { border_template: value, ..self }),
    {
        let mut o = self;
        o.border_template = value;
        o
    }

    /// These options with the prompt style template replaced.
    pub fn prompt_template(self, value: Span) -> (r: LayoutOptions)
        ensures
            r == (LayoutOptions { prompt_template: value, ..self }),
    {
        let mut o = self;
        o.prompt_template = value;
        o
    }
}

/// The columns a float consumes in a row: its width and three cells of
/// box-drawing frame (one at its left join, two at its right join).
pub open spec fn div_cost(d: Seq<SpanV>) -> nat {
    3 + div_width(d)
}

/// The summed cost of the first `n` floats.
pub open spec fn total_cost_to(fs: Seq<Seq<SpanV>>, n: int) -> nat
    decreases n,
{
    if n <= 0 {
        0
    } else {
        total_cost_to(fs, n - 1) + div_cost(fs[n - 1])
    }
}

/// The summed cost of all floats of one block.
pub open spec fn total_cost(fs: Seq<Seq<SpanV>>) -> nat {
    total_cost_to(fs, fs.len() as int)
}

/// Prefix cost sums grow with the prefix.
pub proof fn lemma_total_cost_to_mono(fs: Seq<Seq<SpanV>>, i: int, j: int)
    requires
        0 <= i <= j,
    ensures
        total_cost_to(fs, i) <= total_cost_to(fs, j),
    decreases j,
{
    if i < j {
        lemma_total_cost_to_mono(fs, i, j - 1);
    }
}

/// Every float costs at least its three frame cells.
pub proof fn lemma_total_cost_to_lower(fs: Seq<Seq<SpanV>>, n: int)
    requires
        0 <= n,
    ensures
        total_cost_to(fs, n) >= 3 * n,
    decreases n,
{
    if n > 0 {
        lemma_total_cost_to_lower(fs, n - 1);
    }
}

/// One step of the greedy packing, resumed at float `i` with the running
/// offset, the current row's budget, the peak offset seen so far, and the
/// count of finished rows.  Mirrors [`Layout::pack_into_width`] exactly.
pub open spec fn spec_pack_from(
    width_n: int,
    fs: Seq<Seq<SpanV>>,
    i: int,
    offset: int,
    budget: int,
    peak: int,
    rows: int,
) -> Option<(int, int)>
    decreases fs.len() - i,
    when 0 <= i <= fs.len()
{
    if i == fs.len() {
        Some((peak, rows + 1))
    } else {
        let off1 = offset + div_cost(fs[i]);
        if off1 > budget {
            let off2 = div_cost(fs[i]) as int;
            if off2 > width_n {
                None
            } else {
                spec_pack_from(
                    width_n,
                    fs,
                    i + 1,
                    off2,
                    width_n,
                    if off2 > peak {
                        off2
                    } else {
                        peak
                    },
                    rows + 1,
                )
            }
        } else {
            spec_pack_from(
                width_n,
                fs,
                i + 1,
                off1,
                budget,
                if off1 > peak {
                    off1
                } else {
                    peak
                },
                rows,
            )
        }
    }
}

/// The greedy packing of `fs` with budget `width_0` for the first row and
/// `width_n` for every later row: `Some((peak_width, row_count))`, or `None`
/// when some float alone overflows `width_n`.
pub open spec fn spec_pack(width_0: int, width_n: int, fs: Seq<Seq<SpanV>>) -> Option<(int, int)> {
    spec_pack_from(width_n, fs, 0, 0, width_0, 0, 0)
}

/// The negotiated result: how the two float blocks are distributed over
/// rows for one terminal width, plus the options rendering needs.
#[derive(Debug)]
pub struct Layout {
    pub left_extent: usize,
    pub right_extent: usize,
    pub width: usize,
    pub height: usize,
    pub left_by_row: Vec<Vec<Div>>,
    pub right_by_row: Vec<Vec<Div>>,
    pub prior_runtime: Div,
    pub use_color: bool,
    pub use_safe_arrow: bool,
    pub use_safe_corners: bool,
    pub escape_for_readline: bool,
    pub border_format: String,
    pub prompt_format: String,
}

/// The mathematical model of a [`Layout`].
pub struct LayoutV {
    pub left_extent: int,
    pub right_extent: int,
    pub width: int,
    pub height: int,
    pub left_by_row: Seq<Seq<Seq<SpanV>>>,
    pub right_by_row: Seq<Seq<Seq<SpanV>>>,
    pub prior_runtime: Seq<SpanV>,
    pub use_color: bool,
    pub use_safe_arrow: bool,
    pub use_safe_corners: bool,
    pub escape_for_readline: bool,
    pub border_format: Seq<char>,
    pub prompt_format: Seq<char>,
}

impl View for Layout {
    type V = LayoutV;

    open spec fn view(&self) -> LayoutV {
        LayoutV {
            left_extent: self.left_extent as int,
            right_extent: self.right_extent as int,
            width: self.width as int,
            height: self.height as int,
            left_by_row: self.left_by_row.deep_view(),
            right_by_row: self.right_by_row.deep_view(),
            prior_runtime: self.prior_runtime@,
            use_color: self.use_color,
            use_safe_arrow: self.use_safe_arrow,
            use_safe_corners: self.use_safe_corners,
            escape_for_readline: self.escape_for_readline,
            border_format: self.border_format@,
            prompt_format: self.prompt_format@,
        }
    }
}

impl Layout {
    /// Measures the greedy packing of `floats`, with `width_0` columns of
    /// budget for the first row and `width_n` for every later row.  Returns
    /// the peak row cost and the row count, or `None` when a single float
    /// cannot fit alone within `width_n`.
    pub fn pack_into_width(width_0: usize, width_n: usize, floats: &Vec<Div>) -> (r: Option<
        (usize, usize),
    >)
        requires
            total_cost(floats.deep_view()) <= usize::MAX,
        ensures
            r is None <==> spec_pack(width_0 as int, width_n as int, floats.deep_view()) is None,
            r matches Some(p) ==> spec_pack(width_0 as int, width_n as int, floats.deep_view())
                == Some((p.0 as int, p.1 as int)),
    {
        let n = floats.len();
        let ghost fsv = floats.deep_view();
        let ghost target = spec_pack(width_0 as int, width_n as int, fsv);
        let mut pack_width: usize = 0;
        let mut pack_height: usize = 0;
        let mut width: usize = width_0;
        let mut offset: usize = 0;
        let mut i: usize = 0;
        while i < n
            invariant
                i <= n,
                n == floats.len(),
                fsv == floats.deep_view(),
                fsv.len() == n,
                total_cost(fsv) <= usize::MAX,
                target == spec_pack(width_0 as int, width_n as int, fsv),
                offset <= total_cost_to(fsv, i as int),
                pack_width <= total_cost_to(fsv, i as int),
                pack_height <= i,
                spec_pack_from(
                    width_n as int,
                    fsv,
                    i as int,
                    offset as int,
                    width as int,
                    pack_width as int,
                    pack_height as int,
                ) == target,
            decreases n - i,
        {
            let ghost offset0 = offset as int;
            let ghost width0v = width as int;
            let ghost peak0 = pack_width as int;
            let ghost rows0 = pack_height as int;
            proof {
                lemma_total_cost_to_mono(fsv, i as int + 1, n as int);
                assert(floats[i as int].deep_view() == fsv[i as int]);
            }
            let fw = floats[i].width();
            offset = offset + 3 + fw;
            if offset > width {
                pack_height = pack_height + 1;
                width = width_n;
                offset = 3 + fw;
                if offset > width {
                    return None;
                }
            }
            if offset > pack_width {
                pack_width = offset;
            }
            proof {
                assert(spec_pack_from(
                    width_n as int,
                    fsv,
                    i as int,
                    offset0,
                    width0v,
                    peak0,
                    rows0,
                ) == spec_pack_from(
                    width_n as int,
                    fsv,
                    i as int + 1,
                    offset as int,
                    width as int,
                    pack_width as int,
                    pack_height as int,
                ));
            }
            i = i + 1;
        }
        proof {
            lemma_total_cost_to_lower(fsv, n as int);
        }
        Some((pack_width, pack_height + 1))
    }
}

/// One step of the greedy row grouping, resumed at float `i` with the row
/// under construction, its consumed columns, and the finished rows.
/// Mirrors [`Layout::split_for_width`] exactly.
pub open spec fn spec_split_from(
    width: int,
    fs: Seq<Seq<SpanV>>,
    i: int,
    cur: Seq<Seq<SpanV>>,
    col: int,
    done: Seq<Seq<Seq<SpanV>>>,
) -> Seq<Seq<Seq<SpanV>>>
    decreases fs.len() - i,
    when 0 <= i <= fs.len()
{
    if i == fs.len() {
        done.push(cur)
    } else {
        let c = div_cost(fs[i]) as int;
        if col + c > width {
            spec_split_from(width, fs, i + 1, seq![fs[i]], c, done.push(cur))
        } else {
            spec_split_from(width, fs, i + 1, cur.push(fs[i]), col + c, done)
        }
    }
}

/// The greedy grouping of `fs` into rows of at most `width` columns; the
/// first float always opens the first row.  Empty input gives no rows.
pub open spec fn spec_split(width: int, fs: Seq<Seq<SpanV>>) -> Seq<Seq<Seq<SpanV>>> {
    if fs.len() == 0 {
        Seq::empty()
    } else {
        spec_split_from(width, fs, 1, seq![fs[0]], div_cost(fs[0]) as int, Seq::empty())
    }
}

/// The columns float `i` claims when the per-row width is being minimised:
/// its cost, reduced by `bump` (but never below zero) for every float but
/// the first.
pub open spec fn adj_cost(fs: Seq<Seq<SpanV>>, bump: int, i: int) -> int {
    if i == 0 {
        div_cost(fs[i]) as int
    } else if div_cost(fs[i]) as int - bump >= 0 {
        div_cost(fs[i]) as int - bump
    } else {
        0
    }
}

/// The largest adjusted cost among the first `n` floats.
pub open spec fn spec_min_columns_to(fs: Seq<Seq<SpanV>>, bump: int, n: int) -> int
    decreases n,
{
    if n <= 0 {
        0
    } else {
        let prev = spec_min_columns_to(fs, bump, n - 1);
        let a = adj_cost(fs, bump, n - 1);
        if a > prev {
            a
        } else {
            prev
        }
    }
}

/// The tightest per-row width that still holds the largest float.
pub open spec fn spec_min_columns(fs: Seq<Seq<SpanV>>, bump: int) -> int {
    spec_min_columns_to(fs, bump, fs.len() as int)
}

/// The rows the greedy grouping needs at width `mc`, resumed at float `i`.
/// Mirrors the second pass of [`Layout::find_minimal_width`] exactly.
pub open spec fn spec_fmw_rows_from(fs: Seq<Seq<SpanV>>, mc: int, i: int, offset: int, rows: int) -> int
    decreases fs.len() - i,
    when 0 <= i <= fs.len()
{
    if i == fs.len() {
        rows + 1
    } else {
        let c = div_cost(fs[i]) as int;
        if offset + c > mc {
            spec_fmw_rows_from(fs, mc, i + 1, c, rows + 1)
        } else {
            spec_fmw_rows_from(fs, mc, i + 1, offset + c, rows)
        }
    }
}

/// The tightest per-row width for `fs` and the rows used at that width.
pub open spec fn spec_fmw(fs: Seq<Seq<SpanV>>, bump: int) -> (int, int) {
    (
        spec_min_columns(fs, bump),
        spec_fmw_rows_from(fs, spec_min_columns(fs, bump), 0, 0, 0),
    )
}

impl Layout {
    /// Groups `floats` into rows of at most `width` columns, consuming them
    /// in order; the first float always opens the first row.
    pub fn split_for_width(width: usize, floats: Vec<Div>) -> (r: Vec<Vec<Div>>)
        requires
            total_cost(floats.deep_view()) <= usize::MAX,
        ensures
            r.deep_view() == spec_split(width as int, floats.deep_view()),
    {
        let ghost fsv = floats.deep_view();
        let ghost target = spec_split(width as int, fsv);
        let mut floats = floats;
        if floats.len() == 0 {
            let r: Vec<Vec<Div>> = Vec::new();
            proof {
                assert(r.deep_view() =~= target);
            }
            return r;
        }
        let n = floats.len();
        proof {
            lemma_total_cost_to_mono(fsv, 1, n as int);
            assert(floats[0].deep_view() == fsv[0]);
        }
        let first = floats.remove(0);
        proof {
            assert(floats.deep_view() =~= fsv.skip(1));
        }
        let cw = first.width();
        let mut column: usize = cw + 3;
        let mut cur: Vec<Div> = Vec::new();
        cur.push(first);
        let mut out: Vec<Vec<Div>> = Vec::new();
        let mut i: usize = 1;
        proof {
            assert(cur.deep_view() =~= seq![fsv[0]]);
            assert(out.deep_view() =~= Seq::<Seq<Seq<SpanV>>>::empty());
        }
        while floats.len() > 0
            invariant
                1 <= i <= n,
                n == fsv.len(),
                floats.len() == n - i,
                floats.deep_view() == fsv.skip(i as int),
                total_cost(fsv) <= usize::MAX,
                column <= total_cost_to(fsv, i as int),
                spec_split_from(
                    width as int,
                    fsv,
                    i as int,
                    cur.deep_view(),
                    column as int,
                    out.deep_view(),
                ) == target,
            decreases floats.len(),
        {
            let ghost cur0 = cur.deep_view();
            let ghost out0 = out.deep_view();
            let ghost col0 = column as int;
            let ghost pf = floats@;
            let ghost pfd = floats.deep_view();
            proof {
                lemma_total_cost_to_mono(fsv, i as int + 1, n as int);
            }
            let f = floats.remove(0);
            proof {
                assert(pfd[0] == pf[0].deep_view());
                assert(f.deep_view() == fsv[i as int]);
                assert(floats@ =~= pf.skip(1));
                assert forall|j: int| 0 <= j < floats.deep_view().len() implies floats.deep_view()[j]
                    == fsv.skip(i as int + 1)[j] by {
                    assert(floats.deep_view()[j] == floats@[j].deep_view());
                    assert(floats@[j] == pf[j + 1]);
                    assert(pfd[j + 1] == pf[j + 1].deep_view());
                    assert(pfd[j + 1] == fsv.skip(i as int)[j + 1]);
                }
                assert(floats.deep_view() =~= fsv.skip(i as int + 1));
            }
            let fw = 3 + f.width();
            if column + fw > width {
                out.push(cur);
                cur = Vec::new();
                column = 0;
            }
            column = column + fw;
            cur.push(f);
            proof {
                if col0 + fw > width {
                    assert(out.deep_view() =~= out0.push(cur0));
                    assert(cur.deep_view() =~= seq![fsv[i as int]]);
                } else {
                    assert(out.deep_view() == out0);
                    assert(cur.deep_view() =~= cur0.push(fsv[i as int]));
                }
                assert(spec_split_from(width as int, fsv, i as int, cur0, col0, out0)
                    == spec_split_from(
                    width as int,
                    fsv,
                    i as int + 1,
                    cur.deep_view(),
                    column as int,
                    out.deep_view(),
                ));
            }
            i = i + 1;
        }
        let ghost done_v = out.deep_view();
        let ghost last_v = cur.deep_view();
        out.push(cur);
        proof {
            assert(out.deep_view() =~= done_v.push(last_v));
        }
        out
    }
}

impl Layout {
    /// The tightest per-row width that still holds the largest float — the
    /// cost of every float but the first is reduced by `bump` columns, never
    /// below zero — and the rows the greedy grouping needs at that width.
    pub fn find_minimal_width(floats: &Vec<Div>, bump: usize) -> (r: (usize, usize))
        requires
            total_cost(floats.deep_view()) <= usize::MAX,
        ensures
            r.0 as int == spec_fmw(floats.deep_view(), bump as int).0,
            r.1 as int == spec_fmw(floats.deep_view(), bump as int).1,
    {
        let n = floats.len();
        let ghost fsv = floats.deep_view();
        let mut min_columns: usize = 0;
        let mut i: usize = 0;
        while i < n
            invariant
                i <= n,
                n == floats.len(),
                fsv == floats.deep_view(),
                fsv.len() == n,
                total_cost(fsv) <= usize::MAX,
                min_columns <= total_cost_to(fsv, i as int),
                min_columns as int == spec_min_columns_to(fsv, bump as int, i as int),
            decreases n - i,
        {
            proof {
                lemma_total_cost_to_mono(fsv, i as int + 1, n as int);
                assert(floats[i as int].deep_view() == fsv[i as int]);
            }
            let mut fw = 3 + floats[i].width();
            if i != 0 {
                fw = if fw >= bump {
                    fw - bump
                } else {
                    0
                };
            }
            if fw > min_columns {
                min_columns = fw;
            }
            proof {
                assert(min_columns as int == spec_min_columns_to(fsv, bump as int, i as int + 1));
            }
            i = i + 1;
        }
        let mut row_count: usize = 0;
        let mut offset: usize = 0;
        let mut i: usize = 0;
        let ghost mc = min_columns as int;
        while i < n
            invariant
                i <= n,
                n == floats.len(),
                fsv == floats.deep_view(),
                fsv.len() == n,
                total_cost(fsv) <= usize::MAX,
                mc == min_columns as int,
                offset <= total_cost_to(fsv, i as int),
                row_count <= i,
                spec_fmw_rows_from(fsv, mc, i as int, offset as int, row_count as int)
                    == spec_fmw_rows_from(fsv, mc, 0, 0, 0),
            decreases n - i,
        {
            let ghost offset0 = offset as int;
            let ghost rows0 = row_count as int;
            proof {
                lemma_total_cost_to_mono(fsv, i as int + 1, n as int);
                assert(floats[i as int].deep_view() == fsv[i as int]);
            }
            let fw = 3 + floats[i].width();
            if offset + fw > min_columns {
                row_count = row_count + 1;
                offset = 0;
            }
            offset = offset + fw;
            proof {
                assert(spec_fmw_rows_from(fsv, mc, i as int, offset0, rows0)
                    == spec_fmw_rows_from(
                    fsv,
                    mc,
                    i as int + 1,
                    offset as int,
                    row_count as int,
                ));
            }
            i = i + 1;
        }
        proof {
            lemma_total_cost_to_lower(fsv, n as int);
        }
        (min_columns, row_count + 1)
    }
}

/// The larger of two numbers.
pub open spec fn spec_max(a: int, b: int) -> int {
    if a >= b {
        a
    } else {
        b
    }
}

/// The later passes of the negotiation: squeeze the right block to its
/// minimal width, then give the left block all that is left.  Failure here
/// is fatal.
pub open spec fn spec_build_retry(
    inner: int,
    prior_w: int,
    lfs: Seq<Seq<SpanV>>,
    rfs: Seq<Seq<SpanV>>,
) -> Option<(int, int, int)> {
    let fmw = spec_fmw(rfs, 2 + prior_w);
    let maximal_left = inner - fmw.0 - 1;
    if maximal_left < 0 {
        None
    } else {
        match spec_pack(maximal_left, maximal_left, lfs) {
            None => None,
            Some(pl) => Some((pl.0, fmw.0, spec_max(pl.1, fmw.1))),
        }
    }
}

/// The negotiated extents and height for one terminal width:
/// `Some((left_extent, right_extent, height))`, or `None` when the terminal
/// is too narrow even for the minimum viable header.  The right block is
/// packed as wide as possible first; if the left block then fits without
/// out-growing the right block's rows, that is the result, else the right
/// block is squeezed to its minimal width and the left block packed into
/// the rest.
pub open spec fn spec_build(
    width: int,
    prior_w: int,
    lfs: Seq<Seq<SpanV>>,
    rfs: Seq<Seq<SpanV>>,
) -> Option<(int, int, int)> {
    if width < 3 + prior_w {
        None
    } else {
        let inner = width - 3 - prior_w;
        let outer = width - 1;
        if inner < 5 {
            None
        } else {
            match spec_pack(inner - 5, outer - 5, rfs) {
                None => None,
                Some(pr) => {
                    let minimal_left = inner - pr.0 - 1;
                    let pass2 = if minimal_left >= 0 {
                        spec_pack(minimal_left, minimal_left, lfs)
                    } else {
                        None
                    };
                    match pass2 {
                        Some(pl) => if pr.1 >= pl.1 {
                            Some((pl.0, pr.0, spec_max(pl.1, pr.1)))
                        } else {
                            spec_build_retry(inner, prior_w, lfs, rfs)
                        },
                        None => spec_build_retry(inner, prior_w, lfs, rfs),
                    }
                },
            }
        }
    }
}

/// The model of the layout that [`Layout::build`] hands back on success,
/// given the negotiated extents and height.
pub open spec fn spec_layout(
    extents: (int, int, int),
    lfs: Seq<Seq<SpanV>>,
    rfs: Seq<Seq<SpanV>>,
    prior: Seq<SpanV>,
    options: LayoutOptions,
) -> LayoutV {
    LayoutV {
        left_extent: extents.0,
        right_extent: extents.1,
        width: options.width as int,
        height: extents.2,
        left_by_row: spec_split(extents.0, lfs),
        right_by_row: spec_split(extents.1, rfs),
        prior_runtime: prior,
        use_color: options.use_color,
        use_safe_arrow: options.use_safe_arrow,
        use_safe_corners: options.use_safe_corners,
        escape_for_readline: options.escape_for_readline,
        border_format: spec_format_style(options.border_template@, options.escape_for_readline),
        prompt_format: spec_format_style(options.prompt_template@, options.escape_for_readline),
    }
}

impl Layout {
    /// A layout with the given extents and height, the floats grouped into
    /// rows by [`Layout::split_for_width`], and the styling taken from the
    /// options.
    fn new(
        left_extent: usize,
        right_extent: usize,
        height: usize,
        left_floats: Vec<Div>,
        right_floats: Vec<Div>,
        prior_runtime: Div,
        options: &LayoutOptions,
    ) -> (r: Self)
        requires
            total_cost(left_floats.deep_view()) <= usize::MAX,
            total_cost(right_floats.deep_view()) <= usize::MAX,
        ensures
            r@ == spec_layout(
                (left_extent as int, right_extent as int, height as int),
                left_floats.deep_view(),
                right_floats.deep_view(),
                prior_runtime@,
                *options,
            ),
    {
        Layout {
            left_extent,
            right_extent,
            width: options.width,
            height,
            left_by_row: Self::split_for_width(left_extent, left_floats),
            right_by_row: Self::split_for_width(right_extent, right_floats),
            prior_runtime,
            use_color: options.use_color,
            use_safe_arrow: options.use_safe_arrow,
            use_safe_corners: options.use_safe_corners,
            escape_for_readline: options.escape_for_readline,
            border_format: options.border_template.format_style(options.escape_for_readline),
            prompt_format: options.prompt_template.format_style(options.escape_for_readline),
        }
    }

    /// Negotiates how many columns each block gets and how many rows the
    /// prompt needs, and groups the floats into those rows.  `None` means
    /// the terminal is too narrow even for the minimum viable header; the
    /// caller falls back to a bare prompt row.
    pub fn build(
        prior_dt: Div,
        left_floats: Vec<Div>,
        right_floats: Vec<Div>,
        options: &LayoutOptions,
    ) -> (r: Option<Layout>)
        requires
            total_cost(left_floats.deep_view()) <= usize::MAX,
            total_cost(right_floats.deep_view()) <= usize::MAX,
            div_width(prior_dt@) + 3 <= usize::MAX,
        ensures
            r is None <==> spec_build(
                options.width as int,
                div_width(prior_dt@) as int,
                left_floats.deep_view(),
                right_floats.deep_view(),
            ) is None,
            r matches Some(l) ==> spec_build(
                options.width as int,
                div_width(prior_dt@) as int,
                left_floats.deep_view(),
                right_floats.deep_view(),
            ) matches Some(t) && l@ == spec_layout(
                t,
                left_floats.deep_view(),
                right_floats.deep_view(),
                prior_dt@,
                *options,
            ),
    {
        let ghost lfs = left_floats.deep_view();
        let ghost rfs = right_floats.deep_view();
        let prior_w = prior_dt.width();
        if options.width < 3 + prior_w {
            return None;
        }
        let inner_width = options.width - (2 + prior_w + 1);
        let outer_width = options.width - 1;
        if inner_width < 5 {
            return None;
        }

        // Pass 1: give the right block as much room as it can use.
        let (w_max_right, h_max_right) = match Self::pack_into_width(
            inner_width - 5,
            outer_width - 5,
            &right_floats,
        ) {
            None => {
                return None;
            },
            Some(p) => p,
        };

        // Pass 2: try the left block in the room that is left.  A right
        // block at least as tall as the left one absorbs it without
        // growing, so accept at once.
        if w_max_right < inner_width {
            let minimal_left = inner_width - w_max_right - 1;
            match Self::pack_into_width(minimal_left, minimal_left, &left_floats) {
                Some((w_min_left, h_min_left)) => {
                    if h_max_right >= h_min_left {
                        let height = if h_min_left >= h_max_right {
                            h_min_left
                        } else {
                            h_max_right
                        };
                        return Some(
                            Layout::new(
                                w_min_left,
                                w_max_right,
                                height,
                                left_floats,
                                right_floats,
                                prior_dt,
                                options,
                            ),
                        );
                    }
                },
                None => {},
            }
        }

        // Pass 3: squeeze the right block to its minimal width.
        let (w_min_right, h_min_right) = Self::find_minimal_width(&right_floats, 2 + prior_w);

        // Pass 4: the left block gets all that is left.  Failure is fatal.
        if w_min_right >= inner_width {
            return None;
        }
        let maximal_left = inner_width - w_min_right - 1;
        let (w_max_left, h_max_left) = match Self::pack_into_width(
            maximal_left,
            maximal_left,
            &left_floats,
        ) {
            None => {
                return None;
            },
            Some(p) => p,
        };
        let height = if h_max_left >= h_min_right {
            h_max_left
        } else {
            h_min_right
        };
        Some(
            Layout::new(
                w_max_left,
                w_min_right,
                height,
                left_floats,
                right_floats,
                prior_dt,
                options,
            ),
        )
    }
}

/// Appending a float to a row adds exactly its cost.
pub proof fn lemma_total_cost_push(s: Seq<Seq<SpanV>>, x: Seq<SpanV>)
    ensures
        total_cost(s.push(x)) == total_cost(s) + div_cost(x),
{
    lemma_total_cost_to_push(s, x, s.len() as int);
    assert(s.push(x)[s.len() as int] == x);
}

/// Prefix cost sums ignore an element pushed beyond the prefix.
pub proof fn lemma_total_cost_to_push(s: Seq<Seq<SpanV>>, x: Seq<SpanV>, n: int)
    requires
        0 <= n <= s.len(),
    ensures
        total_cost_to(s.push(x), n) == total_cost_to(s, n),
    decreases n,
{
    if n > 0 {
        lemma_total_cost_to_push(s, x, n - 1);
        assert(s.push(x)[n - 1] == s[n - 1]);
    }
}

/// A row holding one float costs exactly that float.
pub proof fn lemma_total_cost_singleton(x: Seq<SpanV>)
    ensures
        total_cost(seq![x]) == div_cost(x),
{
    assert(total_cost_to(seq![x], 1) == total_cost_to(seq![x], 0) + div_cost(seq![x][0]));
}

/// The packing and the row grouping walk the floats in lock step: when the
/// packing succeeds, the grouping produces exactly the measured number of
/// rows, each row's cost stays within the budget, and the peak never
/// exceeds the budget.
proof fn lemma_pack_split_from(
    w: int,
    fs: Seq<Seq<SpanV>>,
    i: int,
    offset: int,
    peak: int,
    rows: int,
    cur: Seq<Seq<SpanV>>,
    done: Seq<Seq<Seq<SpanV>>>,
)
    requires
        0 <= i <= fs.len(),
        0 <= offset <= w,
        0 <= peak <= w,
        total_cost(cur) == offset,
        done.len() == rows,
        forall|r: int| 0 <= r < done.len() ==> total_cost(#[trigger] done[r]) <= w,
        spec_pack_from(w, fs, i, offset, w, peak, rows) is Some,
    ensures
        spec_pack_from(w, fs, i, offset, w, peak, rows) matches Some(ph) ==> {
            &&& ph.0 <= w
            &&& spec_split_from(w, fs, i, cur, offset, done).len() == ph.1
            &&& forall|r: int|
                0 <= r < spec_split_from(w, fs, i, cur, offset, done).len()
                    ==> total_cost(#[trigger] spec_split_from(w, fs, i, cur, offset, done)[r]) <= w
        },
    decreases fs.len() - i,
{
    if i == fs.len() {
        let out = spec_split_from(w, fs, i, cur, offset, done);
        assert(out == done.push(cur));
        assert(out[out.len() - 1] == cur);
        assert(forall|r: int| 0 <= r < done.len() ==> out[r] == done[r]);
    } else {
        let c = div_cost(fs[i]) as int;
        let off1 = offset + c;
        if off1 > w {
            assert(c <= w);
            lemma_total_cost_singleton(fs[i]);
            assert(done.push(cur).len() == rows + 1);
            assert(forall|r: int|
                0 <= r < done.push(cur).len() ==> total_cost(#[trigger] done.push(cur)[r]) <= w);
            lemma_pack_split_from(
                w,
                fs,
                i + 1,
                c,
                if c > peak {
                    c
                } else {
                    peak
                },
                rows + 1,
                seq![fs[i]],
                done.push(cur),
            );
        } else {
            lemma_total_cost_push(cur, fs[i]);
            lemma_pack_split_from(
                w,
                fs,
                i + 1,
                off1,
                if off1 > peak {
                    off1
                } else {
                    peak
                },
                rows,
                cur.push(fs[i]),
                done,
            );
        }
    }
}

/// When the packing of a non-empty float list succeeds at a single budget
/// `w`, its peak stays within `w`, and grouping the same floats at `w`
/// gives exactly the measured number of rows, each of cost at most `w`.
pub proof fn lemma_pack_split_agree(w: int, fs: Seq<Seq<SpanV>>)
    requires
        w >= 0,
        fs.len() > 0,
        spec_pack(w, w, fs) is Some,
    ensures
        spec_pack(w, w, fs) matches Some(ph) ==> {
            &&& ph.0 <= w
            &&& spec_split(w, fs).len() == ph.1
            &&& forall|r: int|
                0 <= r < spec_split(w, fs).len() ==> total_cost(#[trigger] spec_split(w, fs)[r])
                    <= w
        },
{
    let c0 = div_cost(fs[0]) as int;
    assert(c0 <= w);
    lemma_total_cost_singleton(fs[0]);
    lemma_pack_split_from(w, fs, 1, c0, c0, 0, seq![fs[0]], Seq::empty());
}

/// Without a bump every float's adjusted cost is its cost, and the tightest
/// width covers each of them.
proof fn lemma_min_columns_bound(fs: Seq<Seq<SpanV>>, n: int)
    requires
        0 <= n <= fs.len(),
    ensures
        forall|i: int| 0 <= i < n ==> div_cost(#[trigger] fs[i]) <= spec_min_columns_to(fs, 0, n),
    decreases n,
{
    if n > 0 {
        lemma_min_columns_bound(fs, n - 1);
        assert(adj_cost(fs, 0, n - 1) == div_cost(fs[n - 1]) as int);
        assert(spec_min_columns_to(fs, 0, n) >= spec_min_columns_to(fs, 0, n - 1));
    }
}

/// Without a bump the tightest width is attained by some float.
proof fn lemma_min_columns_attained(fs: Seq<Seq<SpanV>>, n: int)
    requires
        1 <= n <= fs.len(),
    ensures
        exists|i: int| 0 <= i < n && div_cost(#[trigger] fs[i]) == spec_min_columns_to(fs, 0, n),
    decreases n,
{
    assert(adj_cost(fs, 0, n - 1) == div_cost(fs[n - 1]) as int);
    if n == 1 {
        assert(spec_min_columns_to(fs, 0, 0) == 0);
        assert(adj_cost(fs, 0, 0) == div_cost(fs[0]) as int);
        assert(spec_min_columns_to(fs, 0, 1) == div_cost(fs[0]));
    } else {
        lemma_min_columns_attained(fs, n - 1);
        let m_prev = spec_min_columns_to(fs, 0, n - 1);
        if adj_cost(fs, 0, n - 1) > m_prev {
            assert(div_cost(fs[n - 1]) == spec_min_columns_to(fs, 0, n));
        } else {
            let i = choose|i: int| 0 <= i < n - 1 && div_cost(#[trigger] fs[i]) == m_prev;
            assert(div_cost(fs[i]) == spec_min_columns_to(fs, 0, n));
        }
    }
}

/// The packing succeeds whenever every remaining float fits the budget.
proof fn lemma_pack_all_fit(w: int, fs: Seq<Seq<SpanV>>, i: int, offset: int, peak: int, rows: int)
    requires
        0 <= i <= fs.len(),
        forall|k: int| i <= k < fs.len() ==> div_cost(#[trigger] fs[k]) <= w,
    ensures
        spec_pack_from(w, fs, i, offset, w, peak, rows) is Some,
    decreases fs.len() - i,
{
    if i < fs.len() {
        let c = div_cost(fs[i]) as int;
        let off1 = offset + c;
        if off1 > w {
            lemma_pack_all_fit(w, fs, i + 1, c, if c > peak { c } else { peak }, rows + 1);
        } else {
            lemma_pack_all_fit(w, fs, i + 1, off1, if off1 > peak { off1 } else { peak }, rows);
        }
    }
}

/// The packing fails whenever some remaining float alone overflows the
/// per-row budget.
proof fn lemma_pack_overflow(
    w: int,
    fs: Seq<Seq<SpanV>>,
    i: int,
    offset: int,
    peak: int,
    rows: int,
    k: int,
)
    requires
        0 <= i <= k < fs.len(),
        0 <= offset,
        div_cost(fs[k]) > w,
    ensures
        spec_pack_from(w, fs, i, offset, w, peak, rows) is None,
    decreases fs.len() - i,
{
    let c = div_cost(fs[i]) as int;
    let off1 = offset + c;
    if i == k {
        assert(off1 > w);
    } else {
        if off1 > w {
            if c <= w {
                lemma_pack_overflow(w, fs, i + 1, c, if c > peak { c } else { peak }, rows + 1, k);
            }
        } else {
            lemma_pack_overflow(w, fs, i + 1, off1, if off1 > peak { off1 } else { peak }, rows, k);
        }
    }
}

/// The row count measured by the minimal-width search equals the number of
/// rows the grouping produces, for any width.
proof fn lemma_fmw_split_rows(
    mc: int,
    fs: Seq<Seq<SpanV>>,
    i: int,
    offset: int,
    rows: int,
    cur: Seq<Seq<SpanV>>,
    done: Seq<Seq<Seq<SpanV>>>,
)
    requires
        0 <= i <= fs.len(),
        done.len() == rows,
    ensures
        spec_fmw_rows_from(fs, mc, i, offset, rows) == spec_split_from(
            mc,
            fs,
            i,
            cur,
            offset,
            done,
        ).len(),
    decreases fs.len() - i,
{
    if i < fs.len() {
        let c = div_cost(fs[i]) as int;
        if offset + c > mc {
            lemma_fmw_split_rows(mc, fs, i + 1, c, rows + 1, seq![fs[i]], done.push(cur));
        } else {
            lemma_fmw_split_rows(mc, fs, i + 1, offset + c, rows, cur.push(fs[i]), done);
        }
    }
}

/// For a non-empty float list and no bump, the minimal-width search is
/// tight: the packing succeeds at the width it returns and fails one column
/// below it, and its row count is the number of rows the grouping produces
/// at that width.
pub proof fn lemma_minimal_width_tight(fs: Seq<Seq<SpanV>>)
    requires
        fs.len() > 0,
    ensures
        ({
            let mc = spec_fmw(fs, 0).0;
            &&& spec_pack(mc, mc, fs) is Some
            &&& spec_pack(mc - 1, mc - 1, fs) is None
            &&& spec_fmw(fs, 0).1 == spec_split(mc, fs).len()
        }),
{
    let n = fs.len() as int;
    let mc = spec_min_columns(fs, 0);
    lemma_min_columns_bound(fs, n);
    lemma_pack_all_fit(mc, fs, 0, 0, 0, 0);
    lemma_min_columns_attained(fs, n);
    let k = choose|k: int| 0 <= k < n && div_cost(#[trigger] fs[k]) == mc;
    lemma_pack_overflow(mc - 1, fs, 0, 0, 0, 0, k);
    assert(div_cost(fs[0]) as int <= mc);
    lemma_fmw_split_rows(mc, fs, 1, div_cost(fs[0]) as int, 0, seq![fs[0]], Seq::empty());
}

/// A successful packing reports at least one row and never shrinks the
/// peak it started from.
proof fn lemma_pack_bounds_from(
    width_n: int,
    fs: Seq<Seq<SpanV>>,
    i: int,
    offset: int,
    budget: int,
    peak: int,
    rows: int,
)
    requires
        0 <= i <= fs.len(),
    ensures
        spec_pack_from(width_n, fs, i, offset, budget, peak, rows) matches Some(p) ==> p.1 >= rows
            + 1 && p.0 >= peak,
    decreases fs.len() - i,
{
    if i < fs.len() {
        let c = div_cost(fs[i]) as int;
        let off1 = offset + c;
        if off1 > budget {
            if c <= width_n {
                lemma_pack_bounds_from(
                    width_n,
                    fs,
                    i + 1,
                    c,
                    width_n,
                    if c > peak {
                        c
                    } else {
                        peak
                    },
                    rows + 1,
                );
            }
        } else {
            lemma_pack_bounds_from(
                width_n,
                fs,
                i + 1,
                off1,
                budget,
                if off1 > peak {
                    off1
                } else {
                    peak
                },
                rows,
            );
        }
    }
}

/// Packing an empty block always succeeds: no columns, one row.
proof fn lemma_pack_empty(width_0: int, width_n: int)
    ensures
        spec_pack(width_0, width_n, Seq::empty()) == Some((0int, 1int)),
{
}

/// An empty left block never claims columns: when the negotiation succeeds
/// without left floats, the left extent is zero and its row grouping is
/// empty.
pub proof fn lemma_empty_left(width: int, prior_w: int, rfs: Seq<Seq<SpanV>>)
    ensures
        spec_build(width, prior_w, Seq::empty(), rfs) matches Some(t) ==> t.0 == 0 && spec_split(
            t.0,
            Seq::<Seq<SpanV>>::empty(),
        ).len() == 0,
{
    let lfs = Seq::<Seq<SpanV>>::empty();
    if width >= 3 + prior_w {
        let inner = width - 3 - prior_w;
        let outer = width - 1;
        if inner >= 5 {
            match spec_pack(inner - 5, outer - 5, rfs) {
                None => {},
                Some(pr) => {
                    let minimal_left = inner - pr.0 - 1;
                    if minimal_left >= 0 {
                        lemma_pack_empty(minimal_left, minimal_left);
                        lemma_pack_bounds_from(outer - 5, rfs, 0, 0, inner - 5, 0, 0);
                    } else {
                        let fmw = spec_fmw(rfs, 2 + prior_w);
                        let maximal_left = inner - fmw.0 - 1;
                        if maximal_left >= 0 {
                            lemma_pack_empty(maximal_left, maximal_left);
                        }
                    }
                },
            }
        }
    }
}

/// An empty right block never claims columns, and with it the negotiation
/// succeeds exactly when the guards pass and the left block packs into all
/// of the inner width but one column.
pub proof fn lemma_empty_right(width: int, prior_w: int, lfs: Seq<Seq<SpanV>>)
    ensures
        spec_build(width, prior_w, lfs, Seq::empty()) matches Some(t) ==> t.1 == 0 && spec_split(
            t.1,
            Seq::<Seq<SpanV>>::empty(),
        ).len() == 0,
        (spec_build(width, prior_w, lfs, Seq::empty()) is Some) <==> (width >= 3 + prior_w && width
            - 3 - prior_w >= 5 && spec_pack(
            width - 3 - prior_w - 1,
            width - 3 - prior_w - 1,
            lfs,
        ) is Some),
{
    let rfs = Seq::<Seq<SpanV>>::empty();
    if width >= 3 + prior_w {
        let inner = width - 3 - prior_w;
        let outer = width - 1;
        if inner >= 5 {
            lemma_pack_empty(inner - 5, outer - 5);
            let minimal_left = inner - 1;
            assert(minimal_left >= 0);
            assert(spec_min_columns_to(rfs, 2 + prior_w, 0) == 0);
            assert(spec_fmw(rfs, 2 + prior_w) == (0int, 1int));
            match spec_pack(minimal_left, minimal_left, lfs) {
                None => {},
                Some(pl) => {
                    lemma_pack_bounds_from(minimal_left, lfs, 0, 0, minimal_left, 0, 0);
                },
            }
        }
    }
}

} // verus!

//! Rendering a negotiated layout into rows of box-drawing characters.
//!
//! A [`Run`] is one output row: a fixed-width buffer of characters, a sparse
//! parallel buffer of style-change markers, and an insertion cursor.  Rows
//! are built strictly top to bottom; while a row is built, the border of the
//! row above it is patched so that every junction glyph reflects all edges
//! that meet in its cell.  All writes are bounds-guarded, so a renderer fed
//! any layout value stays within its buffers.

use vstd::prelude::*;

use crate::layout::{div_width, Div, Layout, LayoutV, Span, SpanV, spec_format_style, spec_reset_style};

verus! {

/// The styling a cell is drawn with: reset, the border template, the prompt
/// template, or one span's own escape sequence.
#[derive(Debug)]
pub enum Format {
    Clear,
    Border,
    Prompt,
    Span(String),
}

/// The mathematical model of a [`Format`].
pub enum FormatV {
    Clear,
    Border,
    Prompt,
    Span(Seq<char>),
}

impl View for Format {
    type V = FormatV;

    open spec fn view(&self) -> FormatV {
        match self {
            Format::Clear => FormatV::Clear,
            Format::Border => FormatV::Border,
            Format::Prompt => FormatV::Prompt,
            Format::Span(s) => FormatV::Span(s@),
        }
    }
}

impl DeepView for Format {
    type V = FormatV;

    open spec fn deep_view(&self) -> FormatV {
        self.view()
    }
}

impl PartialEq for Format {
    fn eq(&self, other: &Format) -> (r: bool) {
        match (self, other) {
            (Format::Clear, Format::Clear) => true,
            (Format::Border, Format::Border) => true,
            (Format::Prompt, Format::Prompt) => true,
            (Format::Span(a), Format::Span(b)) => a.eq(b),
            _ => false,
        }
    }
}

impl Eq for Format {

}

impl vstd::std_specs::cmp::PartialEqSpecImpl for Format {
    open spec fn obeys_eq_spec() -> bool {
        true
    }

    open spec fn eq_spec(&self, other: &Format) -> bool {
        self@ == other@
    }
}

/// A copy of a format value.
fn clone_format(f: &Format) -> (r: Format)
    ensures
        r@ == f@,
{
    match f {
        Format::Clear => Format::Clear,
        Format::Border => Format::Border,
        Format::Prompt => Format::Prompt,
        Format::Span(s) => Format::Span(s.clone()),
    }
}

/// The mathematical model of a [`Run`].
pub struct RunV {
    pub width: int,
    pub cells: Seq<char>,
    pub formats: Seq<Option<FormatV>>,
    pub offset: int,
    pub last_format: FormatV,
    pub use_color: bool,
    pub use_safe_corners: bool,
    pub clear_format: Seq<char>,
    pub border_format: Seq<char>,
    pub prompt_format: Seq<char>,
}

/// One rendered output row.
#[derive(Debug)]
pub struct Run {
    width: usize,
    cells: Vec<char>,
    formats: Vec<Option<Format>>,
    offset: usize,
    last_format: Format,
    use_color: bool,
    use_safe_corners: bool,
    clear_format: String,
    border_format: String,
    prompt_format: String,
}

impl View for Run {
    type V = RunV;

    closed spec fn view(&self) -> RunV {
        RunV {
            width: self.width as int,
            cells: self.cells@,
            formats: self.formats.deep_view(),
            offset: self.offset as int,
            last_format: self.last_format@,
            use_color: self.use_color,
            use_safe_corners: self.use_safe_corners,
            clear_format: self.clear_format@,
            border_format: self.border_format@,
            prompt_format: self.prompt_format@,
        }
    }
}

impl DeepView for Run {
    type V = RunV;

    open spec fn deep_view(&self) -> RunV {
        self.view()
    }
}

/// A well-formed run: both buffers span the whole width and the cursor
/// never leaves it.
pub open spec fn run_wf(r: RunV) -> bool {
    &&& r.cells.len() == r.width
    &&& r.formats.len() == r.width
    &&& 0 <= r.offset <= r.width
}

/// Relies on std's `String::push`: appends exactly the one character.
#[verifier::external_body]
fn push_char(s: &mut String, c: char)
    ensures
        final(s)@ == old(s)@.push(c),
{
    s.push(c);
}

/// `a - b`, stopped at zero.
pub open spec fn sp_sat_sub(a: int, b: int) -> int {
    if a >= b {
        a - b
    } else {
        0
    }
}

/// `a - b`, stopped at zero.
fn sat_sub(a: usize, b: usize) -> (r: usize)
    ensures
        r as int == sp_sat_sub(a as int, b as int),
{
    if a >= b {
        a - b
    } else {
        0
    }
}

/// `a + b`, stopped at the machine limit.
pub open spec fn sp_sat_add(a: int, b: int) -> int {
    if a + b <= usize::MAX {
        a + b
    } else {
        usize::MAX as int
    }
}

/// `a + b`, stopped at the machine limit.
fn sat_add(a: usize, b: usize) -> (r: usize)
    ensures
        r as int == sp_sat_add(a as int, b as int),
{
    if a <= usize::MAX - b {
        a + b
    } else {
        usize::MAX
    }
}

/// A fresh all-blank row of the given width, styled as the layout asks.
pub open spec fn spec_new_run(width: int, l: LayoutV) -> RunV {
    RunV {
        width: width,
        cells: Seq::new(width as nat, |i: int| ' '),
        formats: Seq::new(width as nat, |i: int| None),
        offset: 0,
        last_format: FormatV::Clear,
        use_color: l.use_color,
        use_safe_corners: l.use_safe_corners,
        clear_format: spec_reset_style(l.escape_for_readline),
        border_format: l.border_format,
        prompt_format: l.prompt_format,
    }
}

/// One character written at the cursor: within the buffer it lands in the
/// cell and advances the cursor, beyond it nothing changes.
pub open spec fn spec_write_char(r: RunV, c: char) -> RunV {
    if r.offset < r.width && r.offset < r.cells.len() {
        RunV { cells: r.cells.update(r.offset, c), offset: r.offset + 1, ..r }
    } else {
        r
    }
}

/// The first `n` characters of `s` written at the cursor, in order.
pub open spec fn spec_write_chars(r: RunV, s: Seq<char>, n: int) -> RunV
    decreases n,
{
    if n <= 0 {
        r
    } else {
        spec_write_char(spec_write_chars(r, s, n - 1), s[n - 1])
    }
}

/// The style marker for `f` placed at the cursor, when the style changes
/// there at all; the marker cell is skipped outside the buffer.
pub open spec fn spec_mark(r: RunV, f: FormatV) -> RunV {
    if f == r.last_format {
        r
    } else {
        RunV {
            last_format: f,
            formats: if r.offset < r.width && r.offset < r.formats.len() {
                r.formats.update(r.offset, Some(f))
            } else {
                r.formats
            },
            ..r
        }
    }
}

/// Text added in one style: the marker first, then the characters.
pub open spec fn spec_add_formatted(r: RunV, s: Seq<char>, f: FormatV) -> RunV {
    spec_write_chars(spec_mark(r, f), s, s.len() as int)
}

/// `cnt` copies of one character.
pub open spec fn char_run(c: char, cnt: int) -> Seq<char> {
    Seq::new(cnt as nat, |i: int| c)
}

impl Run {
    /// A fresh all-blank row of the given width, styled as the layout asks.
    fn new(width: usize, layout: &Layout) -> (r: Self)
        ensures
            r@ == spec_new_run(width as int, layout@),
            run_wf(r@),
    {
        let mut cells: Vec<char> = Vec::new();
        let mut formats: Vec<Option<Format>> = Vec::new();
        let mut i: usize = 0;
        while i < width
            invariant
                i <= width,
                cells@ =~= Seq::new(i as nat, |k: int| ' '),
                formats@ =~= Seq::new(i as nat, |k: int| None::<Format>),
            decreases width - i,
        {
            cells.push(' ');
            formats.push(None);
            proof {
                assert(cells@ =~= Seq::new((i + 1) as nat, |k: int| ' '));
                assert(formats@ =~= Seq::new((i + 1) as nat, |k: int| None::<Format>));
            }
            i = i + 1;
        }
        proof {
            assert(formats.deep_view().len() == formats@.len());
            assert forall|k: int| 0 <= k < formats@.len() implies formats.deep_view()[k]
                == None::<FormatV> by {
                assert(formats@[k] == None::<Format>);
            }
            assert(formats.deep_view() =~= Seq::new(width as nat, |k: int| None::<FormatV>));
        }
        let r = Run {
            width,
            cells,
            formats,
            offset: 0,
            last_format: Format::Clear,
            use_color: layout.use_color,
            use_safe_corners: layout.use_safe_corners,
            clear_format: Span::get_reset_style(layout.escape_for_readline),
            border_format: layout.border_format.clone(),
            prompt_format: layout.prompt_format.clone(),
        };
        r
    }

    /// Writes one character at the cursor, within the buffer.
    fn write_char(&mut self, c: char)
        requires
            run_wf(old(self)@),
        ensures
            run_wf(final(self)@),
            final(self)@ == spec_write_char(old(self)@, c),
    {
        if self.offset < self.width {
            self.cells.set(self.offset, c);
            self.offset = self.offset + 1;
        }
    }

    /// Places the style marker for `fmt` at the cursor when the style
    /// changes there.
    fn set_mark(&mut self, fmt: Format)
        requires
            run_wf(old(self)@),
        ensures
            run_wf(final(self)@),
            final(self)@ == spec_mark(old(self)@, fmt@),
    {
        if fmt != self.last_format {
            if self.offset < self.width {
                self.formats.set(self.offset, Some(clone_format(&fmt)));
                proof {
                    assert(self.formats.deep_view() =~= old(self)@.formats.update(
                        old(self)@.offset,
                        Some(fmt@),
                    ));
                }
            }
            self.last_format = fmt;
        }
    }

    /// Adds text in one style: a marker where the style changes, then the
    /// characters themselves.
    fn add_formatted(&mut self, s: &str, fmt: Format)
        requires
            run_wf(old(self)@),
        ensures
            run_wf(final(self)@),
            final(self)@ == spec_add_formatted(old(self)@, s@, fmt@),
    {
        self.set_mark(fmt);
        let ghost marked = self@;
        let len = s.unicode_len();
        let mut i: usize = 0;
        while i < len
            invariant
                i <= len,
                len == s@.len(),
                run_wf(self@),
                self@ == spec_write_chars(marked, s@, i as int),
            decreases len - i,
        {
            let c = s.get_char(i);
            self.write_char(c);
            i = i + 1;
        }
    }

    /// Adds unstyled text.
    fn add(&mut self, s: &str)
        requires
            run_wf(old(self)@),
        ensures
            run_wf(final(self)@),
            final(self)@ == spec_add_formatted(old(self)@, s@, FormatV::Clear),
    {
        self.add_formatted(s, Format::Clear);
    }

    /// Adds text styled as border.
    fn add_border(&mut self, s: &str)
        requires
            run_wf(old(self)@),
        ensures
            run_wf(final(self)@),
            final(self)@ == spec_add_formatted(old(self)@, s@, FormatV::Border),
    {
        self.add_formatted(s, Format::Border);
    }

    /// Adds text styled as prompt.
    fn add_prompt(&mut self, s: &str)
        requires
            run_wf(old(self)@),
        ensures
            run_wf(final(self)@),
            final(self)@ == spec_add_formatted(old(self)@, s@, FormatV::Prompt),
    {
        self.add_formatted(s, Format::Prompt);
    }

    /// Adds `cnt` copies of one character in one style.
    fn repeat_formatted(&mut self, c: char, cnt: usize, fmt: Format)
        requires
            run_wf(old(self)@),
        ensures
            run_wf(final(self)@),
            final(self)@ == spec_add_formatted(old(self)@, char_run(c, cnt as int), fmt@),
    {
        self.set_mark(fmt);
        let ghost marked = self@;
        let ghost s = char_run(c, cnt as int);
        let mut i: usize = 0;
        while i < cnt
            invariant
                i <= cnt,
                s == char_run(c, cnt as int),
                run_wf(self@),
                self@ == spec_write_chars(marked, s, i as int),
            decreases cnt - i,
        {
            self.write_char(c);
            i = i + 1;
        }
    }

    /// Adds `cnt` unstyled copies of one character.
    fn repeat(&mut self, c: char, cnt: usize)
        requires
            run_wf(old(self)@),
        ensures
            run_wf(final(self)@),
            final(self)@ == spec_add_formatted(old(self)@, char_run(c, cnt as int), FormatV::Clear),
    {
        self.repeat_formatted(c, cnt, Format::Clear);
    }

    /// Adds `cnt` border-styled copies of one character.
    fn repeat_border(&mut self, c: char, cnt: usize)
        requires
            run_wf(old(self)@),
        ensures
            run_wf(final(self)@),
            final(self)@ == spec_add_formatted(old(self)@, char_run(c, cnt as int), FormatV::Border),
    {
        self.repeat_formatted(c, cnt, Format::Border);
    }
}

/// One span's text added in its own style.
pub open spec fn spec_add_span(r: RunV, sv: SpanV, escape: bool) -> RunV {
    spec_add_formatted(r, sv.content, FormatV::Span(spec_format_style(sv, escape)))
}

/// The first `n` spans of a float added in order.
pub open spec fn spec_add_div(r: RunV, d: Seq<SpanV>, escape: bool, n: int) -> RunV
    decreases n,
{
    if n <= 0 {
        r
    } else {
        spec_add_span(spec_add_div(r, d, escape, n - 1), d[n - 1], escape)
    }
}

/// Whether a character takes part in the box-drawing frame.
pub open spec fn is_border_char(c: char) -> bool {
    c == '─' || c == '│' || c == '┼' || c == '┌' || c == '└' || c == '┐' || c == '┘' || c == '├'
        || c == '┤' || c == '┬' || c == '┴'
}

/// Whether the cell at `off` holds a border character; cells outside the
/// buffer hold none.
pub open spec fn spec_is_border_at(r: RunV, off: int) -> bool {
    0 <= off < r.cells.len() && is_border_char(r.cells[off])
}

/// The position of the first header corner `┐` at or after `off`.
pub open spec fn spec_find_corner(cells: Seq<char>, off: int) -> Option<int>
    decreases cells.len() - off,
{
    if off < 0 || off >= cells.len() {
        None
    } else if cells[off] == '┐' {
        Some(off)
    } else {
        spec_find_corner(cells, off + 1)
    }
}

/// The position of the first border character at or after `off`.
pub open spec fn spec_find_border(cells: Seq<char>, off: int) -> Option<int>
    decreases cells.len() - off,
{
    if off < 0 || off >= cells.len() {
        None
    } else if is_border_char(cells[off]) {
        Some(off)
    } else {
        spec_find_border(cells, off + 1)
    }
}

/// The border glyph `c` with a south edge joined onto it; a non-border cell
/// becomes the fallback glyph.
pub open spec fn south_join(c: char) -> char {
    match c {
        '─' => '┬',
        '│' => '│',
        '┼' => '┼',
        '┌' => '┌',
        '└' => '├',
        '┐' => '┐',
        '┘' => '┤',
        '├' => '├',
        '┤' => '┤',
        '┬' => '┬',
        '┴' => '┼',
        _ => '_',
    }
}

/// The border glyph `c` with an east edge joined onto it; a non-border cell
/// becomes the fallback glyph.
pub open spec fn east_join(c: char) -> char {
    match c {
        '─' => '─',
        '│' => '├',
        '┼' => '┼',
        '┌' => '┌',
        '└' => '└',
        '┐' => '┬',
        '┘' => '┴',
        '├' => '├',
        '┤' => '┼',
        '┬' => '┬',
        '┴' => '┴',
        _ => '_',
    }
}

/// The run with a south edge joined onto the cell at `off`; cells outside
/// the buffer stay untouched.
pub open spec fn spec_add_south(r: RunV, off: int) -> RunV {
    if 0 <= off < r.cells.len() {
        RunV { cells: r.cells.update(off, south_join(r.cells[off])), ..r }
    } else {
        r
    }
}

/// The run with an east edge joined onto the cell just before the cursor;
/// nothing changes when no character was written yet.
pub open spec fn spec_add_east(r: RunV) -> RunV {
    if 1 <= r.offset && r.offset - 1 < r.cells.len() {
        RunV { cells: r.cells.update(r.offset - 1, east_join(r.cells[r.offset - 1])), ..r }
    } else {
        r
    }
}

/// The border glyph `c` with a south edge joined onto it.
fn south_join_char(c: char) -> (r: char)
    ensures
        r == south_join(c),
{
    match c {
        '─' => '┬',
        '│' => '│',
        '┼' => '┼',
        '┌' => '┌',
        '└' => '├',
        '┐' => '┐',
        '┘' => '┤',
        '├' => '├',
        '┤' => '┤',
        '┬' => '┬',
        '┴' => '┼',
        _ => '_',
    }
}

/// The border glyph `c` with an east edge joined onto it.
fn east_join_char(c: char) -> (r: char)
    ensures
        r == east_join(c),
{
    match c {
        '─' => '─',
        '│' => '├',
        '┼' => '┼',
        '┌' => '┌',
        '└' => '└',
        '┐' => '┬',
        '┘' => '┴',
        '├' => '├',
        '┤' => '┼',
        '┬' => '┬',
        '┴' => '┴',
        _ => '_',
    }
}

/// Whether `c` is a border character.
fn is_border_char_at(c: char) -> (r: bool)
    ensures
        r == is_border_char(c),
{
    match c {
        '─' => true,
        '│' => true,
        '┼' => true,
        '┌' => true,
        '└' => true,
        '┐' => true,
        '┘' => true,
        '├' => true,
        '┤' => true,
        '┬' => true,
        '┴' => true,
        _ => false,
    }
}

impl Run {
    /// Adds one span's text in its own style.
    fn add_span(&mut self, span: &Span, escape_for_readline: bool)
        requires
            run_wf(old(self)@),
        ensures
            run_wf(final(self)@),
            final(self)@ == spec_add_span(old(self)@, span@, escape_for_readline),
    {
        let style = span.format_style(escape_for_readline);
        self.add_formatted(span.content_str(), Format::Span(style));
    }

    /// Adds a float: all its spans, in order.
    fn add_div(&mut self, div: &Div, escape_for_readline: bool)
        requires
            run_wf(old(self)@),
        ensures
            run_wf(final(self)@),
            final(self)@ == spec_add_div(old(self)@, div@, escape_for_readline, div@.len() as int),
    {
        let ghost r0 = self@;
        let spans = div.iter_spans();
        let n = spans.len();
        let mut i: usize = 0;
        while i < n
            invariant
                i <= n,
                n == spans.len(),
                spans.deep_view() == div@,
                run_wf(self@),
                self@ == spec_add_div(r0, div@, escape_for_readline, i as int),
            decreases n - i,
        {
            proof {
                assert(spans[i as int].deep_view() == div@[i as int]);
            }
            self.add_span(&spans[i], escape_for_readline);
            i = i + 1;
        }
    }

    /// Whether the cell at `offset` holds a border character.
    fn is_border_at(&self, offset: usize) -> (r: bool)
        requires
            run_wf(self@),
        ensures
            r == spec_is_border_at(self@, offset as int),
    {
        if offset < self.width {
            is_border_char_at(self.cells[offset])
        } else {
            false
        }
    }

    /// The position of the first header corner `┐` at or after `start`.
    fn find_time_corner_border(&self, start: usize) -> (r: Option<usize>)
        requires
            run_wf(self@),
        ensures
            r is None <==> spec_find_corner(self@.cells, start as int) is None,
            r matches Some(nb) ==> spec_find_corner(self@.cells, start as int) == Some(nb as int)
                && start <= nb < self@.cells.len(),
    {
        let mut offset = start;
        while offset < self.width
            invariant
                run_wf(self@),
                start <= offset,
                spec_find_corner(self@.cells, offset as int) == spec_find_corner(
                    self@.cells,
                    start as int,
                ),
            decreases self.width - offset,
        {
            if self.cells[offset] == '┐' {
                return Some(offset);
            }
            offset = offset + 1;
        }
        None
    }

    /// The position of the first border character at or after `start`.
    fn find_next_border(&self, start: usize) -> (r: Option<usize>)
        requires
            run_wf(self@),
        ensures
            r is None <==> spec_find_border(self@.cells, start as int) is None,
            r matches Some(nb) ==> spec_find_border(self@.cells, start as int) == Some(nb as int)
                && start <= nb < self@.cells.len(),
    {
        let mut offset = start;
        while offset < self.width
            invariant
                run_wf(self@),
                start <= offset,
                spec_find_border(self@.cells, offset as int) == spec_find_border(
                    self@.cells,
                    start as int,
                ),
            decreases self.width - offset,
        {
            if is_border_char_at(self.cells[offset]) {
                return Some(offset);
            }
            offset = offset + 1;
        }
        None
    }

    /// Joins a south edge onto the cell at `offset`.
    fn add_south_border(&mut self, offset: usize)
        requires
            run_wf(old(self)@),
        ensures
            run_wf(final(self)@),
            final(self)@ == spec_add_south(old(self)@, offset as int),
    {
        if offset < self.width {
            let c = self.cells[offset];
            self.cells.set(offset, south_join_char(c));
        }
    }

    /// Joins an east edge onto the cell just before the cursor.
    fn add_east_border(&mut self)
        requires
            run_wf(old(self)@),
        ensures
            run_wf(final(self)@),
            final(self)@ == spec_add_east(old(self)@),
    {
        if self.offset >= 1 {
            let c = self.cells[self.offset - 1];
            self.cells.set(self.offset - 1, east_join_char(c));
        }
    }
}

/// A square corner turned round; every other character stays itself.
pub open spec fn round_corner(c: char) -> char {
    match c {
        '┌' => '╭',
        '└' => '╰',
        '┐' => '╮',
        '┘' => '╯',
        _ => c,
    }
}

/// A square corner turned round.
fn round_corner_char(c: char) -> (r: char)
    ensures
        r == round_corner(c),
{
    match c {
        '┌' => '╭',
        '└' => '╰',
        '┐' => '╮',
        '┘' => '╯',
        other => other,
    }
}

/// The serialized text of one cell: when color is on and a style marker
/// sits here, a reset followed by the marker's escape sequence; then the
/// cell's character, its corner rounded unless square corners are asked
/// for.
pub open spec fn spec_format_cell(r: RunV, escape: bool, i: int) -> Seq<char> {
    (if r.use_color {
        match r.formats[i] {
            None => Seq::empty(),
            Some(f) => spec_reset_style(escape) + (match f {
                FormatV::Clear => Seq::empty(),
                FormatV::Border => r.border_format,
                FormatV::Prompt => r.prompt_format,
                FormatV::Span(s) => s,
            }),
        }
    } else {
        Seq::empty()
    }) + seq![
        if !r.use_safe_corners {
            round_corner(r.cells[i])
        } else {
            r.cells[i]
        },
    ]
}

/// The serialized text of the first `n` cells.
pub open spec fn spec_format_to(r: RunV, escape: bool, n: int) -> Seq<char>
    decreases n,
{
    if n <= 0 {
        Seq::empty()
    } else {
        spec_format_to(r, escape, n - 1) + spec_format_cell(r, escape, n - 1)
    }
}

/// The serialized text of a whole row.
pub open spec fn spec_format_run(r: RunV, escape: bool) -> Seq<char> {
    spec_format_to(r, escape, r.cells.len() as int)
}

/// The one-row stand-in shown when no layout fits the terminal: a bare
/// arrow and a blank, colorless and cursor at its end.
pub open spec fn spec_fallback_run() -> RunV {
    RunV {
        width: 2,
        cells: seq!['>', ' '],
        formats: seq![None, None],
        offset: 2,
        last_format: FormatV::Clear,
        use_color: false,
        use_safe_corners: false,
        clear_format: Seq::empty(),
        border_format: Seq::empty(),
        prompt_format: Seq::empty(),
    }
}

impl Run {
    /// The rows shown when no layout fits the terminal.
    pub fn get_fallback_run() -> (r: Vec<Run>)
        ensures
            r.deep_view() =~= seq![spec_fallback_run()],
    {
        proof {
            reveal_strlit("");
        }
        let mut cells: Vec<char> = Vec::new();
        cells.push('>');
        cells.push(' ');
        let mut formats: Vec<Option<Format>> = Vec::new();
        formats.push(None);
        formats.push(None);
        proof {
            assert(cells@ =~= seq!['>', ' ']);
            assert(formats.deep_view() =~= seq![None::<FormatV>, None::<FormatV>]);
        }
        let run = Run {
            width: 2,
            cells,
            formats,
            offset: 2,
            last_format: Format::Clear,
            use_color: false,
            use_safe_corners: false,
            clear_format: String::new(),
            border_format: String::new(),
            prompt_format: String::new(),
        };
        proof {
            assert(run@ == spec_fallback_run());
        }
        let mut out: Vec<Run> = Vec::new();
        out.push(run);
        proof {
            assert(out.deep_view() =~= seq![spec_fallback_run()]);
        }
        out
    }

    /// Serializes the row: each cell's style change (when color is on) and
    /// its character, corners rounded unless square corners are asked for.
    pub fn format(&self, escape_for_readline: bool) -> (out: String)
        requires
            run_wf(self@),
        ensures
            out@ == spec_format_run(self@, escape_for_readline),
    {
        let mut out = String::new();
        let n = self.cells.len();
        let mut i: usize = 0;
        while i < n
            invariant
                i <= n,
                run_wf(self@),
                n == self.cells.len(),
                out@ == spec_format_to(self@, escape_for_readline, i as int),
            decreases n - i,
        {
            let ghost out0 = out@;
            if self.use_color {
                match &self.formats[i] {
                    None => {},
                    Some(fmt) => {
                        let reset = Span::get_reset_style(escape_for_readline);
                        out.append(reset.as_str());
                        match fmt {
                            Format::Clear => {},
                            Format::Border => {
                                out.append(self.border_format.as_str());
                            },
                            Format::Prompt => {
                                out.append(self.prompt_format.as_str());
                            },
                            Format::Span(s) => {
                                out.append(s.as_str());
                            },
                        }
                    },
                }
            }
            let c = self.cells[i];
            if !self.use_safe_corners {
                push_char(&mut out, round_corner_char(c));
            } else {
                push_char(&mut out, c);
            }
            proof {
                assert(self.formats.deep_view()[i as int] == self.formats@[i as int].deep_view());
                assert(out@ =~= out0 + spec_format_cell(self@, escape_for_readline, i as int));
            }
            i = i + 1;
        }
        out
    }
}

/// The column where the right block begins.
pub open spec fn spec_right_start(l: LayoutV) -> int {
    sp_sat_sub(sp_sat_sub(l.width, 3 + div_width(l.prior_runtime) as int), l.right_extent)
}

/// The column just past the right block, where the header corner sits.
pub open spec fn spec_right_end(l: LayoutV) -> int {
    sp_sat_add(spec_right_start(l), l.right_extent)
}

/// One left float emitted into the row: an east edge on the cell before it,
/// the float's spans between blanks, for the row's last float a rule out to
/// the left extent, and a closing glyph — a `┘` joined onto the row above
/// where a border sits there, else a plain rule cell.
pub open spec fn spec_left_step(
    p: RunV,
    r: RunV,
    d: Seq<SpanV>,
    is_last: bool,
    ext: int,
    esc: bool,
) -> (RunV, RunV) {
    let r1 = spec_add_east(r);
    let r2 = spec_add_formatted(r1, seq![' '], FormatV::Clear);
    let r3 = spec_add_div(r2, d, esc, d.len() as int);
    let r4 = spec_add_formatted(r3, seq![' '], FormatV::Clear);
    let r5 = if is_last {
        spec_add_formatted(r4, char_run('─', sp_sat_sub(ext, r4.offset)), FormatV::Border)
    } else {
        r4
    };
    if spec_is_border_at(p, r5.offset) {
        (spec_add_south(p, r5.offset), spec_add_formatted(r5, seq!['┘'], FormatV::Border))
    } else {
        (p, spec_add_formatted(r5, seq!['─'], FormatV::Border))
    }
}

/// The first `k` left floats emitted in order.
pub open spec fn spec_emit_left(
    p: RunV,
    r: RunV,
    ds: Seq<Seq<SpanV>>,
    ext: int,
    esc: bool,
    k: int,
) -> (RunV, RunV)
    decreases k,
{
    if k <= 0 {
        (p, r)
    } else {
        let pr = spec_emit_left(p, r, ds, ext, esc, k - 1);
        spec_left_step(pr.0, pr.1, ds[k - 1], k - 1 == ds.len() - 1, ext, esc)
    }
}

/// One right float emitted into the row: an east edge, the float's spans
/// between blanks, then a rule up to the next border of the row above (for
/// the first row's last float, up to the header corner), and a `┘` joined
/// onto the row above.
pub open spec fn spec_right_step(
    p: RunV,
    r: RunV,
    d: Seq<SpanV>,
    is_last: bool,
    first_row: bool,
    esc: bool,
) -> (RunV, RunV) {
    let r1 = spec_add_east(r);
    let r2 = spec_add_formatted(r1, seq![' '], FormatV::Clear);
    let r3 = spec_add_div(r2, d, esc, d.len() as int);
    let r4 = spec_add_formatted(r3, seq![' '], FormatV::Clear);
    let r5 = if first_row && is_last {
        match spec_find_corner(p.cells, r4.offset) {
            Some(nb) => if nb - r4.offset > 0 {
                spec_add_formatted(r4, char_run('─', nb - r4.offset), FormatV::Border)
            } else {
                r4
            },
            None => r4,
        }
    } else {
        match spec_find_border(p.cells, r4.offset) {
            Some(nb) => if nb - r4.offset > 0 {
                spec_add_formatted(r4, char_run('─', nb - r4.offset), FormatV::Border)
            } else {
                r4
            },
            None => r4,
        }
    };
    (spec_add_south(p, r5.offset), spec_add_formatted(r5, seq!['┘'], FormatV::Border))
}

/// The first `k` right floats emitted in order.
pub open spec fn spec_emit_right(
    p: RunV,
    r: RunV,
    ds: Seq<Seq<SpanV>>,
    first_row: bool,
    esc: bool,
    k: int,
) -> (RunV, RunV)
    decreases k,
{
    if k <= 0 {
        (p, r)
    } else {
        let pr = spec_emit_right(p, r, ds, first_row, esc, k - 1);
        spec_right_step(pr.0, pr.1, ds[k - 1], k - 1 == ds.len() - 1, first_row, esc)
    }
}

/// Emits all left floats of one row, patching the row above at each join.
fn emit_left(prev: &mut Run, row: &mut Run, divs: &Vec<Div>, left_extent: usize, escape: bool)
    requires
        run_wf(old(prev)@),
        run_wf(old(row)@),
    ensures
        run_wf(final(prev)@),
        run_wf(final(row)@),
        (final(prev)@, final(row)@) == spec_emit_left(
            old(prev)@,
            old(row)@,
            divs.deep_view(),
            left_extent as int,
            escape,
            divs.deep_view().len() as int,
        ),
{
    let ghost p0 = prev@;
    let ghost r0 = row@;
    let ghost ds = divs.deep_view();
    let n = divs.len();
    let mut k: usize = 0;
    proof {
        reveal_strlit(" ");
        reveal_strlit("┘");
        reveal_strlit("─");
    }
    while k < n
        invariant
            k <= n,
            n == divs.len(),
            ds == divs.deep_view(),
            ds.len() == n,
            run_wf(prev@),
            run_wf(row@),
            (prev@, row@) == spec_emit_left(p0, r0, ds, left_extent as int, escape, k as int),
        decreases n - k,
    {
        let ghost pk = prev@;
        let ghost rk = row@;
        proof {
            reveal_strlit(" ");
            reveal_strlit("┘");
            reveal_strlit("─");
            assert(" "@ =~= seq![' ']);
            assert("┘"@ =~= seq!['┘']);
            assert("─"@ =~= seq!['─']);
            assert(divs[k as int].deep_view() == ds[k as int]);
        }
        row.add_east_border();
        row.add(" ");
        row.add_div(&divs[k], escape);
        row.add(" ");
        if k == n - 1 {
            let to_right = sat_sub(left_extent, row.offset);
            row.repeat_border('─', to_right);
        }
        if prev.is_border_at(row.offset) {
            prev.add_south_border(row.offset);
            row.add_border("┘");
        } else {
            row.add_border("─");
        }
        proof {
            assert((prev@, row@) == spec_left_step(
                pk,
                rk,
                ds[k as int],
                k as int == ds.len() - 1,
                left_extent as int,
                escape,
            ));
        }
        k = k + 1;
    }
}

/// Emits all right floats of one row, patching the row above at each join.
fn emit_right(prev: &mut Run, row: &mut Run, divs: &Vec<Div>, first_row: bool, escape: bool)
    requires
        run_wf(old(prev)@),
        run_wf(old(row)@),
    ensures
        run_wf(final(prev)@),
        run_wf(final(row)@),
        (final(prev)@, final(row)@) == spec_emit_right(
            old(prev)@,
            old(row)@,
            divs.deep_view(),
            first_row,
            escape,
            divs.deep_view().len() as int,
        ),
{
    let ghost p0 = prev@;
    let ghost r0 = row@;
    let ghost ds = divs.deep_view();
    let n = divs.len();
    let mut k: usize = 0;
    while k < n
        invariant
            k <= n,
            n == divs.len(),
            ds == divs.deep_view(),
            ds.len() == n,
            run_wf(prev@),
            run_wf(row@),
            (prev@, row@) == spec_emit_right(p0, r0, ds, first_row, escape, k as int),
        decreases n - k,
    {
        let ghost pk = prev@;
        let ghost rk = row@;
        proof {
            reveal_strlit(" ");
            reveal_strlit("┘");
            assert(" "@ =~= seq![' ']);
            assert("┘"@ =~= seq!['┘']);
            assert(divs[k as int].deep_view() == ds[k as int]);
        }
        row.add_east_border();
        row.add(" ");
        row.add_div(&divs[k], escape);
        row.add(" ");
        if first_row && k == n - 1 {
            match prev.find_time_corner_border(row.offset) {
                Some(next_border) => {
                    let off = next_border - row.offset;
                    if off > 0 {
                        row.repeat_border('─', off);
                    }
                },
                None => {},
            }
        } else {
            match prev.find_next_border(row.offset) {
                Some(next_border) => {
                    let off = next_border - row.offset;
                    if off > 0 {
                        row.repeat_border('─', off);
                    }
                },
                None => {},
            }
        }
        prev.add_south_border(row.offset);
        row.add_border("┘");
        proof {
            assert((prev@, row@) == spec_right_step(
                pk,
                rk,
                ds[k as int],
                k as int == ds.len() - 1,
                first_row,
                escape,
            ));
        }
        k = k + 1;
    }
}

/// The header row: a rule out to the header corner `┐`, then the prior
/// runtime float between blanks.
pub open spec fn spec_row0(l: LayoutV) -> RunV {
    let r = spec_new_run(l.width, l);
    let r1 = spec_add_formatted(r, char_run('─', spec_right_end(l)), FormatV::Border);
    let r2 = spec_add_formatted(r1, seq!['┐'], FormatV::Border);
    let r3 = spec_add_formatted(r2, seq![' '], FormatV::Clear);
    let r4 = spec_add_div(r3, l.prior_runtime, l.escape_for_readline, l.prior_runtime.len() as int);
    spec_add_formatted(r4, seq![' '], FormatV::Clear)
}

/// Content row `i` built against the row above it: a `│` start, the left
/// block's floats, blank filler to the right block's start, and the right
/// block's floats with, on the first row, a rule out to the row's end.
/// Returns the patched row above and the new row.
pub open spec fn spec_content_row(p: RunV, l: LayoutV, i: int) -> (RunV, RunV) {
    let r0 = spec_new_run(l.width, l);
    let p1 = spec_add_south(p, r0.offset);
    let r1 = spec_add_formatted(r0, seq!['│'], FormatV::Border);
    let lr = if l.left_by_row.len() > i {
        spec_emit_left(
            p1,
            r1,
            l.left_by_row[i],
            l.left_extent,
            l.escape_for_readline,
            l.left_by_row[i].len() as int,
        )
    } else {
        (p1, r1)
    };
    let r3 = spec_add_formatted(
        lr.1,
        char_run(' ', sp_sat_sub(spec_right_start(l), lr.1.offset)),
        FormatV::Clear,
    );
    if l.right_by_row.len() > i {
        let p2 = spec_add_south(lr.0, r3.offset);
        let r4 = spec_add_formatted(r3, seq!['└'], FormatV::Border);
        let er = spec_emit_right(
            p2,
            r4,
            l.right_by_row[i],
            i == 0,
            l.escape_for_readline,
            l.right_by_row[i].len() as int,
        );
        if i == 0 {
            let r5 = spec_add_east(er.1);
            let r6 = spec_add_formatted(
                r5,
                char_run('─', sp_sat_sub(l.width, r5.offset)),
                FormatV::Border,
            );
            (er.0, r6)
        } else {
            er
        }
    } else {
        (lr.0, r3)
    }
}

/// The first `n + 1` rows of the rendering: the header row, then `n`
/// content rows, each patched by its successor; the last row is still
/// unpatched.
pub open spec fn spec_runs(l: LayoutV, n: int) -> Seq<RunV>
    decreases n,
{
    if n <= 0 {
        seq![spec_row0(l)]
    } else {
        let rs = spec_runs(l, n - 1);
        let pr = spec_content_row(rs.last(), l, n - 1);
        rs.drop_last().push(pr.0).push(pr.1)
    }
}

/// The closing prompt row: a `└`, the arrow (ASCII on demand), a blank.
pub open spec fn spec_last_run(l: LayoutV) -> RunV {
    let r = spec_new_run(3, l);
    let r1 = spec_add_formatted(r, seq!['└'], FormatV::Border);
    let r2 = spec_add_formatted(
        r1,
        seq![
            if l.use_safe_arrow {
                '>'
            } else {
                '➤'
            },
        ],
        FormatV::Prompt,
    );
    spec_add_formatted(r2, seq![' '], FormatV::Clear)
}

/// The whole rendering of a layout: header row, the content rows, and the
/// prompt row.
pub open spec fn spec_render(l: LayoutV) -> Seq<RunV> {
    spec_runs(l, l.height).push(spec_last_run(l))
}

impl Run {
    /// Builds the header row.
    fn render_row0(layout: &Layout, right_end: usize) -> (r: Run)
        requires
            right_end as int == spec_right_end(layout@),
        ensures
            run_wf(r@),
            r@ == spec_row0(layout@),
    {
        proof {
            reveal_strlit("┐");
            reveal_strlit(" ");
            assert("┐"@ =~= seq!['┐']);
            assert(" "@ =~= seq![' ']);
        }
        let mut row0 = Run::new(layout.width, layout);
        row0.repeat_border('─', right_end);
        row0.add_border("┐");
        row0.add(" ");
        row0.add_div(&layout.prior_runtime, layout.escape_for_readline);
        row0.add(" ");
        row0
    }

    /// Builds content row `i` and patches the row above it.
    fn render_content_row(prev: &mut Run, layout: &Layout, i: usize, right_start: usize) -> (row:
        Run)
        requires
            run_wf(old(prev)@),
            right_start as int == spec_right_start(layout@),
        ensures
            run_wf(final(prev)@),
            run_wf(row@),
            (final(prev)@, row@) == spec_content_row(old(prev)@, layout@, i as int),
    {
        proof {
            reveal_strlit("│");
            reveal_strlit("└");
            assert("│"@ =~= seq!['│']);
            assert("└"@ =~= seq!['└']);
        }
        let mut row = Run::new(layout.width, layout);
        prev.add_south_border(row.offset);
        row.add_border("│");
        if layout.left_by_row.len() > i {
            proof {
                assert(layout.left_by_row[i as int].deep_view() == layout@.left_by_row[i as int]);
            }
            emit_left(
                prev,
                &mut row,
                &layout.left_by_row[i],
                layout.left_extent,
                layout.escape_for_readline,
            );
        }
        let to_right = sat_sub(right_start, row.offset);
        row.repeat(' ', to_right);
        if layout.right_by_row.len() > i {
            prev.add_south_border(row.offset);
            row.add_border("└");
            proof {
                assert(layout.right_by_row[i as int].deep_view() == layout@.right_by_row[i as int]);
            }
            emit_right(
                prev,
                &mut row,
                &layout.right_by_row[i],
                i == 0,
                layout.escape_for_readline,
            );
            if i == 0 {
                let to_end = sat_sub(layout.width, row.offset);
                row.add_east_border();
                row.repeat_border('─', to_end);
            }
        }
        row
    }

    /// Builds the closing prompt row.
    fn render_last_run(layout: &Layout) -> (r: Run)
        ensures
            run_wf(r@),
            r@ == spec_last_run(layout@),
    {
        proof {
            reveal_strlit("└");
            reveal_strlit(">");
            reveal_strlit("➤");
            reveal_strlit(" ");
            assert("└"@ =~= seq!['└']);
            assert(">"@ =~= seq!['>']);
            assert("➤"@ =~= seq!['➤']);
            assert(" "@ =~= seq![' ']);
        }
        let mut run_last = Run::new(3, layout);
        run_last.add_border("└");
        if layout.use_safe_arrow {
            run_last.add_prompt(">");
        } else {
            run_last.add_prompt("➤");
        }
        run_last.add(" ");
        run_last
    }

    /// Renders a layout into its rows: the header row, one row per content
    /// row of the layout — each patching the border of the row above it so
    /// that every junction reflects all edges meeting there — and the
    /// prompt row.
    pub fn render_layout(layout: &Layout) -> (runs: Vec<Run>)
        requires
            div_width(layout@.prior_runtime) + 3 <= usize::MAX,
        ensures
            runs.deep_view() == spec_render(layout@),
    {
        let ghost lv = layout@;
        let prior_w = layout.prior_runtime.width();
        let right_start = sat_sub(sat_sub(layout.width, 2 + prior_w + 1), layout.right_extent);
        let right_end = sat_add(right_start, layout.right_extent);

        let mut runs: Vec<Run> = Vec::new();
        let mut prev = Run::render_row0(layout, right_end);
        proof {
            assert(runs.deep_view().push(prev@) =~= spec_runs(lv, 0));
        }
        let mut i: usize = 0;
        while i < layout.height
            invariant
                i <= layout.height,
                lv == layout@,
                right_start as int == spec_right_start(lv),
                div_width(lv.prior_runtime) + 3 <= usize::MAX,
                run_wf(prev@),
                runs.deep_view().push(prev@) == spec_runs(lv, i as int),
            decreases layout.height - i,
        {
            let ghost rs = spec_runs(lv, i as int);
            let ghost p_old = prev@;
            let row = Run::render_content_row(&mut prev, layout, i, right_start);
            proof {
                assert(rs.last() == p_old);
                assert(rs.drop_last() =~= runs.deep_view());
            }
            let ghost done = runs.deep_view();
            runs.push(prev);
            proof {
                assert(runs.deep_view() =~= done.push(prev@));
            }
            prev = row;
            proof {
                assert(runs.deep_view().push(prev@) =~= spec_runs(lv, i as int + 1));
            }
            i = i + 1;
        }
        runs.push(prev);
        proof {
            assert(runs.deep_view() =~= spec_runs(lv, lv.height));
        }
        let run_last = Run::render_last_run(layout);
        let ghost done2 = runs.deep_view();
        runs.push(run_last);
        proof {
            assert(runs.deep_view() =~= done2.push(run_last@));
            assert(runs.deep_view() =~= spec_render(lv));
        }
        runs
    }
}

/// The edges that meet in one border cell.
pub struct EdgeMask {
    pub north: bool,
    pub south: bool,
    pub east: bool,
    pub west: bool,
}

/// The edges a box-drawing glyph declares, for the eleven glyphs of the
/// renderer's alphabet; any other character declares none.
pub open spec fn decode_edges(c: char) -> Option<EdgeMask> {
    match c {
        '─' => Some(EdgeMask { north: false, south: false, east: true, west: true }),
        '│' => Some(EdgeMask { north: true, south: true, east: false, west: false }),
        '┼' => Some(EdgeMask { north: true, south: true, east: true, west: true }),
        '┌' => Some(EdgeMask { north: false, south: true, east: true, west: false }),
        '└' => Some(EdgeMask { north: true, south: false, east: true, west: false }),
        '┐' => Some(EdgeMask { north: false, south: true, east: false, west: true }),
        '┘' => Some(EdgeMask { north: true, south: false, east: false, west: true }),
        '├' => Some(EdgeMask { north: true, south: true, east: true, west: false }),
        '┤' => Some(EdgeMask { north: true, south: true, east: false, west: true }),
        '┬' => Some(EdgeMask { north: false, south: true, east: true, west: true }),
        '┴' => Some(EdgeMask { north: true, south: false, east: true, west: true }),
        _ => None,
    }
}

/// The glyph that declares exactly the given edges, where the alphabet has
/// one; single edges and the empty mask have none.
pub open spec fn encode_edges(m: EdgeMask) -> Option<char> {
    if m == (EdgeMask { north: false, south: false, east: true, west: true }) {
        Some('─')
    } else if m == (EdgeMask { north: true, south: true, east: false, west: false }) {
        Some('│')
    } else if m == (EdgeMask { north: true, south: true, east: true, west: true }) {
        Some('┼')
    } else if m == (EdgeMask { north: false, south: true, east: true, west: false }) {
        Some('┌')
    } else if m == (EdgeMask { north: true, south: false, east: true, west: false }) {
        Some('└')
    } else if m == (EdgeMask { north: false, south: true, east: false, west: true }) {
        Some('┐')
    } else if m == (EdgeMask { north: true, south: false, east: false, west: true }) {
        Some('┘')
    } else if m == (EdgeMask { north: true, south: true, east: true, west: false }) {
        Some('├')
    } else if m == (EdgeMask { north: true, south: true, east: false, west: true }) {
        Some('┤')
    } else if m == (EdgeMask { north: false, south: true, east: true, west: true }) {
        Some('┬')
    } else if m == (EdgeMask { north: true, south: false, east: true, west: true }) {
        Some('┴')
    } else {
        None
    }
}

/// The edge tables are a faithful pair: decoding a glyph and encoding the
/// mask gives the glyph back.
pub proof fn lemma_edge_codec_roundtrip(c: char)
    ensures
        decode_edges(c) matches Some(m) ==> encode_edges(m) == Some(c),
{
}

/// The south-join transform is closed over the border alphabet and adds
/// exactly a south edge: the result is again a border glyph, and it
/// declares the old glyph's edges plus south.
pub proof fn lemma_south_join_adds_edge(c: char)
    requires
        is_border_char(c),
    ensures
        is_border_char(south_join(c)),
        decode_edges(c) matches Some(m) ==> decode_edges(south_join(c)) == Some(
            (EdgeMask { south: true, ..m }),
        ),
{
}

/// The east-join transform is closed over the border alphabet and adds
/// exactly an east edge: the result is again a border glyph, and it
/// declares the old glyph's edges plus east.
pub proof fn lemma_east_join_adds_edge(c: char)
    requires
        is_border_char(c),
    ensures
        is_border_char(east_join(c)),
        decode_edges(c) matches Some(m) ==> decode_edges(east_join(c)) == Some(
            (EdgeMask { east: true, ..m }),
        ),
{
}

/// Rendering is a pure function of the layout: handing the same layout to
/// the renderer twice gives the same rows, and serializing them gives the
/// same strings — there is no hidden state.
pub proof fn lemma_render_deterministic(l: LayoutV, x: Seq<RunV>, y: Seq<RunV>)
    requires
        x == spec_render(l),
        y == spec_render(l),
    ensures
        x == y,
        forall|i: int, esc: bool|
            0 <= i < x.len() ==> #[trigger] spec_format_run(x[i], esc) == spec_format_run(
                y[i],
                esc,
            ),
{
}

} // verus!

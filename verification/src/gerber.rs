//! Gerber RS-274X: the aperture, interpolation, polarity and unit kinds,
//! tool-select codes, the reader's per-line decisions (mode changes, tool
//! selection, and whether a line draws, moves or flashes), and the writer.
use vstd::prelude::*;
use crate::text::{chars_of, dec, dec_int, push_dec, push_dec_i64, push_char};
use crate::step_entities::strings_view;
use crate::strs::{
    trim, trim_range, range_string, parse_unsigned, parse_unsigned_range, find_substr, starts_with,
    str_contains, str_starts_with, find, find_in, lemma_find_from, lemma_find_from_none, trim_start_char, trim_end_char, strip_start_char, strip_end_char, split_char,
    split_ranges,
};

verus! {

/// Aperture shape.
#[derive(Debug, Clone, Copy, PartialEq, Eq, Structural)]
pub enum ApertureShape {
    Circle,
    Rectangle,
    Obround,
    Polygon,
}

/// Interpolation mode.
#[derive(Debug, Clone, Copy, PartialEq, Eq, Structural)]
pub enum Interpolation {
    Linear,
    ClockwiseArc,
    CounterClockwiseArc,
}

/// Polarity of the layer.
#[derive(Debug, Clone, Copy, PartialEq, Eq, Structural)]
pub enum Polarity {
    Dark,
    Clear,
}

/// Unit of the layer's coordinates.
#[derive(Debug, Clone, Copy, PartialEq, Eq, Structural)]
pub enum GerberUnit {
    Inch,
    Millimeter,
}

/// The letter that names an aperture shape in an `%ADD` definition.
pub open spec fn shape_letter_spec(s: ApertureShape) -> char {
    match s {
        ApertureShape::Circle => 'C',
        ApertureShape::Rectangle => 'R',
        ApertureShape::Obround => 'O',
        ApertureShape::Polygon => 'P',
    }
}

/// The shape a definition letter names.
pub open spec fn shape_of_letter_spec(c: char) -> Option<ApertureShape> {
    if c == 'C' {
        Some(ApertureShape::Circle)
    } else if c == 'R' {
        Some(ApertureShape::Rectangle)
    } else if c == 'O' {
        Some(ApertureShape::Obround)
    } else if c == 'P' {
        Some(ApertureShape::Polygon)
    } else {
        None
    }
}

/// The letter written for an aperture shape.
pub fn shape_letter(s: ApertureShape) -> (r: char)
    ensures
        r == shape_letter_spec(s),
{
    match s {
        ApertureShape::Circle => 'C',
        ApertureShape::Rectangle => 'R',
        ApertureShape::Obround => 'O',
        ApertureShape::Polygon => 'P',
    }
}

/// The shape a definition letter names; `None` for any other letter.
pub fn shape_of_letter(c: char) -> (r: Option<ApertureShape>)
    ensures
        r == shape_of_letter_spec(c),
{
    if c == 'C' {
        Some(ApertureShape::Circle)
    } else if c == 'R' {
        Some(ApertureShape::Rectangle)
    } else if c == 'O' {
        Some(ApertureShape::Obround)
    } else if c == 'P' {
        Some(ApertureShape::Polygon)
    } else {
        None
    }
}

/// Reading back the letter written for a shape gives the shape.
pub proof fn lemma_shape_letter_roundtrip(s: ApertureShape)
    ensures
        shape_of_letter_spec(shape_letter_spec(s)) == Some(s),
{
}

// ---------------------------------------------------------------------------
// Tool-select codes
// ---------------------------------------------------------------------------

/// The last position of `c` in `s`.
pub open spec fn rfind(s: Seq<char>, c: char) -> Option<int>
    decreases s.len(),
{
    if s.len() == 0 {
        None
    } else if s.last() == c {
        Some(s.len() - 1)
    } else {
        rfind(s.drop_last(), c)
    }
}

/// The end of the run of ASCII digits that starts at `from`.
pub open spec fn digits_end(s: Seq<char>, from: int) -> int
    decreases s.len() - from,
{
    if 0 <= from < s.len() && '0' <= s[from] <= '9' { digits_end(s, from + 1) } else { from }
}

/// The tool a line selects: the number after its last `D`, when that number
/// fits a `u32` and is 10 or more (lower numbers are operations, not tools).
pub open spec fn d_code_of(line: Seq<char>) -> Option<u32> {
    match rfind(line, 'D') {
        None => None,
        Some(p) => match parse_unsigned(line.subrange(p + 1, digits_end(line, p + 1)), u32::MAX as nat) {
            Some(v) => if v >= 10 { Some(v as u32) } else { None },
            None => None,
        },
    }
}

proof fn lemma_digits_end_bounds(s: Seq<char>, from: int)
    requires
        0 <= from <= s.len(),
    ensures
        from <= digits_end(s, from) <= s.len(),
    decreases s.len() - from,
{
    if from < s.len() && '0' <= s[from] <= '9' {
        lemma_digits_end_bounds(s, from + 1);
    }
}

/// The tool-select code of a line (`D10` and up), if any.
pub fn extract_d_code(line: &str) -> (r: Option<u32>)
    ensures
        r == d_code_of(line@),
{
    let cs = chars_of(line);
    let ghost s = cs@;
    let mut k: usize = cs.len();
    assert(s.take(s.len() as int) =~= s);
    while k > 0 && cs[k - 1] != 'D'
        invariant
            k <= s.len(),
            s == cs@,
            rfind(s, 'D') == rfind(s.take(k as int), 'D'),
        decreases k,
    {
        assert(s.take(k as int).drop_last() =~= s.take(k - 1));
        k = k - 1;
    }
    if k == 0 {
        return None;
    }
    let p = k - 1;
    assert(rfind(s, 'D') == Some(p as int));
    let mut e = k;
    proof { lemma_digits_end_bounds(s, k as int); }
    while e < cs.len() && '0' <= cs[e] && cs[e] <= '9'
        invariant
            k <= e <= s.len(),
            s == cs@,
            digits_end(s, k as int) == digits_end(s, e as int),
        decreases cs.len() - e,
    {
        e = e + 1;
    }
    match parse_unsigned_range(&cs, k, e, 0xffff_ffffu64) {
        Some(v) => if v >= 10 { Some(v as u32) } else { None },
        None => None,
    }
}

// ---------------------------------------------------------------------------
// The reader's per-line decisions
// ---------------------------------------------------------------------------

/// The modes a Gerber reader carries from line to line.
#[derive(Debug, Clone, Copy, PartialEq, Eq, Structural)]
pub struct GerberState {
    pub unit: GerberUnit,
    pub polarity: Polarity,
    pub interpolation: Interpolation,
    /// The selected tool.
    pub aperture: u32,
    /// Integer digits of the coordinate format.
    pub format_int: usize,
    /// Decimal digits of the coordinate format.
    pub format_dec: usize,
}

/// What a line does with the current point.
#[derive(Debug, Clone, Copy, PartialEq, Eq, Structural)]
pub enum GerberAction {
    /// `D01`: draw a trace to the line's coordinates.
    Draw,
    /// `D02`: move to the line's coordinates.
    Move,
    /// `D03`: move there and flash the tool.
    Flash,
    /// Nothing.
    Nothing,
}

/// The state at the start of a file: millimetres, dark, linear, tool 10,
/// format 2.4.
pub open spec fn initial_state() -> GerberState {
    GerberState {
        unit: GerberUnit::Millimeter,
        polarity: Polarity::Dark,
        interpolation: Interpolation::Linear,
        aperture: 10,
        format_int: 2,
        format_dec: 4,
    }
}

/// The state at the start of a file.
pub fn gerber_initial_state() -> (r: GerberState)
    ensures
        r == initial_state(),
{
    GerberState {
        unit: GerberUnit::Millimeter,
        polarity: Polarity::Dark,
        interpolation: Interpolation::Linear,
        aperture: 10,
        format_int: 2,
        format_dec: 4,
    }
}

/// Whether `pat` occurs in `s`.
pub open spec fn has(s: Seq<char>, pat: Seq<char>) -> bool {
    find_substr(s, pat) is Some
}

/// The value of a decimal digit, or `default` for any other character.
pub open spec fn digit_or(c: char, default: nat) -> nat {
    if '0' <= c <= '9' { (c as nat - '0' as nat) as nat } else { default }
}

/// The unit after a line: `%MOMM*%` selects millimetres, else `%MOIN*%`
/// inches.
pub open spec fn unit_after(line: Seq<char>, u: GerberUnit) -> GerberUnit {
    if has(line, "%MOMM*%"@) {
        GerberUnit::Millimeter
    } else if has(line, "%MOIN*%"@) {
        GerberUnit::Inch
    } else {
        u
    }
}

/// The coordinate format after a line: `%FSLAX` followed by two digits.
pub open spec fn format_after(line: Seq<char>, fi: nat, fd: nat) -> (nat, nat) {
    if starts_with(line, "%FSLAX"@) && line.len() >= 8 {
        (digit_or(line[6], 2), digit_or(line[7], 4))
    } else {
        (fi, fd)
    }
}

/// The polarity after a line: `%LPC*%` clear, else `%LPD*%` dark.
pub open spec fn polarity_after(line: Seq<char>, p: Polarity) -> Polarity {
    if has(line, "%LPC*%"@) {
        Polarity::Clear
    } else if has(line, "%LPD*%"@) {
        Polarity::Dark
    } else {
        p
    }
}

/// The interpolation after a line: `G03`, else `G02`, else `G01`.
pub open spec fn interpolation_after(line: Seq<char>, i: Interpolation) -> Interpolation {
    if has(line, "G03"@) {
        Interpolation::CounterClockwiseArc
    } else if has(line, "G02"@) {
        Interpolation::ClockwiseArc
    } else if has(line, "G01"@) {
        Interpolation::Linear
    } else {
        i
    }
}

/// What a line does: `D01` draws, else `D02` moves, else `D03` flashes.
pub open spec fn action_of(line: Seq<char>) -> GerberAction {
    if has(line, "D01"@) {
        GerberAction::Draw
    } else if has(line, "D02"@) {
        GerberAction::Move
    } else if has(line, "D03"@) {
        GerberAction::Flash
    } else {
        GerberAction::Nothing
    }
}

/// The state and action after one line of the file (trimmed first; an
/// empty line changes nothing). Mode commands are looked for anywhere in
/// the line.
pub open spec fn gerber_step(st: GerberState, raw: Seq<char>) -> (GerberState, GerberAction) {
    let line = trim(raw);
    if line.len() == 0 {
        (st, GerberAction::Nothing)
    } else {
        let fmt = format_after(line, st.format_int as nat, st.format_dec as nat);
        (
            GerberState {
                unit: unit_after(line, st.unit),
                polarity: polarity_after(line, st.polarity),
                interpolation: interpolation_after(line, st.interpolation),
                aperture: match d_code_of(line) {
                    Some(d) => d,
                    None => st.aperture,
                },
                format_int: fmt.0 as usize,
                format_dec: fmt.1 as usize,
            },
            action_of(line),
        )
    }
}

fn digit_value_or(c: char, default: usize) -> (r: usize)
    requires
        default <= 9,
    ensures
        r == digit_or(c, default as nat),
{
    if '0' <= c && c <= '9' { (c as u32 - '0' as u32) as usize } else { default }
}

fn unit_step(line: &str, u: GerberUnit) -> (r: GerberUnit)
    ensures
        r == unit_after(line@, u),
{
    let mut unit = u;
    if str_contains(line, "%MOIN*%") {
        unit = GerberUnit::Inch;
    }
    if str_contains(line, "%MOMM*%") {
        unit = GerberUnit::Millimeter;
    }
    unit
}

fn polarity_step(line: &str, p: Polarity) -> (r: Polarity)
    ensures
        r == polarity_after(line@, p),
{
    let mut polarity = p;
    if str_contains(line, "%LPD*%") {
        polarity = Polarity::Dark;
    }
    if str_contains(line, "%LPC*%") {
        polarity = Polarity::Clear;
    }
    polarity
}

fn interpolation_step(line: &str, i: Interpolation) -> (r: Interpolation)
    ensures
        r == interpolation_after(line@, i),
{
    let mut interpolation = i;
    if str_contains(line, "G01") {
        interpolation = Interpolation::Linear;
    }
    if str_contains(line, "G02") {
        interpolation = Interpolation::ClockwiseArc;
    }
    if str_contains(line, "G03") {
        interpolation = Interpolation::CounterClockwiseArc;
    }
    interpolation
}

fn line_action(line: &str) -> (r: GerberAction)
    ensures
        r == action_of(line@),
{
    if str_contains(line, "D01") {
        GerberAction::Draw
    } else if str_contains(line, "D02") {
        GerberAction::Move
    } else if str_contains(line, "D03") {
        GerberAction::Flash
    } else {
        GerberAction::Nothing
    }
}

fn format_step(line: &str, fi: usize, fd: usize) -> (r: (usize, usize))
    ensures
        (r.0 as nat, r.1 as nat) == format_after(line@, fi as nat, fd as nat),
{
    let cs = chars_of(line);
    if str_starts_with(line, "%FSLAX") && cs.len() >= 8 {
        (digit_value_or(cs[6], 2), digit_value_or(cs[7], 4))
    } else {
        (fi, fd)
    }
}

/// The reader's decision for one line: the modes after it and what it does
/// with the current point.
pub fn gerber_line_step(st: GerberState, raw: &str) -> (r: (GerberState, GerberAction))
    ensures
        r == gerber_step(st, raw@),
{
    let cs = chars_of(raw);
    assert(cs@.subrange(0, cs@.len() as int) =~= raw@);
    let (a, b) = trim_range(&cs, 0, cs.len());
    let line_s = range_string(&cs, a, b);
    let line = line_s.as_str();
    if a == b {
        return (st, GerberAction::Nothing);
    }
    let (fi, fd) = format_step(line, st.format_int, st.format_dec);
    let aperture = match extract_d_code(line) {
        Some(d) => d,
        None => st.aperture,
    };
    let ns = GerberState {
        unit: unit_step(line, st.unit),
        polarity: polarity_step(line, st.polarity),
        interpolation: interpolation_step(line, st.interpolation),
        aperture,
        format_int: fi,
        format_dec: fd,
    };
    (ns, line_action(line))
}


// ---------------------------------------------------------------------------
// Writer
// ---------------------------------------------------------------------------

/// An aperture definition as the writer takes it: its D code, its shape,
/// and its parameters as text.
pub struct ApertureText {
    pub code: u32,
    pub shape: ApertureShape,
    pub params: Vec<String>,
}

/// Texts separated by `X`.
pub open spec fn x_joined(v: Seq<Seq<char>>) -> Seq<char>
    decreases v.len(),
{
    if v.len() == 0 {
        Seq::empty()
    } else if v.len() == 1 {
        v[0]
    } else {
        x_joined(v.drop_last()) + seq!['X'] + v.last()
    }
}

/// The `%ADD` line of an aperture.
pub open spec fn aperture_line(a: ApertureText) -> Seq<char> {
    "%ADD"@ + dec(a.code as nat) + seq![shape_letter_spec(a.shape), ','] + x_joined(strings_view(a.params@)) + "*%\n"@
}

pub open spec fn aperture_lines(aps: Seq<ApertureText>) -> Seq<char>
    decreases aps.len(),
{
    if aps.len() == 0 {
        Seq::empty()
    } else {
        aperture_lines(aps.drop_last()) + aperture_line(aps.last())
    }
}

/// A coordinate pair with its operation code.
pub open spec fn xy_line(x: i64, y: i64, op: Seq<char>) -> Seq<char> {
    seq!['X'] + dec_int(x as int) + seq!['Y'] + dec_int(y as int) + op
}

/// A trace: a move to its start and a draw to its end, in units of 1e-4.
pub open spec fn trace_lines(ts: Seq<(i64, i64, i64, i64)>) -> Seq<char>
    decreases ts.len(),
{
    if ts.len() == 0 {
        Seq::empty()
    } else {
        let t = ts.last();
        trace_lines(ts.drop_last()) + xy_line(t.0, t.1, "D02*\n"@) + xy_line(t.2, t.3, "D01*\n"@)
    }
}

/// Flashes at their positions, in units of 1e-4.
pub open spec fn flash_lines(fs: Seq<(i64, i64)>) -> Seq<char>
    decreases fs.len(),
{
    if fs.len() == 0 {
        Seq::empty()
    } else {
        flash_lines(fs.drop_last()) + xy_line(fs.last().0, fs.last().1, "D03*\n"@)
    }
}

/// A Gerber layer: the header (millimetres, 2.4 format), the aperture
/// definitions, the selection of the first aperture (D10 when there is
/// none) when anything is drawn, the traces, the flashes, and the end.
pub open spec fn gerber_text(aps: Seq<ApertureText>, ts: Seq<(i64, i64, i64, i64)>, fs: Seq<(i64, i64)>) -> Seq<char> {
    "G04 Generated by OpenIE*\n%MOMM*%\n%FSLAX24Y24*%\n"@ + aperture_lines(aps) + (if ts.len() > 0 || fs.len() > 0 {
        seq!['D'] + dec((if aps.len() > 0 { aps[0].code } else { 10 }) as nat) + "*\n"@
    } else {
        Seq::empty()
    }) + trace_lines(ts) + flash_lines(fs) + "M02*\n"@
}

fn push_x_joined(out: &mut String, v: &Vec<String>)
    ensures
        final(out)@ == old(out)@ + x_joined(strings_view(v@)),
{
    let ghost o = out@;
    let ghost sv = strings_view(v@);
    let mut k: usize = 0;
    while k < v.len()
        invariant
            k <= v@.len(),
            sv == strings_view(v@),
            out@ == o + x_joined(sv.take(k as int)),
        decreases v.len() - k,
    {
        assert(sv.take(k + 1).drop_last() =~= sv.take(k as int));
        if k > 0 {
            push_char(out, 'X');
        }
        out.append(v[k].as_str());
        assert(out@ =~= o + x_joined(sv.take(k + 1)));
        k = k + 1;
    }
    assert(sv.take(v@.len() as int) =~= sv);
}

fn push_xy(out: &mut String, x: i64, y: i64, op: &str)
    ensures
        final(out)@ == old(out)@ + xy_line(x, y, op@),
{
    let ghost o = out@;
    push_char(out, 'X');
    push_dec_i64(out, x);
    push_char(out, 'Y');
    push_dec_i64(out, y);
    out.append(op);
    assert(out@ =~= o + xy_line(x, y, op@));
}

/// Writes a Gerber layer: `apertures` with their parameters as text, and
/// traces and flashes with coordinates already in units of 1e-4.
pub fn write_gerber_text(
    apertures: &Vec<ApertureText>,
    traces: &Vec<(i64, i64, i64, i64)>,
    flashes: &Vec<(i64, i64)>,
) -> (r: String)
    ensures
        r@ == gerber_text(apertures@, traces@, flashes@),
{
    let mut out = String::new();
    out.append("G04 Generated by OpenIE*\n%MOMM*%\n%FSLAX24Y24*%\n");
    let ghost h = out@;
    let mut k: usize = 0;
    while k < apertures.len()
        invariant
            k <= apertures@.len(),
            out@ == h + aperture_lines(apertures@.take(k as int)),
        decreases apertures.len() - k,
    {
        assert(apertures@.take(k + 1).drop_last() =~= apertures@.take(k as int));
        let a = &apertures[k];
        let ghost before = out@;
        out.append("%ADD");
        push_dec(&mut out, a.code as u64);
        push_char(&mut out, shape_letter(a.shape));
        push_char(&mut out, ',');
        push_x_joined(&mut out, &a.params);
        out.append("*%\n");
        assert(out@ =~= before + aperture_line(*a));
        assert(out@ =~= h + aperture_lines(apertures@.take(k + 1)));
        k = k + 1;
    }
    assert(apertures@.take(apertures@.len() as int) =~= apertures@);
    let ghost after_aps = out@;
    if traces.len() > 0 || flashes.len() > 0 {
        let code = if apertures.len() > 0 { apertures[0].code } else { 10 };
        push_char(&mut out, 'D');
        push_dec(&mut out, code as u64);
        out.append("*\n");
    }
    let ghost after_sel = out@;
    let mut t: usize = 0;
    while t < traces.len()
        invariant
            t <= traces@.len(),
            out@ == after_sel + trace_lines(traces@.take(t as int)),
        decreases traces.len() - t,
    {
        assert(traces@.take(t + 1).drop_last() =~= traces@.take(t as int));
        let tr = traces[t];
        let ghost before = out@;
        push_xy(&mut out, tr.0, tr.1, "D02*\n");
        push_xy(&mut out, tr.2, tr.3, "D01*\n");
        assert(out@ =~= after_sel + trace_lines(traces@.take(t + 1)));
        t = t + 1;
    }
    assert(traces@.take(traces@.len() as int) =~= traces@);
    let ghost after_traces = out@;
    let mut f: usize = 0;
    while f < flashes.len()
        invariant
            f <= flashes@.len(),
            out@ == after_traces + flash_lines(flashes@.take(f as int)),
        decreases flashes.len() - f,
    {
        assert(flashes@.take(f + 1).drop_last() =~= flashes@.take(f as int));
        let fl = flashes[f];
        push_xy(&mut out, fl.0, fl.1, "D03*\n");
        assert(out@ =~= after_traces + flash_lines(flashes@.take(f + 1)));
        f = f + 1;
    }
    assert(flashes@.take(flashes@.len() as int) =~= flashes@);
    out.append("M02*\n");
    assert(out@ =~= gerber_text(apertures@, traces@, flashes@));
    out
}


// ---------------------------------------------------------------------------
// Aperture definitions
// ---------------------------------------------------------------------------

/// `s` without any trailing copies of `*%`.
pub open spec fn trim_end_star_percent(s: Seq<char>) -> Seq<char>
    decreases s.len(),
{
    if s.len() >= 2 && s[s.len() - 2] == '*' && s[s.len() - 1] == '%' {
        trim_end_star_percent(s.subrange(0, s.len() - 2))
    } else {
        s
    }
}

/// The position of the first character that is not an ASCII digit.
pub open spec fn first_non_digit(s: Seq<char>, from: int) -> Option<int>
    decreases s.len() - from,
{
    if from < 0 || from >= s.len() {
        None
    } else if !('0' <= s[from] <= '9') {
        Some(from)
    } else {
        first_non_digit(s, from + 1)
    }
}

/// The text of an `%ADD` line after `ADD`: the line loses its leading
/// `%`s, its trailing `*%`s and then `*`s, and must then start with `ADD`.
pub open spec fn def_inner(line: Seq<char>) -> Option<Seq<char>> {
    let s = trim_end_char(trim_end_star_percent(trim_start_char(line, '%')), '*');
    if starts_with(s, "ADD"@) { Some(s.skip(3)) } else { None }
}

/// The fields after `ADD`: the digits up to the first other character are
/// the D code, that character names the shape, it must be followed by one
/// more ASCII character, and after that, without leading commas, come the
/// parameter texts separated by `X`.
pub open spec fn def_fields(inner: Seq<char>) -> Option<(u32, ApertureShape, Seq<Seq<char>>)> {
    match first_non_digit(inner, 0) {
        None => None,
        Some(e) => match parse_unsigned(inner.take(e), 0xffff_ffff) {
            None => None,
            Some(code) => {
                let rest = inner.skip(e);
                match shape_of_letter_spec(rest[0]) {
                    None => None,
                    Some(shape) => if rest.len() >= 2 && (rest[1] as u32) < 128 {
                        Some((code as u32, shape, split_char(trim_start_char(rest.skip(2), ','), 'X')))
                    } else {
                        None
                    },
                }
            },
        },
    }
}

/// The fields of an `%ADD` line: D code, shape, and parameter texts.
pub open spec fn aperture_def_of(line: Seq<char>) -> Option<(u32, ApertureShape, Seq<Seq<char>>)> {
    match def_inner(line) {
        None => None,
        Some(inner) => def_fields(inner),
    }
}

fn def_inner_range(cs: &Vec<char>) -> (r: Option<(usize, usize)>)
    ensures
        match def_inner(cs@) {
            Some(inner) => match r {
                Some(p) => p.0 <= p.1 <= cs@.len() && cs@.subrange(p.0 as int, p.1 as int) == inner,
                None => false,
            },
            None => r is None,
        },
{
    assert(cs@.subrange(0, cs@.len() as int) =~= cs@);
    let a = strip_start_char(cs, 0, cs.len(), '%');
    let mut b = cs.len();
    while b - a >= 2 && cs[b - 2] == '*' && cs[b - 1] == '%'
        invariant
            a <= b <= cs@.len(),
            trim_end_star_percent(cs@.subrange(a as int, b as int)) == trim_end_star_percent(
                trim_start_char(cs@, '%'),
            ),
        decreases b,
    {
        assert(cs@.subrange(a as int, b as int).subrange(0, (b - a - 2) as int) =~= cs@.subrange(a as int, (b - 2) as int));
        b = b - 2;
    }
    assert(trim_end_star_percent(cs@.subrange(a as int, b as int)) == cs@.subrange(a as int, b as int));
    let b2 = strip_end_char(cs, a, b, '*');
    let ghost st = cs@.subrange(a as int, b2 as int);
    assert(st == trim_end_char(trim_end_star_percent(trim_start_char(cs@, '%')), '*'));
    proof {
        reveal_strlit("ADD");
        assert("ADD"@ =~= seq!['A', 'D', 'D']);
    }
    if !(b2 - a >= 3 && cs[a] == 'A' && cs[a + 1] == 'D' && cs[a + 2] == 'D') {
        proof {
            if starts_with(st, "ADD"@) {
                assert(st.take(3)[0] == 'A' && st.take(3)[1] == 'D' && st.take(3)[2] == 'D');
                assert(st[0] == cs@[a as int] && st[1] == cs@[a + 1] && st[2] == cs@[a + 2]);
            }
        }
        return None;
    }
    assert(st.take(3) =~= "ADD"@);
    assert(st.skip(3) =~= cs@.subrange(a + 3, b2 as int));
    Some((a + 3, b2))
}

fn split_texts(cs: &Vec<char>, p: usize, b: usize, c: char) -> (r: Vec<String>)
    requires
        p <= b <= cs@.len(),
    ensures
        r@.map_values(|x: String| x@) == split_char(cs@.subrange(p as int, b as int), c),
{
    let parts = split_ranges(cs, p, b, c);
    let ghost sp = split_char(cs@.subrange(p as int, b as int), c);
    let mut out: Vec<String> = Vec::new();
    let mut k: usize = 0;
    while k < parts.len()
        invariant
            k <= parts@.len(),
            parts@.len() == sp.len(),
            sp == split_char(cs@.subrange(p as int, b as int), c),
            forall|q: int| 0 <= q < parts@.len() ==> {
                &&& p <= (#[trigger] parts@[q]).0 <= parts@[q].1 <= b
                &&& cs@.subrange(parts@[q].0 as int, parts@[q].1 as int) == sp[q]
            },
            b <= cs@.len(),
            out@.map_values(|x: String| x@) == sp.take(k as int),
        decreases parts.len() - k,
    {
        let (x, y) = parts[k];
        let t = range_string(cs, x, y);
        let ghost before = out@;
        out.push(t);
        assert(out@.map_values(|x: String| x@) =~= before.map_values(|x: String| x@).push(t@));
        assert(sp.take(k + 1) =~= sp.take(k as int).push(sp[k as int]));
        k = k + 1;
    }
    assert(sp.take(sp.len() as int) =~= sp);
    out
}

/// Reads the fields of an aperture definition line; the parameters stay
/// text.
pub fn aperture_def_fields(line: &str) -> (r: Option<(u32, ApertureShape, Vec<String>)>)
    ensures
        match aperture_def_of(line@) {
            Some(f) => match r {
                Some(v) => v.0 == f.0 && v.1 == f.1 && v.2@.map_values(|x: String| x@) == f.2,
                None => false,
            },
            None => r is None,
        },
{
    let cs = chars_of(line);
    let (i0, b2) = match def_inner_range(&cs) {
        None => {
            return None;
        },
        Some(p) => p,
    };
    let ghost inner = cs@.subrange(i0 as int, b2 as int);
    let mut e = i0;
    while e < b2 && '0' <= cs[e] && cs[e] <= '9'
        invariant
            i0 <= e <= b2 <= cs@.len(),
            inner == cs@.subrange(i0 as int, b2 as int),
            first_non_digit(inner, (e - i0) as int) == first_non_digit(inner, 0),
        decreases b2 - e,
    {
        e = e + 1;
    }
    if e == b2 {
        return None;
    }
    let code = parse_unsigned_range(&cs, i0, e, 0xffff_ffff);
    assert(cs@.subrange(i0 as int, e as int) =~= inner.take((e - i0) as int));
    let c = match code {
        None => {
            return None;
        },
        Some(c) => c,
    };
    let ghost rest = inner.skip((e - i0) as int);
    assert(rest =~= cs@.subrange(e as int, b2 as int));
    let shape = match shape_of_letter(cs[e]) {
        None => {
            return None;
        },
        Some(shape) => shape,
    };
    if !(b2 - e >= 2 && (cs[e + 1] as u32) < 128) {
        return None;
    }
    let p = strip_start_char(&cs, e + 2, b2, ',');
    assert(rest.skip(2) =~= cs@.subrange((e + 2) as int, b2 as int));
    let params = split_texts(&cs, p, b2, 'X');
    Some((c as u32, shape, params))
}


// ---------------------------------------------------------------------------
// Coordinates
// ---------------------------------------------------------------------------

/// A character of a coordinate number: an ASCII digit or a sign.
pub open spec fn is_coord_char(c: char) -> bool {
    ('0' <= c <= '9') || c == '-' || c == '+'
}

/// The end of the run of coordinate characters from `i`.
pub open spec fn coord_run_end(s: Seq<char>, i: int) -> int
    decreases s.len() - i,
{
    if i < 0 || i >= s.len() || !is_coord_char(s[i]) { i } else { coord_run_end(s, i + 1) }
}

/// The number text after the first `c` in a line: the coordinate
/// characters that follow it.
pub open spec fn coord_text_after(line: Seq<char>, c: char) -> Option<Seq<char>> {
    match find(line, c) {
        Some(p) => Some(line.subrange(p + 1, coord_run_end(line, p + 1))),
        None => None,
    }
}

proof fn lemma_coord_run_end(s: Seq<char>, i: int)
    requires
        0 <= i <= s.len(),
    ensures
        i <= coord_run_end(s, i) <= s.len(),
    decreases s.len() - i,
{
    if i < s.len() && is_coord_char(s[i]) {
        lemma_coord_run_end(s, i + 1);
    }
}

fn coord_text(cs: &Vec<char>, c: char) -> (r: Option<String>)
    ensures
        match coord_text_after(cs@, c) {
            Some(t) => r is Some && r->0@ == t,
            None => r is None,
        },
{
    match find_in(cs, c, 0, cs.len()) {
        None => {
            proof {
                lemma_find_from_none(cs@, c, 0);
            }
            None
        },
        Some(p) => {
            proof {
                lemma_find_from(cs@, c, 0, p as int);
                lemma_coord_run_end(cs@, p + 1);
            }
            let mut e = p + 1;
            while e < cs.len() && (('0' <= cs[e] && cs[e] <= '9') || cs[e] == '-' || cs[e] == '+')
                invariant
                    p + 1 <= e <= cs@.len(),
                    coord_run_end(cs@, e as int) == coord_run_end(cs@, p + 1),
                decreases cs.len() - e,
            {
                e = e + 1;
            }
            Some(range_string(cs, p + 1, e))
        },
    }
}

/// The number texts after the first `X` and the first `Y` of a line.
pub fn coordinate_texts(line: &str) -> (r: (Option<String>, Option<String>))
    ensures
        match coord_text_after(line@, 'X') {
            Some(t) => r.0 is Some && r.0->0@ == t,
            None => r.0 is None,
        },
        match coord_text_after(line@, 'Y') {
            Some(t) => r.1 is Some && r.1->0@ == t,
            None => r.1 is None,
        },
{
    let cs = chars_of(line);
    (coord_text(&cs, 'X'), coord_text(&cs, 'Y'))
}

// ---------------------------------------------------------------------------
// Interpolation modes
// ---------------------------------------------------------------------------

/// `pat` occurs somewhere in `s`.
pub open spec fn occurs(s: Seq<char>, pat: Seq<char>) -> bool {
    exists|k: int| 0 <= k && k + pat.len() <= s.len() && #[trigger] s.subrange(k, k + pat.len()) == pat
}

proof fn lemma_trim_start_skip(s: Seq<char>) -> (a: int)
    ensures
        0 <= a <= s.len(),
        crate::strs::trim_start(s) == s.skip(a),
        forall|j: int| 0 <= j < a ==> crate::strs::is_ws(#[trigger] s[j]),
    decreases s.len(),
{
    if s.len() > 0 && crate::strs::is_ws(s[0]) {
        let a = lemma_trim_start_skip(s.drop_first());
        assert(s.drop_first().skip(a) =~= s.skip(a + 1));
        assert forall|j: int| 0 <= j < a + 1 implies crate::strs::is_ws(#[trigger] s[j]) by {
            if j > 0 {
                assert(s[j] == s.drop_first()[j - 1]);
            }
        }
        a + 1
    } else {
        assert(s.skip(0) =~= s);
        0
    }
}

proof fn lemma_trim_end_take(s: Seq<char>) -> (b: int)
    ensures
        0 <= b <= s.len(),
        crate::strs::trim_end(s) == s.take(b),
        forall|j: int| b <= j < s.len() ==> crate::strs::is_ws(#[trigger] s[j]),
    decreases s.len(),
{
    if s.len() > 0 && crate::strs::is_ws(s.last()) {
        let b = lemma_trim_end_take(s.drop_last());
        assert(s.drop_last().take(b) =~= s.take(b));
        assert forall|j: int| b <= j < s.len() implies crate::strs::is_ws(#[trigger] s[j]) by {
            if j < s.len() - 1 {
                assert(s[j] == s.drop_last()[j]);
            }
        }
        b
    } else {
        assert(s.take(s.len() as int) =~= s);
        s.len() as int
    }
}

/// A text that begins and ends with non-whitespace occurs in a line
/// exactly when it occurs in the trimmed line.
pub proof fn lemma_occurs_trim(s: Seq<char>, pat: Seq<char>)
    requires
        pat.len() > 0,
        !crate::strs::is_ws(pat[0]),
        !crate::strs::is_ws(pat.last()),
    ensures
        occurs(trim(s), pat) == occurs(s, pat),
{
    let a = lemma_trim_start_skip(s);
    let t = s.skip(a);
    let b = lemma_trim_end_take(t);
    assert(trim(s) == t.take(b));
    let u = t.take(b);
    let n = pat.len() as int;
    if occurs(u, pat) {
        let k = choose|k: int| 0 <= k && k + n <= u.len() && #[trigger] u.subrange(k, k + n) == pat;
        assert(s.subrange(a + k, a + k + n) =~= u.subrange(k, k + n));
    }
    if occurs(s, pat) {
        let k = choose|k: int| 0 <= k && k + n <= s.len() && #[trigger] s.subrange(k, k + n) == pat;
        assert(s[k] == pat[0]) by {
            assert(s.subrange(k, k + n)[0] == s[k]);
        }
        assert(s[k + n - 1] == pat.last()) by {
            assert(s.subrange(k, k + n)[n - 1] == s[k + n - 1]);
        }
        assert(k >= a);
        assert(t[k - a + n - 1] == s[k + n - 1]);
        assert(k - a + n <= b);
        assert(u.subrange(k - a, k - a + n) =~= s.subrange(k, k + n));
    }
}

/// `has` is occurrence.
proof fn lemma_has_occurs(s: Seq<char>, pat: Seq<char>)
    ensures
        has(s, pat) == occurs(s, pat),
{
}

/// The interpolation a line selects: a line with `G03` selects
/// counter-clockwise arcs; one with `G02` but no `G03` clockwise arcs; one
/// with `G01` and neither arc code straight lines; a line with none of the
/// three keeps the interpolation it had. So the two arc codes select the
/// two different arc directions.
pub proof fn lemma_interpolation_codes(line: Seq<char>, i: Interpolation)
    ensures
        occurs(line, "G03"@) ==> interpolation_after(line, i) == Interpolation::CounterClockwiseArc,
        occurs(line, "G02"@) && !occurs(line, "G03"@) ==> interpolation_after(line, i) == Interpolation::ClockwiseArc,
        occurs(line, "G01"@) && !occurs(line, "G02"@) && !occurs(line, "G03"@) ==> interpolation_after(line, i)
            == Interpolation::Linear,
        !occurs(line, "G01"@) && !occurs(line, "G02"@) && !occurs(line, "G03"@) ==> interpolation_after(line, i) == i,
{
    lemma_has_occurs(line, "G01"@);
    lemma_has_occurs(line, "G02"@);
    lemma_has_occurs(line, "G03"@);
}

/// The reader's interpolation after a raw line of a file: `G03` anywhere in
/// the line selects counter-clockwise arcs, `G02` without `G03` clockwise
/// arcs, `G01` without either straight lines, and a line with none of them
/// keeps the current interpolation.
pub proof fn lemma_reader_interpolation(st: GerberState, raw: Seq<char>)
    ensures
        occurs(raw, "G03"@) ==> gerber_step(st, raw).0.interpolation == Interpolation::CounterClockwiseArc,
        occurs(raw, "G02"@) && !occurs(raw, "G03"@) ==> gerber_step(st, raw).0.interpolation
            == Interpolation::ClockwiseArc,
        occurs(raw, "G01"@) && !occurs(raw, "G02"@) && !occurs(raw, "G03"@) ==> gerber_step(st, raw).0.interpolation
            == Interpolation::Linear,
        !occurs(raw, "G01"@) && !occurs(raw, "G02"@) && !occurs(raw, "G03"@) ==> gerber_step(st, raw).0.interpolation
            == st.interpolation,
{
    reveal_strlit("G01");
    reveal_strlit("G02");
    reveal_strlit("G03");
    lemma_occurs_trim(raw, "G01"@);
    lemma_occurs_trim(raw, "G02"@);
    lemma_occurs_trim(raw, "G03"@);
    let line = trim(raw);
    lemma_interpolation_codes(line, st.interpolation);
    if line.len() == 0 {
        assert(!occurs(line, "G01"@) && !occurs(line, "G02"@) && !occurs(line, "G03"@));
    }
}

/// The unit, polarity and action the reader takes from a raw line of a
/// file: `%MOMM*%` anywhere selects millimetres and `%MOIN*%` without it
/// inches, else the unit stays; `%LPC*%` selects clear and `%LPD*%` without
/// it dark, else the polarity stays; `D01` draws, `D02` without `D01`
/// moves, `D03` without either flashes, and a line with none of them does
/// nothing with the current point.
pub proof fn lemma_reader_modes(st: GerberState, raw: Seq<char>)
    ensures
        occurs(raw, "%MOMM*%"@) ==> gerber_step(st, raw).0.unit == GerberUnit::Millimeter,
        occurs(raw, "%MOIN*%"@) && !occurs(raw, "%MOMM*%"@) ==> gerber_step(st, raw).0.unit == GerberUnit::Inch,
        !occurs(raw, "%MOIN*%"@) && !occurs(raw, "%MOMM*%"@) ==> gerber_step(st, raw).0.unit == st.unit,
        occurs(raw, "%LPC*%"@) ==> gerber_step(st, raw).0.polarity == Polarity::Clear,
        occurs(raw, "%LPD*%"@) && !occurs(raw, "%LPC*%"@) ==> gerber_step(st, raw).0.polarity == Polarity::Dark,
        !occurs(raw, "%LPD*%"@) && !occurs(raw, "%LPC*%"@) ==> gerber_step(st, raw).0.polarity == st.polarity,
        occurs(raw, "D01"@) ==> gerber_step(st, raw).1 == GerberAction::Draw,
        occurs(raw, "D02"@) && !occurs(raw, "D01"@) ==> gerber_step(st, raw).1 == GerberAction::Move,
        occurs(raw, "D03"@) && !occurs(raw, "D01"@) && !occurs(raw, "D02"@) ==> gerber_step(st, raw).1
            == GerberAction::Flash,
        !occurs(raw, "D01"@) && !occurs(raw, "D02"@) && !occurs(raw, "D03"@) ==> gerber_step(st, raw).1
            == GerberAction::Nothing,
{
    reveal_strlit("%MOMM*%");
    reveal_strlit("%MOIN*%");
    reveal_strlit("%LPC*%");
    reveal_strlit("%LPD*%");
    reveal_strlit("D01");
    reveal_strlit("D02");
    reveal_strlit("D03");
    lemma_occurs_trim(raw, "%MOMM*%"@);
    lemma_occurs_trim(raw, "%MOIN*%"@);
    lemma_occurs_trim(raw, "%LPC*%"@);
    lemma_occurs_trim(raw, "%LPD*%"@);
    lemma_occurs_trim(raw, "D01"@);
    lemma_occurs_trim(raw, "D02"@);
    lemma_occurs_trim(raw, "D03"@);
    let line = trim(raw);
    lemma_has_occurs(line, "%MOMM*%"@);
    lemma_has_occurs(line, "%MOIN*%"@);
    lemma_has_occurs(line, "%LPC*%"@);
    lemma_has_occurs(line, "%LPD*%"@);
    lemma_has_occurs(line, "D01"@);
    lemma_has_occurs(line, "D02"@);
    lemma_has_occurs(line, "D03"@);
}

} // verus!

//! Touchstone S-parameter files: the data format, frequency unit and
//! parameter kinds, the meaning of the words of the option line, the
//! reader's sorting of lines, the port count and matrix layout of a data
//! line, and the text the writer produces. Numbers stay text here.
use vstd::prelude::*;
use crate::strs::{to_uppercase, upper_of, text_eq, trim, words, split_words, trim_range, range_string};
use crate::dxf::{trimmed_lines, lines_of};
use crate::iges::views;
use crate::text::chars_of;

verus! {

/// S-parameter data format in the file.
#[derive(Debug, Clone, Copy, PartialEq, Eq, Structural)]
pub enum SParamFormat {
    /// Magnitude (linear) and angle (degrees).
    MagnitudeAngle,
    /// Magnitude (dB) and angle (degrees).
    DecibelAngle,
    /// Real and imaginary parts.
    RealImaginary,
}

/// Frequency unit used in the file.
#[derive(Debug, Clone, Copy, PartialEq, Eq, Structural)]
pub enum FrequencyUnit {
    Hz,
    KHz,
    MHz,
    GHz,
}

/// Parameter type.
#[derive(Debug, Clone, Copy, PartialEq, Eq, Structural)]
pub enum ParamType {
    S,
    Y,
    Z,
    H,
    G,
}

/// The unit an upper-case word names.
pub open spec fn unit_named(u: Seq<char>) -> Option<FrequencyUnit> {
    if u == "HZ"@ {
        Some(FrequencyUnit::Hz)
    } else if u == "KHZ"@ {
        Some(FrequencyUnit::KHz)
    } else if u == "MHZ"@ {
        Some(FrequencyUnit::MHz)
    } else if u == "GHZ"@ {
        Some(FrequencyUnit::GHz)
    } else {
        None
    }
}

/// The unit an upper-case word names: `HZ`, `KHZ`, `MHZ` or `GHZ`.
pub fn unit_from_upper(u: &str) -> (r: Option<FrequencyUnit>)
    ensures
        r == unit_named(u@),
{
    if text_eq(u, "HZ") {
        Some(FrequencyUnit::Hz)
    } else if text_eq(u, "KHZ") {
        Some(FrequencyUnit::KHz)
    } else if text_eq(u, "MHZ") {
        Some(FrequencyUnit::MHz)
    } else if text_eq(u, "GHZ") {
        Some(FrequencyUnit::GHz)
    } else {
        None
    }
}

impl FrequencyUnit {
    /// The unit a word names, in any letter case.
    pub fn parse(s: &str) -> (r: Option<FrequencyUnit>)
        ensures
            r == unit_named(upper_of(s@)),
    {
        let u = to_uppercase(s);
        unit_from_upper(u.as_str())
    }
}

/// The settings an option line (`# GHz S MA R 50`) has given so far.
#[derive(Debug, Clone, Copy, PartialEq, Eq, Structural)]
pub struct OptionSettings {
    pub unit: FrequencyUnit,
    pub format: SParamFormat,
    pub param_type: ParamType,
}

/// The settings after one upper-cased word of an option line: a unit name
/// sets the unit; `S`, `Y`, `Z` set the parameter type; `MA`, `DB`, `RI`
/// set the format; other words change nothing.
pub open spec fn option_word(st: OptionSettings, u: Seq<char>) -> OptionSettings {
    let unit = match unit_named(u) {
        Some(f) => f,
        None => st.unit,
    };
    let param_type = if u == "S"@ {
        ParamType::S
    } else if u == "Y"@ {
        ParamType::Y
    } else if u == "Z"@ {
        ParamType::Z
    } else {
        st.param_type
    };
    let format = if u == "MA"@ {
        SParamFormat::MagnitudeAngle
    } else if u == "DB"@ {
        SParamFormat::DecibelAngle
    } else if u == "RI"@ {
        SParamFormat::RealImaginary
    } else {
        st.format
    };
    OptionSettings { unit, format, param_type }
}

/// The settings before any option line: GHz, magnitude-angle, S.
pub fn default_options() -> (r: OptionSettings)
    ensures
        r == (OptionSettings {
            unit: FrequencyUnit::GHz,
            format: SParamFormat::MagnitudeAngle,
            param_type: ParamType::S,
        }),
{
    OptionSettings { unit: FrequencyUnit::GHz, format: SParamFormat::MagnitudeAngle, param_type: ParamType::S }
}

/// Applies one upper-cased word of an option line to the settings.
pub fn apply_option_word(st: OptionSettings, u: &str) -> (r: OptionSettings)
    ensures
        r == option_word(st, u@),
{
    let unit = match unit_from_upper(u) {
        Some(f) => f,
        None => st.unit,
    };
    let param_type = if text_eq(u, "S") {
        ParamType::S
    } else if text_eq(u, "Y") {
        ParamType::Y
    } else if text_eq(u, "Z") {
        ParamType::Z
    } else {
        st.param_type
    };
    let format = if text_eq(u, "MA") {
        SParamFormat::MagnitudeAngle
    } else if text_eq(u, "DB") {
        SParamFormat::DecibelAngle
    } else if text_eq(u, "RI") {
        SParamFormat::RealImaginary
    } else {
        st.format
    };
    OptionSettings { unit, format, param_type }
}


// ---------------------------------------------------------------------------
// Reading
// ---------------------------------------------------------------------------

/// The settings after the upper-cased words `ws` of option lines, in order.
pub open spec fn options_fold(st: OptionSettings, ws: Seq<Seq<char>>) -> OptionSettings
    decreases ws.len(),
{
    if ws.len() == 0 {
        st
    } else {
        option_word(options_fold(st, ws.drop_last()), upper_of(ws.last()))
    }
}

/// The words of an option line that follow an `R` (in any letter case):
/// the reference impedance candidates, in order.
pub open spec fn impedance_words(ws: Seq<Seq<char>>) -> Seq<Seq<char>>
    decreases ws.len(),
{
    if ws.len() < 2 {
        Seq::empty()
    } else {
        let prev = impedance_words(ws.drop_last());
        if upper_of(ws[ws.len() - 2]) == "R"@ { prev.push(ws.last()) } else { prev }
    }
}

/// What a Touchstone text reads as, numbers still text: the comments, the
/// option settings, the impedance candidates and the words of each data
/// line.
#[verifier::ext_equal]
pub struct TouchstoneView {
    pub comments: Seq<Seq<char>>,
    pub options: OptionSettings,
    pub impedances: Seq<Seq<char>>,
    pub data: Seq<Seq<Seq<char>>>,
}

/// The defaults: GHz, magnitude-angle, S.
pub open spec fn default_settings() -> OptionSettings {
    OptionSettings { unit: FrequencyUnit::GHz, format: SParamFormat::MagnitudeAngle, param_type: ParamType::S }
}

/// The reading before any line.
pub open spec fn empty_reading() -> TouchstoneView {
    TouchstoneView {
        comments: Seq::empty(),
        options: default_settings(),
        impedances: Seq::empty(),
        data: Seq::empty(),
    }
}

/// One trimmed line read: `!` opens a comment (the rest, trimmed); `#` an
/// option line (its words applied in order); an empty line is passed by;
/// any other line is a data line, split into words.
pub open spec fn ts_step(v: TouchstoneView, l: Seq<char>) -> TouchstoneView {
    if l.len() > 0 && l[0] == '!' {
        TouchstoneView { comments: v.comments.push(trim(l.drop_first())), ..v }
    } else if l.len() > 0 && l[0] == '#' {
        let ws = words(l.drop_first());
        TouchstoneView {
            options: options_fold(v.options, ws),
            impedances: v.impedances + impedance_words(ws),
            ..v
        }
    } else if l.len() == 0 {
        v
    } else {
        TouchstoneView { data: v.data.push(words(l)), ..v }
    }
}

/// The reading of the trimmed lines `ls`.
pub open spec fn ts_fold(ls: Seq<Seq<char>>) -> TouchstoneView
    decreases ls.len(),
{
    if ls.len() == 0 {
        empty_reading()
    } else {
        ts_step(ts_fold(ls.drop_last()), ls.last())
    }
}

/// What a Touchstone text reads as.
pub open spec fn touchstone_read(text: Seq<char>) -> TouchstoneView {
    ts_fold(trimmed_lines(text))
}

/// A Touchstone text read: comments, option settings, the words that follow
/// an `R` on option lines, and the words of each data line.
pub struct TouchstoneText {
    pub comments: Vec<String>,
    pub options: OptionSettings,
    pub impedances: Vec<String>,
    pub data: Vec<Vec<String>>,
}

pub open spec fn word_lists(v: Seq<Vec<String>>) -> Seq<Seq<Seq<char>>> {
    v.map_values(|l: Vec<String>| views(l@))
}

impl TouchstoneText {
    pub open spec fn view(&self) -> TouchstoneView {
        TouchstoneView {
            comments: views(self.comments@),
            options: self.options,
            impedances: views(self.impedances@),
            data: word_lists(self.data@),
        }
    }
}

/// Applies the words of an option line to the settings and collects the
/// words that follow an `R`.
fn read_option_words(st: OptionSettings, ws: &Vec<String>, imp: &mut Vec<String>) -> (r: OptionSettings)
    ensures
        r == options_fold(st, views(ws@)),
        views(final(imp)@) == views(old(imp)@) + impedance_words(views(ws@)),
{
    let ghost wv = views(ws@);
    let ghost i0 = views(imp@);
    let mut cur = st;
    let mut prev_r = false;
    let mut k: usize = 0;
    assert(wv.take(0) =~= Seq::<Seq<char>>::empty());
    while k < ws.len()
        invariant
            k <= ws@.len(),
            wv == views(ws@),
            cur == options_fold(st, wv.take(k as int)),
            views(imp@) == i0 + impedance_words(wv.take(k as int)),
            k > 0 ==> prev_r == (upper_of(wv[k - 1]) == "R"@),
        decreases ws.len() - k,
    {
        let u = to_uppercase(ws[k].as_str());
        let ghost t = wv.take(k + 1);
        assert(t.drop_last() =~= wv.take(k as int));
        assert(t.last() == ws@[k as int]@);
        if k > 0 && prev_r {
            let ghost before = imp@;
            imp.push(ws[k].clone());
            assert(views(imp@) =~= views(before).push(ws@[k as int]@));
            assert(t[t.len() - 2] == wv[k - 1]);
        } else {
            if k > 0 {
                assert(t[t.len() - 2] == wv[k - 1]);
            }
        }
        cur = apply_option_word(cur, u.as_str());
        prev_r = text_eq(u.as_str(), "R");
        k = k + 1;
    }
    assert(wv.take(ws@.len() as int) =~= wv);
    cur
}

/// Reads a Touchstone text: comment lines (`!`), option lines (`#`) and
/// data lines, with the numbers of each data line left as words.
pub fn read_touchstone_text(text: &str) -> (r: TouchstoneText)
    ensures
        r.view() == touchstone_read(text@),
{
    let ls = lines_of(text);
    let ghost lv = views(ls@);
    let mut r = TouchstoneText {
        comments: Vec::new(),
        options: default_options(),
        impedances: Vec::new(),
        data: Vec::new(),
    };
    assert(lv.take(0) =~= Seq::<Seq<char>>::empty());
    assert(r.view() =~= empty_reading());
    let mut i: usize = 0;
    while i < ls.len()
        invariant
            i <= ls@.len(),
            lv == views(ls@),
            lv == trimmed_lines(text@),
            r.view() == ts_fold(lv.take(i as int)),
        decreases ls.len() - i,
    {
        let ghost before = r.view();
        let ghost l = lv[i as int];
        assert(lv.take(i + 1).drop_last() =~= lv.take(i as int));
        assert(lv.take(i + 1).last() == l);
        let cs = chars_of(ls[i].as_str());
        if cs.len() > 0 && cs[0] == '!' {
            let (a, b) = trim_range(&cs, 1, cs.len());
            assert(cs@.subrange(1, cs@.len() as int) =~= l.drop_first());
            let c = range_string(&cs, a, b);
            r.comments.push(c);
            assert(views(r.comments@) =~= before.comments.push(trim(l.drop_first())));
        } else if cs.len() > 0 && cs[0] == '#' {
            let rest = range_string(&cs, 1, cs.len());
            assert(rest@ =~= l.drop_first());
            let ws = split_words(rest.as_str());
            assert(views(ws@) =~= words(l.drop_first()));
            let o = read_option_words(r.options, &ws, &mut r.impedances);
            r.options = o;
        } else if cs.len() == 0 {
        } else {
            let ws = split_words(ls[i].as_str());
            let ghost bd = r.data@;
            r.data.push(ws);
            assert(word_lists(r.data@) =~= word_lists(bd).push(words(l)));
        }
        assert(r.view() =~= ts_step(before, l));
        i = i + 1;
    }
    assert(lv.take(ls@.len() as int) =~= lv);
    r
}

/// The port count a data line gives by the number of its values after the
/// frequency: two or fewer make one port, eight or fewer two, eighteen or
/// fewer three, more four.
pub open spec fn port_count(d: nat) -> nat {
    if d <= 2 {
        1
    } else if d <= 8 {
        2
    } else if d <= 18 {
        3
    } else {
        4
    }
}

/// The port count for a data line with `d` values after the frequency.
pub fn n_ports(d: usize) -> (r: usize)
    ensures
        r == port_count(d as nat),
{
    if d <= 2 {
        1
    } else if d <= 8 {
        2
    } else if d <= 18 {
        3
    } else {
        4
    }
}

/// The port count of a file whose data lines hold `counts` numbers each
/// (the frequency included): the first line with numbers decides; with
/// none the file has one port.
pub open spec fn ports_of(counts: Seq<usize>) -> nat
    decreases counts.len(),
{
    if counts.len() == 0 {
        1
    } else if counts[0] > 0 {
        port_count((counts[0] - 1) as nat)
    } else {
        ports_of(counts.drop_first())
    }
}

/// The port count of a file whose data lines hold `counts` numbers each.
pub fn touchstone_ports(counts: &Vec<usize>) -> (r: usize)
    ensures
        r == ports_of(counts@),
{
    let mut i: usize = 0;
    assert(counts@.skip(0) =~= counts@);
    while i < counts.len()
        invariant
            i <= counts@.len(),
            ports_of(counts@.skip(i as int)) == ports_of(counts@),
        decreases counts.len() - i,
    {
        assert(counts@.skip(i as int)[0] == counts@[i as int]);
        if counts[i] > 0 {
            return n_ports(counts[i] - 1);
        }
        assert(counts@.skip(i as int).drop_first() =~= counts@.skip(i + 1));
        i = i + 1;
    }
    assert(counts@.skip(i as int).len() == 0);
    1
}

/// The place of matrix cell (`row`, `col`) in the order the values are
/// written: two-port data runs S11, S21, S12, S22 (column by column); other
/// port counts run row by row.
pub open spec fn cell_rank(ports: int, row: int, col: int) -> int {
    if ports == 2 { col * 2 + row } else { row * ports + col }
}

/// Where the pair of values of matrix cell (`row`, `col`) starts among the
/// `n` values after the frequency: cells take value pairs in the order of
/// `cell_rank`, two values each, while two are left; the others stay zero.
pub open spec fn cell_source(ports: int, n: int, row: int, col: int) -> Option<int> {
    let k = cell_rank(ports, row, col);
    if 2 * k + 1 < n { Some(2 * k) } else { None }
}

pub open spec fn opt_int(o: Option<usize>) -> Option<int> {
    match o {
        Some(i) => Some(i as int),
        None => None,
    }
}

proof fn lemma_next_row(row: int, ports: int)
    requires
        0 <= row,
        0 <= ports,
    ensures
        row * ports + ports == (row + 1) * ports,
        0 <= row * ports,
{
    assert(row * ports + ports == (row + 1) * ports) by (nonlinear_arith);
    assert(0 <= row * ports) by (nonlinear_arith)
        requires
            0 <= row,
            0 <= ports,
    ;
}

proof fn lemma_cells_bound(row: int, ports: int)
    requires
        0 <= row < ports,
    ensures
        row * ports + ports <= ports * ports,
{
    assert(row * ports + ports <= ports * ports) by (nonlinear_arith)
        requires
            0 <= row < ports,
    ;
}

/// The start of each matrix cell's value pair (see `cell_source`), for
/// `ports` ports and `n` values after the frequency.
pub fn cell_sources(ports: usize, n: usize) -> (m: Vec<Vec<Option<usize>>>)
    requires
        ports <= 0x4000,
    ensures
        m@.len() == ports,
        forall|r: int| 0 <= r < ports ==> (#[trigger] m@[r])@.len() == ports,
        forall|r: int, c: int| 0 <= r < ports && 0 <= c < ports ==>
            opt_int(#[trigger] m@[r]@[c]) == cell_source(ports as int, n as int, r, c),
{
    let mut m: Vec<Vec<Option<usize>>> = Vec::new();
    let mut k: usize = 0;
    let mut row: usize = 0;
    while row < ports
        invariant
            row <= ports <= 0x4000,
            m@.len() == row,
            k == row * ports,
            forall|r: int| 0 <= r < row ==> (#[trigger] m@[r])@.len() == ports,
            forall|r: int, c: int| 0 <= r < row && 0 <= c < ports ==>
                opt_int(#[trigger] m@[r]@[c]) == cell_source(ports as int, n as int, r, c),
        decreases ports - row,
    {
        proof {
            lemma_next_row(row as int, ports as int);
            lemma_cells_bound(row as int, ports as int);
            assert(ports * ports <= 0x4000 * 0x4000) by (nonlinear_arith)
                requires
                    ports <= 0x4000,
            ;
        }
        let mut cells: Vec<Option<usize>> = Vec::new();
        let mut col: usize = 0;
        while col < ports
            invariant
                row < ports <= 0x4000,
                k == row * ports,
                row * ports + ports <= ports * ports <= 0x4000 * 0x4000,
                col <= ports,
                cells@.len() == col,
                forall|c: int| 0 <= c < col ==>
                    opt_int(#[trigger] cells@[c]) == cell_source(ports as int, n as int, row as int, c),
            decreases ports - col,
        {
            let at = if ports == 2 { col * 2 + row } else { k + col };
            if at < n / 2 {
                cells.push(Some(2 * at));
            } else {
                cells.push(None);
            }
            assert(opt_int(cells@[col as int]) == cell_source(ports as int, n as int, row as int, col as int));
            col = col + 1;
        }
        m.push(cells);
        k = k + ports;
        row = row + 1;
    }
    m
}

/// The matrix cells of `ports` ports in the order their values are written
/// and read: the k-th cell has `cell_rank` k.
pub fn cell_order(ports: usize) -> (r: Vec<(usize, usize)>)
    requires
        ports <= 0x4000,
    ensures
        r@.len() == ports * ports,
        forall|k: int| 0 <= k < r@.len() ==> (#[trigger] r@[k]).0 < ports && r@[k].1 < ports
            && cell_rank(ports as int, r@[k].0 as int, r@[k].1 as int) == k,
{
    let mut r: Vec<(usize, usize)> = Vec::new();
    if ports == 2 {
        r.push((0, 0));
        r.push((1, 0));
        r.push((0, 1));
        r.push((1, 1));
        return r;
    }
    let mut row: usize = 0;
    while row < ports
        invariant
            ports != 2,
            row <= ports <= 0x4000,
            r@.len() == row * ports,
            forall|k: int| 0 <= k < r@.len() ==> (#[trigger] r@[k]).0 < ports && r@[k].1 < ports
                && cell_rank(ports as int, r@[k].0 as int, r@[k].1 as int) == k,
        decreases ports - row,
    {
        proof {
            lemma_next_row(row as int, ports as int);
        }
        let mut col: usize = 0;
        while col < ports
            invariant
                ports != 2,
                row < ports <= 0x4000,
                col <= ports,
                r@.len() == row * ports + col,
                forall|k: int| 0 <= k < r@.len() ==> (#[trigger] r@[k]).0 < ports && r@[k].1 < ports
                    && cell_rank(ports as int, r@[k].0 as int, r@[k].1 as int) == k,
            decreases ports - col,
        {
            r.push((row, col));
            col = col + 1;
        }
        row = row + 1;
    }
    r
}

// ---------------------------------------------------------------------------
// Writing
// ---------------------------------------------------------------------------

/// The word the writer gives a unit.
pub open spec fn unit_word(u: FrequencyUnit) -> Seq<char> {
    match u {
        FrequencyUnit::Hz => "HZ"@,
        FrequencyUnit::KHz => "KHZ"@,
        FrequencyUnit::MHz => "MHZ"@,
        FrequencyUnit::GHz => "GHZ"@,
    }
}

/// The word the writer gives a parameter type.
pub open spec fn param_word(p: ParamType) -> Seq<char> {
    match p {
        ParamType::S => "S"@,
        ParamType::Y => "Y"@,
        ParamType::Z => "Z"@,
        ParamType::H => "H"@,
        ParamType::G => "G"@,
    }
}

/// The word the writer gives a format.
pub open spec fn format_word(f: SParamFormat) -> Seq<char> {
    match f {
        SParamFormat::MagnitudeAngle => "MA"@,
        SParamFormat::DecibelAngle => "DB"@,
        SParamFormat::RealImaginary => "RI"@,
    }
}

fn unit_text(u: FrequencyUnit) -> (r: &'static str)
    ensures
        r@ == unit_word(u),
{
    match u {
        FrequencyUnit::Hz => "HZ",
        FrequencyUnit::KHz => "KHZ",
        FrequencyUnit::MHz => "MHZ",
        FrequencyUnit::GHz => "GHZ",
    }
}

fn param_text(p: ParamType) -> (r: &'static str)
    ensures
        r@ == param_word(p),
{
    match p {
        ParamType::S => "S",
        ParamType::Y => "Y",
        ParamType::Z => "Z",
        ParamType::H => "H",
        ParamType::G => "G",
    }
}

fn format_text(f: SParamFormat) -> (r: &'static str)
    ensures
        r@ == format_word(f),
{
    match f {
        SParamFormat::MagnitudeAngle => "MA",
        SParamFormat::DecibelAngle => "DB",
        SParamFormat::RealImaginary => "RI",
    }
}

/// The comment lines: `! ` and the comment.
pub open spec fn comment_lines(cs: Seq<Seq<char>>) -> Seq<char>
    decreases cs.len(),
{
    if cs.len() == 0 {
        Seq::empty()
    } else {
        comment_lines(cs.drop_last()) + "! "@ + cs.last() + "\n"@
    }
}

/// The option line.
pub open spec fn option_line(o: OptionSettings, z0: Seq<char>) -> Seq<char> {
    "# "@ + unit_word(o.unit) + " "@ + param_word(o.param_type) + " "@ + format_word(o.format) + " R "@ + z0
        + "\n"@
}

/// The value pairs of a data line, each preceded by two spaces.
pub open spec fn cells_text(cells: Seq<(Seq<char>, Seq<char>)>) -> Seq<char>
    decreases cells.len(),
{
    if cells.len() == 0 {
        Seq::empty()
    } else {
        cells_text(cells.drop_last()) + "  "@ + cells.last().0 + "  "@ + cells.last().1
    }
}

/// The data lines: the frequency, then the value pairs in the order given.
pub open spec fn data_lines(pts: Seq<(Seq<char>, Seq<(Seq<char>, Seq<char>)>)>) -> Seq<char>
    decreases pts.len(),
{
    if pts.len() == 0 {
        Seq::empty()
    } else {
        data_lines(pts.drop_last()) + pts.last().0 + cells_text(pts.last().1) + "\n"@
    }
}

/// The text the writer produces.
pub open spec fn touchstone_text(
    comments: Seq<Seq<char>>,
    o: OptionSettings,
    z0: Seq<char>,
    pts: Seq<(Seq<char>, Seq<(Seq<char>, Seq<char>)>)>,
) -> Seq<char> {
    comment_lines(comments) + "! Generated by OpenIE\n"@ + option_line(o, z0) + data_lines(pts)
}

pub open spec fn pair_views(v: Seq<(String, String)>) -> Seq<(Seq<char>, Seq<char>)> {
    v.map_values(|p: (String, String)| (p.0@, p.1@))
}

pub open spec fn point_views(v: Seq<(String, Vec<(String, String)>)>) -> Seq<(Seq<char>, Seq<(Seq<char>, Seq<char>)>)> {
    v.map_values(|p: (String, Vec<(String, String)>)| (p.0@, pair_views(p.1@)))
}

fn push_cells(out: &mut String, cells: &Vec<(String, String)>)
    ensures
        final(out)@ == old(out)@ + cells_text(pair_views(cells@)),
{
    let ghost o = out@;
    let ghost pv = pair_views(cells@);
    let mut k: usize = 0;
    while k < cells.len()
        invariant
            k <= cells@.len(),
            pv == pair_views(cells@),
            out@ == o + cells_text(pv.take(k as int)),
        decreases cells.len() - k,
    {
        assert(pv.take(k + 1).drop_last() =~= pv.take(k as int));
        assert(pv.take(k + 1).last() == (cells@[k as int].0@, cells@[k as int].1@));
        out.append("  ");
        out.append(cells[k].0.as_str());
        out.append("  ");
        out.append(cells[k].1.as_str());
        assert(out@ =~= o + cells_text(pv.take(k + 1)));
        k = k + 1;
    }
    assert(pv.take(cells@.len() as int) =~= pv);
}

/// Writes a Touchstone text: each comment as `! comment`, a closing comment
/// line, the option line `# unit param format R z0`, and one line per point:
/// its frequency text and its value pairs in the order given (see
/// `cell_order` for the order of a matrix's cells).
pub fn write_touchstone_text(
    comments: &Vec<String>,
    o: OptionSettings,
    z0: &str,
    points: &Vec<(String, Vec<(String, String)>)>,
) -> (r: String)
    ensures
        r@ == touchstone_text(views(comments@), o, z0@, point_views(points@)),
{
    let mut out = String::new();
    let ghost cv = views(comments@);
    let mut k: usize = 0;
    while k < comments.len()
        invariant
            k <= comments@.len(),
            cv == views(comments@),
            out@ == comment_lines(cv.take(k as int)),
        decreases comments.len() - k,
    {
        assert(cv.take(k + 1).drop_last() =~= cv.take(k as int));
        out.append("! ");
        out.append(comments[k].as_str());
        out.append("\n");
        assert(out@ =~= comment_lines(cv.take(k + 1)));
        k = k + 1;
    }
    assert(cv.take(comments@.len() as int) =~= cv);
    let ghost head = out@;
    out.append("! Generated by OpenIE\n");
    out.append("# ");
    out.append(unit_text(o.unit));
    out.append(" ");
    out.append(param_text(o.param_type));
    out.append(" ");
    out.append(format_text(o.format));
    out.append(" R ");
    out.append(z0);
    out.append("\n");
    assert(out@ =~= head + "! Generated by OpenIE\n"@ + option_line(o, z0@));
    let ghost mid = out@;
    let ghost pv = point_views(points@);
    let mut i: usize = 0;
    while i < points.len()
        invariant
            i <= points@.len(),
            pv == point_views(points@),
            out@ == mid + data_lines(pv.take(i as int)),
        decreases points.len() - i,
    {
        assert(pv.take(i + 1).drop_last() =~= pv.take(i as int));
        assert(pv.take(i + 1).last() == (points@[i as int].0@, pair_views(points@[i as int].1@)));
        let ghost before = out@;
        out.append(points[i].0.as_str());
        push_cells(&mut out, &points[i].1);
        out.append("\n");
        assert(out@ =~= mid + data_lines(pv.take(i + 1)));
        i = i + 1;
    }
    assert(pv.take(points@.len() as int) =~= pv);
    out
}

} // verus!

//! IDF 3.0 board files: the unit, hole, side and placement kinds, the
//! words of the file that select them, and the reader's walk through the
//! sections of a board file. Numbers stay text here.
use vstd::prelude::*;
use crate::strs::{text_eq, words, split_words};
use crate::dxf::{trimmed_lines, lines_of};
use crate::iges::views;

verus! {

/// Unit of an IDF file.
#[derive(Debug, Clone, Copy, PartialEq, Eq, Structural)]
pub enum IdfUnit {
    MM,
    THOU,
}

/// Plating of a drilled hole.
#[derive(Debug, Clone, Copy, PartialEq, Eq, Structural)]
pub enum HolePlating {
    PTH,
    NPTH,
}

/// Purpose of a drilled hole.
#[derive(Debug, Clone, Copy, PartialEq, Eq, Structural)]
pub enum HoleType {
    Pin,
    Via,
    Mounting,
    Tooling,
    Other,
}

/// Side of the board a component sits on.
#[derive(Debug, Clone, Copy, PartialEq, Eq, Structural)]
pub enum BoardSide {
    Top,
    Bottom,
}

/// Placement status of a component.
#[derive(Debug, Clone, Copy, PartialEq, Eq, Structural)]
pub enum PlacementStatus {
    Placed,
    Unplaced,
    Ecad,
    Mcad,
}

/// The unit a header word names: `THOU`, or millimetres for anything else.
pub fn unit_of_word(w: &str) -> (r: IdfUnit)
    ensures
        r == (if w@ == "THOU"@ { IdfUnit::THOU } else { IdfUnit::MM }),
{
    if text_eq(w, "THOU") { IdfUnit::THOU } else { IdfUnit::MM }
}

/// The plating a hole word names: `PTH`, or non-plated for anything else.
pub fn plating_of_word(w: &str) -> (r: HolePlating)
    ensures
        r == (if w@ == "PTH"@ { HolePlating::PTH } else { HolePlating::NPTH }),
{
    if text_eq(w, "PTH") { HolePlating::PTH } else { HolePlating::NPTH }
}

/// The hole type a word names: `PIN`, `VIA`, `MTG`, `TOOL`, else other.
pub open spec fn hole_type_named(w: Seq<char>) -> HoleType {
    if w == "PIN"@ {
        HoleType::Pin
    } else if w == "VIA"@ {
        HoleType::Via
    } else if w == "MTG"@ {
        HoleType::Mounting
    } else if w == "TOOL"@ {
        HoleType::Tooling
    } else {
        HoleType::Other
    }
}

/// The hole type a word names.
pub fn hole_type_of_word(w: &str) -> (r: HoleType)
    ensures
        r == hole_type_named(w@),
{
    if text_eq(w, "PIN") {
        HoleType::Pin
    } else if text_eq(w, "VIA") {
        HoleType::Via
    } else if text_eq(w, "MTG") {
        HoleType::Mounting
    } else if text_eq(w, "TOOL") {
        HoleType::Tooling
    } else {
        HoleType::Other
    }
}

/// The side a placement word names: `BOTTOM`, or top for anything else.
pub fn side_of_word(w: &str) -> (r: BoardSide)
    ensures
        r == (if w@ == "BOTTOM"@ { BoardSide::Bottom } else { BoardSide::Top }),
{
    if text_eq(w, "BOTTOM") { BoardSide::Bottom } else { BoardSide::Top }
}


/// The unit a header word names.
pub open spec fn unit_named(w: Seq<char>) -> IdfUnit {
    if w == "THOU"@ { IdfUnit::THOU } else { IdfUnit::MM }
}

/// The header of a board file as text: file type, version, source
/// system, board name, and unit.
pub struct HeaderText {
    pub file_type: String,
    pub version: Option<String>,
    pub source_system: String,
    pub board_name: String,
    pub unit: IdfUnit,
}

/// A section of a board file after the header, with the unit in effect
/// where it stands, and its lines as words.
pub enum IdfSection {
    /// The outline: the thickness word of its owner line (when that line
    /// has two words), and its point lines.
    BoardOutline { unit: IdfUnit, thickness: Option<String>, point_lines: Vec<Vec<String>> },
    /// The drilled holes, one line each.
    DrilledHoles { unit: IdfUnit, lines: Vec<Vec<String>> },
    /// The component placements, two lines per component.
    Placement { unit: IdfUnit, lines: Vec<Vec<String>> },
}

/// What a board file reads as: the header and the sections in order.
pub struct IdfText {
    pub header: HeaderText,
    pub sections: Vec<IdfSection>,
}

/// The header as the reader holds it.
pub struct HeaderView {
    pub file_type: Seq<char>,
    pub version: Option<Seq<char>>,
    pub source_system: Seq<char>,
    pub board_name: Seq<char>,
    pub unit: IdfUnit,
}

/// A section as the reader holds it.
pub enum SectionView {
    BoardOutline(IdfUnit, Option<Seq<char>>, Seq<Seq<Seq<char>>>),
    DrilledHoles(IdfUnit, Seq<Seq<Seq<char>>>),
    Placement(IdfUnit, Seq<Seq<Seq<char>>>),
}

/// The header before any `.HEADER` section: a board file, version
/// unknown, millimetres.
pub open spec fn default_header() -> HeaderView {
    HeaderView {
        file_type: "BOARD_FILE"@,
        version: None,
        source_system: Seq::empty(),
        board_name: Seq::empty(),
        unit: IdfUnit::MM,
    }
}

/// The header after a `.HEADER` at line `i`: line `i + 1` with two words
/// gives file type and version, line `i + 2` the source system, and line
/// `i + 3` the board name (its first word) and unit (its second); a line
/// past the end changes nothing.
pub open spec fn header_step(ls: Seq<Seq<char>>, i: int, h: HeaderView) -> HeaderView {
    let h1 = if i + 1 < ls.len() && words(ls[i + 1]).len() >= 2 {
        HeaderView { file_type: words(ls[i + 1])[0], version: Some(words(ls[i + 1])[1]), ..h }
    } else {
        h
    };
    let h2 = if i + 2 < ls.len() {
        HeaderView { source_system: ls[i + 2], ..h1 }
    } else {
        h1
    };
    let b = words(ls[i + 3]);
    if i + 3 < ls.len() && b.len() >= 2 {
        HeaderView { board_name: b[0], unit: unit_named(b[1]), ..h2 }
    } else if i + 3 < ls.len() && b.len() == 1 {
        HeaderView { board_name: b[0], ..h2 }
    } else {
        h2
    }
}

/// The first line from `from` on that is `marker`, or `from` itself when
/// that is past the last line, or the number of lines when none is.
pub open spec fn section_end(ls: Seq<Seq<char>>, from: int, marker: Seq<char>) -> int
    decreases ls.len() - from,
{
    if from >= ls.len() || from < 0 {
        from
    } else if ls[from] == marker {
        from
    } else {
        section_end(ls, from + 1, marker)
    }
}

pub proof fn lemma_section_end_bounds(ls: Seq<Seq<char>>, from: int, marker: Seq<char>)
    requires
        0 <= from,
    ensures
        from <= section_end(ls, from, marker),
        from <= ls.len() ==> section_end(ls, from, marker) <= ls.len(),
        section_end(ls, from, marker) < ls.len() ==> ls[section_end(ls, from, marker)] == marker,
    decreases ls.len() - from,
{
    if from < ls.len() && ls[from] != marker {
        lemma_section_end_bounds(ls, from + 1, marker);
    }
}

/// The words of lines `a` up to `b`.
pub open spec fn lines_words(ls: Seq<Seq<char>>, a: int, b: int) -> Seq<Seq<Seq<char>>> {
    if 0 <= a < b <= ls.len() {
        ls.subrange(a, b).map_values(|l: Seq<char>| words(l))
    } else {
        Seq::empty()
    }
}

/// The thickness word of an outline's owner line `k`: its second word.
pub open spec fn thickness_word(ls: Seq<Seq<char>>, k: int) -> Option<Seq<char>> {
    if 0 <= k < ls.len() && words(ls[k]).len() >= 2 {
        Some(words(ls[k])[1])
    } else {
        None
    }
}

/// The reader's walk from line `i` with header `h` and the sections so
/// far: a `.HEADER` takes itself and three lines; an outline takes its
/// owner line and its point lines up to its end marker; holes and
/// placements take their lines up to theirs; any other line is passed by.
pub open spec fn idf_walk(ls: Seq<Seq<char>>, i: int, h: HeaderView, acc: Seq<SectionView>) -> (HeaderView, Seq<SectionView>)
    decreases (if i < 0 || i >= ls.len() { 0 } else { ls.len() - i }),
{
    if i < 0 || i >= ls.len() {
        (h, acc)
    } else if ls[i] == ".HEADER"@ {
        idf_walk(ls, i + 4, header_step(ls, i, h), acc)
    } else if ls[i] == ".BOARD_OUTLINE"@ {
        let j = section_end(ls, i + 2, ".END_BOARD_OUTLINE"@);
        proof {
            lemma_section_end_bounds(ls, i + 2, ".END_BOARD_OUTLINE"@);
        }
        idf_walk(
            ls,
            j + 1,
            h,
            acc.push(SectionView::BoardOutline(h.unit, thickness_word(ls, i + 1), lines_words(ls, i + 2, j))),
        )
    } else if ls[i] == ".DRILLED_HOLES"@ {
        let j = section_end(ls, i + 1, ".END_DRILLED_HOLES"@);
        proof {
            lemma_section_end_bounds(ls, i + 1, ".END_DRILLED_HOLES"@);
        }
        idf_walk(ls, j + 1, h, acc.push(SectionView::DrilledHoles(h.unit, lines_words(ls, i + 1, j))))
    } else if ls[i] == ".PLACEMENT"@ {
        let j = section_end(ls, i + 1, ".END_PLACEMENT"@);
        proof {
            lemma_section_end_bounds(ls, i + 1, ".END_PLACEMENT"@);
        }
        idf_walk(ls, j + 1, h, acc.push(SectionView::Placement(h.unit, lines_words(ls, i + 1, j))))
    } else {
        idf_walk(ls, i + 1, h, acc)
    }
}

/// What a board file text reads as.
pub open spec fn idf_read(text: Seq<char>) -> (HeaderView, Seq<SectionView>) {
    idf_walk(trimmed_lines(text), 0, default_header(), Seq::empty())
}

pub open spec fn opt_view(o: Option<String>) -> Option<Seq<char>> {
    match o {
        Some(s) => Some(s@),
        None => None,
    }
}

pub open spec fn header_view(h: HeaderText) -> HeaderView {
    HeaderView {
        file_type: h.file_type@,
        version: opt_view(h.version),
        source_system: h.source_system@,
        board_name: h.board_name@,
        unit: h.unit,
    }
}

pub open spec fn word_lines(v: Seq<Vec<String>>) -> Seq<Seq<Seq<char>>> {
    v.map_values(|l: Vec<String>| views(l@))
}

pub open spec fn section_view(s: IdfSection) -> SectionView {
    match s {
        IdfSection::BoardOutline { unit, thickness, point_lines } => SectionView::BoardOutline(
            unit,
            opt_view(thickness),
            word_lines(point_lines@),
        ),
        IdfSection::DrilledHoles { unit, lines } => SectionView::DrilledHoles(unit, word_lines(lines@)),
        IdfSection::Placement { unit, lines } => SectionView::Placement(unit, word_lines(lines@)),
    }
}

pub open spec fn sections_view(v: Seq<IdfSection>) -> Seq<SectionView> {
    v.map_values(|s: IdfSection| section_view(s))
}

fn find_marker(ls: &Vec<String>, from: usize, marker: &str) -> (j: usize)
    requires
        from <= ls@.len(),
    ensures
        j == section_end(views(ls@), from as int, marker@),
        from <= j <= ls@.len(),
{
    let mut j = from;
    while j < ls.len() && !text_eq(ls[j].as_str(), marker)
        invariant
            from <= j <= ls@.len(),
            section_end(views(ls@), j as int, marker@) == section_end(views(ls@), from as int, marker@),
        decreases ls.len() - j,
    {
        j = j + 1;
    }
    j
}

fn words_of_lines(ls: &Vec<String>, a: usize, b: usize) -> (r: Vec<Vec<String>>)
    requires
        a <= b <= ls@.len(),
    ensures
        word_lines(r@) == lines_words(views(ls@), a as int, b as int),
{
    let ghost lv = views(ls@);
    let mut r: Vec<Vec<String>> = Vec::new();
    let mut k = a;
    while k < b
        invariant
            a <= k <= b <= ls@.len(),
            lv == views(ls@),
            word_lines(r@) == lv.subrange(a as int, k as int).map_values(|l: Seq<char>| words(l)),
        decreases b - k,
    {
        let w = split_words(ls[k].as_str());
        let ghost before = r@;
        r.push(w);
        assert(word_lines(r@) =~= word_lines(before).push(views(w@)));
        assert(lv.subrange(a as int, k + 1).map_values(|l: Seq<char>| words(l)) =~= lv.subrange(a as int, k as int).map_values(
            |l: Seq<char>| words(l),
        ).push(words(lv[k as int])));
        k = k + 1;
    }
    proof {
        if a == b {
            assert(word_lines(r@) =~= lines_words(lv, a as int, b as int));
        }
    }
    r
}

fn line_words_after(ls: &Vec<String>, i: usize, d: usize) -> (r: Option<Vec<String>>)
    requires
        i <= ls@.len(),
    ensures
        match r {
            Some(w) => i + d < ls@.len() && views(w@) == words(ls@[i + d]@),
            None => i + d >= ls@.len(),
        },
{
    if d < ls.len() - i {
        Some(split_words(ls[i + d].as_str()))
    } else {
        None
    }
}

fn clone_string(s: &String) -> (r: String)
    ensures
        r@ == s@,
{
    String::from_str(s.as_str())
}

fn apply_header(ls: &Vec<String>, i: usize, h: &mut HeaderText)
    requires
        i < ls@.len(),
    ensures
        header_view(*final(h)) == header_step(views(ls@), i as int, header_view(*old(h))),
{
    let ghost lv = views(ls@);
    match line_words_after(ls, i, 1) {
        Some(f) => {
            if f.len() >= 2 {
                h.file_type = clone_string(&f[0]);
                h.version = Some(clone_string(&f[1]));
            }
        },
        None => {},
    }
    if 2 < ls.len() - i {
        h.source_system = clone_string(&ls[i + 2]);
    }
    match line_words_after(ls, i, 3) {
        Some(b) => {
            if b.len() >= 1 {
                h.board_name = clone_string(&b[0]);
            }
            if b.len() >= 2 {
                h.unit = unit_of_word(b[1].as_str());
            }
        },
        None => {},
    }
    assert(header_view(*h) == header_step(lv, i as int, header_view(*old(h))));
}

/// Walks the lines of an IDF board file: the header fields, and the board
/// outline, drilled-hole and placement sections in order with the unit in
/// effect where each stands; their lines split into words.
pub fn read_idf_text(text: &str) -> (r: IdfText)
    ensures
        (header_view(r.header), sections_view(r.sections@)) == idf_read(text@),
{
    let ls = lines_of(text);
    let ghost lv = views(ls@);
    assert(lv == trimmed_lines(text@));
    let mut h = HeaderText {
        file_type: String::from_str("BOARD_FILE"),
        version: None,
        source_system: String::new(),
        board_name: String::new(),
        unit: IdfUnit::MM,
    };
    let mut secs: Vec<IdfSection> = Vec::new();
    let mut i: usize = 0;
    assert(header_view(h) =~= default_header());
    assert(sections_view(secs@) =~= Seq::<SectionView>::empty());
    while i < ls.len()
        invariant
            lv == views(ls@),
            idf_walk(lv, i as int, header_view(h), sections_view(secs@)) == idf_walk(
                lv,
                0,
                default_header(),
                Seq::empty(),
            ),
        decreases ls.len() - i,
    {
        let ghost before = sections_view(secs@);
        let ghost hv = header_view(h);
        let ghost i0 = i as int;
        if text_eq(ls[i].as_str(), ".HEADER") {
            apply_header(&ls, i, &mut h);
            i = if ls.len() - i >= 4 { i + 4 } else { ls.len() };
            assert(idf_walk(lv, i0, hv, before) == idf_walk(lv, i0 + 4, header_step(lv, i0, hv), before));
            assert(idf_walk(lv, i as int, header_view(h), before) == idf_walk(lv, i0 + 4, header_step(lv, i0, hv), before));
        } else if text_eq(ls[i].as_str(), ".BOARD_OUTLINE") {
            let thickness = match line_words_after(&ls, i, 1) {
                Some(w) => if w.len() >= 2 { Some(clone_string(&w[1])) } else { None },
                None => None,
            };
            let from = if ls.len() - i >= 2 { i + 2 } else { ls.len() };
            let j = find_marker(&ls, from, ".END_BOARD_OUTLINE");
            let pts = words_of_lines(&ls, from, j);
            let sec = IdfSection::BoardOutline { unit: h.unit, thickness, point_lines: pts };
            secs.push(sec);
            assert(sections_view(secs@) =~= before.push(section_view(sec)));
            i = if j < ls.len() { j + 1 } else { ls.len() };
            proof {
                lemma_section_end_bounds(lv, i0 + 2, ".END_BOARD_OUTLINE"@);
                let js = section_end(lv, i0 + 2, ".END_BOARD_OUTLINE"@);
                assert(section_view(sec) == SectionView::BoardOutline(hv.unit, thickness_word(lv, i0 + 1), lines_words(lv, i0 + 2, js)));
                assert(idf_walk(lv, i0, hv, before) == idf_walk(lv, js + 1, hv, before.push(section_view(sec))));
            }
        } else if text_eq(ls[i].as_str(), ".DRILLED_HOLES") {
            let j = find_marker(&ls, i + 1, ".END_DRILLED_HOLES");
            let lines = words_of_lines(&ls, i + 1, j);
            let sec = IdfSection::DrilledHoles { unit: h.unit, lines };
            secs.push(sec);
            assert(sections_view(secs@) =~= before.push(section_view(sec)));
            i = if j < ls.len() { j + 1 } else { ls.len() };
            proof {
                lemma_section_end_bounds(lv, i0 + 1, ".END_DRILLED_HOLES"@);
                let js = section_end(lv, i0 + 1, ".END_DRILLED_HOLES"@);
                assert(section_view(sec) == SectionView::DrilledHoles(hv.unit, lines_words(lv, i0 + 1, js)));
                assert(idf_walk(lv, i0, hv, before) == idf_walk(lv, js + 1, hv, before.push(section_view(sec))));
            }
        } else if text_eq(ls[i].as_str(), ".PLACEMENT") {
            let j = find_marker(&ls, i + 1, ".END_PLACEMENT");
            let lines = words_of_lines(&ls, i + 1, j);
            let sec = IdfSection::Placement { unit: h.unit, lines };
            secs.push(sec);
            assert(sections_view(secs@) =~= before.push(section_view(sec)));
            i = if j < ls.len() { j + 1 } else { ls.len() };
            proof {
                lemma_section_end_bounds(lv, i0 + 1, ".END_PLACEMENT"@);
                let js = section_end(lv, i0 + 1, ".END_PLACEMENT"@);
                assert(section_view(sec) == SectionView::Placement(hv.unit, lines_words(lv, i0 + 1, js)));
                assert(idf_walk(lv, i0, hv, before) == idf_walk(lv, js + 1, hv, before.push(section_view(sec))));
            }
        } else {
            assert(lv[i0] != ".HEADER"@ && lv[i0] != ".BOARD_OUTLINE"@ && lv[i0] != ".DRILLED_HOLES"@ && lv[i0]
                != ".PLACEMENT"@);
            i = i + 1;
            assert(idf_walk(lv, i0, hv, before) == idf_walk(lv, i as int, hv, before));
        }
    }
    IdfText { header: h, sections: secs }
}


/// The text of an outline point line: x, y, and the arc angle when given.
/// A line with fewer than three words is no point.
pub open spec fn point_fields_of(w: Seq<Seq<char>>) -> Option<(Seq<char>, Seq<char>, Option<Seq<char>>)> {
    if w.len() >= 3 {
        Some((w[1], w[2], if w.len() >= 4 { Some(w[3]) } else { None }))
    } else {
        None
    }
}

/// The fields of an outline point line.
pub fn point_fields(w: &Vec<String>) -> (r: Option<(String, String, Option<String>)>)
    ensures
        match r {
            Some(p) => point_fields_of(views(w@)) == Some((p.0@, p.1@, opt_view(p.2))),
            None => point_fields_of(views(w@)) is None,
        },
{
    if w.len() >= 3 {
        let angle = if w.len() >= 4 { Some(clone_string(&w[3])) } else { None };
        Some((clone_string(&w[1]), clone_string(&w[2]), angle))
    } else {
        None
    }
}

/// A drilled-hole line as text and kinds.
pub struct DrillHoleText {
    pub diameter: String,
    pub x: String,
    pub y: String,
    pub plating: HolePlating,
    pub associated_part: String,
    pub hole_type: HoleType,
}

/// The fields of a hole line with at least five words: diameter, x, y,
/// plating word, part, and the hole type from the sixth word (none names
/// no type).
pub open spec fn hole_fields_of(w: Seq<Seq<char>>) -> Option<(Seq<char>, Seq<char>, Seq<char>, HolePlating, Seq<char>, HoleType)> {
    if w.len() >= 5 {
        Some((
            w[0],
            w[1],
            w[2],
            if w[3] == "PTH"@ { HolePlating::PTH } else { HolePlating::NPTH },
            w[4],
            if w.len() >= 6 { hole_type_named(w[5]) } else { HoleType::Other },
        ))
    } else {
        None
    }
}

/// The fields of a drilled-hole line.
pub fn drill_hole_fields(w: &Vec<String>) -> (r: Option<DrillHoleText>)
    ensures
        match r {
            Some(h) => hole_fields_of(views(w@)) == Some(
                (h.diameter@, h.x@, h.y@, h.plating, h.associated_part@, h.hole_type),
            ),
            None => hole_fields_of(views(w@)) is None,
        },
{
    if w.len() >= 5 {
        let hole_type = if w.len() >= 6 { hole_type_of_word(w[5].as_str()) } else { HoleType::Other };
        Some(DrillHoleText {
            diameter: clone_string(&w[0]),
            x: clone_string(&w[1]),
            y: clone_string(&w[2]),
            plating: plating_of_word(w[3].as_str()),
            associated_part: clone_string(&w[4]),
            hole_type,
        })
    } else {
        None
    }
}

/// A component placement as text and kinds.
pub struct PlacementText {
    pub package_name: String,
    pub part_number: String,
    pub reference_designator: String,
    pub x: String,
    pub y: String,
    pub rotation: String,
    pub side: BoardSide,
    pub status: PlacementStatus,
}

/// The fields of a placement's two lines, the first with at least two
/// words and the second with at least four: package and part number; then
/// reference, x, y, rotation, and the side from the fifth word (top when
/// there is none).
pub open spec fn placement_fields_of(l1: Seq<Seq<char>>, l2: Seq<Seq<char>>) -> Option<
    (Seq<char>, Seq<char>, Seq<char>, Seq<char>, Seq<char>, Seq<char>, BoardSide),
> {
    if l1.len() >= 2 && l2.len() >= 4 {
        Some((
            l1[0],
            l1[1],
            l2[0],
            l2[1],
            l2[2],
            l2[3],
            if l2.len() >= 5 && l2[4] == "BOTTOM"@ { BoardSide::Bottom } else { BoardSide::Top },
        ))
    } else {
        None
    }
}

/// The fields of a placement's two lines; a placement read is placed.
pub fn placement_fields(l1: &Vec<String>, l2: &Vec<String>) -> (r: Option<PlacementText>)
    ensures
        match r {
            Some(p) => placement_fields_of(views(l1@), views(l2@)) == Some(
                (
                    p.package_name@,
                    p.part_number@,
                    p.reference_designator@,
                    p.x@,
                    p.y@,
                    p.rotation@,
                    p.side,
                ),
            ) && p.status == PlacementStatus::Placed,
            None => placement_fields_of(views(l1@), views(l2@)) is None,
        },
{
    if l1.len() >= 2 && l2.len() >= 4 {
        let side = if l2.len() >= 5 { side_of_word(l2[4].as_str()) } else { BoardSide::Top };
        Some(PlacementText {
            package_name: clone_string(&l1[0]),
            part_number: clone_string(&l1[1]),
            reference_designator: clone_string(&l2[0]),
            x: clone_string(&l2[1]),
            y: clone_string(&l2[2]),
            rotation: clone_string(&l2[3]),
            side,
            status: PlacementStatus::Placed,
        })
    } else {
        None
    }
}

/// The first lines of the placements of a placement section, from line
/// `j`: a line starts a placement when a next line follows, the two have
/// placement fields, and the next line's coordinates read as numbers
/// (`coords_ok`); the placement then takes both lines.
pub open spec fn placement_starts(ls: Seq<Seq<Seq<char>>>, coords_ok: Seq<bool>, j: int) -> Seq<int>
    decreases ls.len() - j,
{
    if j < 0 || j >= ls.len() {
        Seq::empty()
    } else if j + 1 < ls.len() && placement_fields_of(ls[j], ls[j + 1]) is Some && coords_ok[j + 1] {
        seq![j] + placement_starts(ls, coords_ok, j + 2)
    } else {
        placement_starts(ls, coords_ok, j + 1)
    }
}

/// Pairs the lines of a placement section: the positions of the first
/// line of each placement. `coords_ok[k]` says whether the second and
/// third words of line `k` read as numbers.
pub fn pair_placement_lines(lines: &Vec<Vec<String>>, coords_ok: &Vec<bool>) -> (r: Vec<usize>)
    requires
        coords_ok@.len() == lines@.len(),
    ensures
        r@.map_values(|k: usize| k as int) == placement_starts(word_lines(lines@), coords_ok@, 0),
{
    let ghost wl = word_lines(lines@);
    let mut r: Vec<usize> = Vec::new();
    let mut j: usize = 0;
    while j < lines.len()
        invariant
            j <= lines@.len() + 1,
            coords_ok@.len() == lines@.len(),
            wl == word_lines(lines@),
            r@.map_values(|k: usize| k as int) + placement_starts(wl, coords_ok@, j as int) == placement_starts(
                wl,
                coords_ok@,
                0,
            ),
        decreases lines.len() + 1 - j,
    {
        let ghost before = r@.map_values(|k: usize| k as int);
        let paired = if j + 1 < lines.len() {
            match placement_fields(&lines[j], &lines[j + 1]) {
                Some(_) => coords_ok[j + 1],
                None => false,
            }
        } else {
            false
        };
        if paired {
            r.push(j);
            assert(r@.map_values(|k: usize| k as int) =~= before.push(j as int));
            assert(before.push(j as int) + placement_starts(wl, coords_ok@, j + 2) =~= before + (seq![j as int]
                + placement_starts(wl, coords_ok@, j + 2)));
            j = j + 2;
        } else {
            j = j + 1;
        }
    }
    assert(placement_starts(wl, coords_ok@, j as int) =~= Seq::<int>::empty());
    assert(r@.map_values(|k: usize| k as int) =~= r@.map_values(|k: usize| k as int) + Seq::<int>::empty());
    r
}

/// Each hole type is named by exactly one word: `PIN` and only `PIN`
/// names a pin, `VIA` and only `VIA` a via, `MTG` and only `MTG` a
/// mounting hole, `TOOL` and only `TOOL` a tooling hole; every other word
/// names none of them. So different hole words give different types.
pub proof fn lemma_hole_words(w: Seq<char>)
    ensures
        (hole_type_named(w) == HoleType::Pin) == (w == "PIN"@),
        (hole_type_named(w) == HoleType::Via) == (w == "VIA"@),
        (hole_type_named(w) == HoleType::Mounting) == (w == "MTG"@),
        (hole_type_named(w) == HoleType::Tooling) == (w == "TOOL"@),
{
    reveal_strlit("PIN");
    reveal_strlit("VIA");
    reveal_strlit("MTG");
    reveal_strlit("TOOL");
    assert("PIN"@ != "VIA"@) by { assert("PIN"@[0] != "VIA"@[0]); }
    assert("PIN"@ != "MTG"@) by { assert("PIN"@[0] != "MTG"@[0]); }
    assert("VIA"@ != "MTG"@) by { assert("VIA"@[0] != "MTG"@[0]); }
    assert("TOOL"@.len() == 4 && "PIN"@.len() == 3 && "VIA"@.len() == 3 && "MTG"@.len() == 3);
}

/// A drilled-hole line of six words or more has the type its sixth word
/// names (see `lemma_hole_words`); a line of five words has no type.
pub proof fn lemma_hole_line_type(w: Seq<Seq<char>>)
    requires
        w.len() >= 5,
    ensures
        hole_fields_of(w) is Some,
        w.len() >= 6 ==> ((hole_fields_of(w)->0).5 == HoleType::Via) == (w[5] == "VIA"@),
        w.len() >= 6 ==> ((hole_fields_of(w)->0).5 == HoleType::Pin) == (w[5] == "PIN"@),
        w.len() >= 6 ==> ((hole_fields_of(w)->0).5 == HoleType::Mounting) == (w[5] == "MTG"@),
        w.len() >= 6 ==> ((hole_fields_of(w)->0).5 == HoleType::Tooling) == (w[5] == "TOOL"@),
        w.len() == 5 ==> (hole_fields_of(w)->0).5 == HoleType::Other,
{
    if w.len() >= 6 {
        lemma_hole_words(w[5]);
    }
}

} // verus!

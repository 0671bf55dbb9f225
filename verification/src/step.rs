//! STEP (ISO 10303-21) support: entity-id allocation, the labels written
//! for GD&T and dimension entities, and the textual structure of the
//! reader (entity map, references, argument tokens, names).
use vstd::prelude::*;
use crate::text::{chars_of, push_char};
use crate::strs::{
    trim, find, find_from, parse_unsigned, trim_range, range_string, find_in, parse_unsigned_range,
    lemma_find_from, lemma_find_from_none, trim_start_char, trim_end_char, split_char,
    strip_start_char, strip_end_char, split_ranges, upper_of,
};

verus! {

// ---------------------------------------------------------------------------
// Entity ID allocator
// ---------------------------------------------------------------------------

/// Hands out consecutive entity numbers.
pub struct IdAlloc(pub u64);

impl IdAlloc {
    /// An allocator whose first number is `start`.
    pub fn new(start: u64) -> (r: Self)
        ensures
            r.0 == start,
    {
        IdAlloc(start)
    }

    /// The next number; the one after it becomes current.
    pub fn next(&mut self) -> (r: u64)
        requires
            old(self).0 < u64::MAX,
        ensures
            r == old(self).0,
            final(self).0 == old(self).0 + 1,
    {
        let id = self.0;
        self.0 = self.0 + 1;
        id
    }
}

// ---------------------------------------------------------------------------
// GD&T / PMI labels
// ---------------------------------------------------------------------------

/// GD&T characteristic type per ASME Y14.5.
#[derive(Clone, Copy, Debug, PartialEq, Eq, Structural)]
pub enum GdtCharacteristic {
    Flatness,
    Straightness,
    Circularity,
    Cylindricity,
    Position,
    Concentricity,
    Symmetry,
    Parallelism,
    Perpendicularity,
    Angularity,
    ProfileOfLine,
    ProfileOfSurface,
    CircularRunout,
    TotalRunout,
}

/// The STEP entity name of a characteristic.
pub open spec fn gdt_entity_name(c: GdtCharacteristic) -> Seq<char> {
    match c {
        GdtCharacteristic::Flatness => "FLATNESS_TOLERANCE"@,
        GdtCharacteristic::Straightness => "STRAIGHTNESS_TOLERANCE"@,
        GdtCharacteristic::Circularity => "ROUNDNESS_TOLERANCE"@,
        GdtCharacteristic::Cylindricity => "CYLINDRICITY_TOLERANCE"@,
        GdtCharacteristic::Position => "POSITION_TOLERANCE"@,
        GdtCharacteristic::Concentricity => "CONCENTRICITY_TOLERANCE"@,
        GdtCharacteristic::Symmetry => "SYMMETRY_TOLERANCE"@,
        GdtCharacteristic::Parallelism => "PARALLELISM_TOLERANCE"@,
        GdtCharacteristic::Perpendicularity => "PERPENDICULARITY_TOLERANCE"@,
        GdtCharacteristic::Angularity => "ANGULARITY_TOLERANCE"@,
        GdtCharacteristic::ProfileOfLine => "LINE_PROFILE_TOLERANCE"@,
        GdtCharacteristic::ProfileOfSurface => "SURFACE_PROFILE_TOLERANCE"@,
        GdtCharacteristic::CircularRunout => "CIRCULAR_RUNOUT_TOLERANCE"@,
        GdtCharacteristic::TotalRunout => "TOTAL_RUNOUT_TOLERANCE"@,
    }
}

impl GdtCharacteristic {
    /// Returns the STEP entity name for this GD&T characteristic.
    pub fn step_entity_name(self) -> (r: &'static str)
        ensures
            r@ == gdt_entity_name(self),
    {
        match self {
            GdtCharacteristic::Flatness => "FLATNESS_TOLERANCE",
            GdtCharacteristic::Straightness => "STRAIGHTNESS_TOLERANCE",
            GdtCharacteristic::Circularity => "ROUNDNESS_TOLERANCE",
            GdtCharacteristic::Cylindricity => "CYLINDRICITY_TOLERANCE",
            GdtCharacteristic::Position => "POSITION_TOLERANCE",
            GdtCharacteristic::Concentricity => "CONCENTRICITY_TOLERANCE",
            GdtCharacteristic::Symmetry => "SYMMETRY_TOLERANCE",
            GdtCharacteristic::Parallelism => "PARALLELISM_TOLERANCE",
            GdtCharacteristic::Perpendicularity => "PERPENDICULARITY_TOLERANCE",
            GdtCharacteristic::Angularity => "ANGULARITY_TOLERANCE",
            GdtCharacteristic::ProfileOfLine => "LINE_PROFILE_TOLERANCE",
            GdtCharacteristic::ProfileOfSurface => "SURFACE_PROFILE_TOLERANCE",
            GdtCharacteristic::CircularRunout => "CIRCULAR_RUNOUT_TOLERANCE",
            GdtCharacteristic::TotalRunout => "TOTAL_RUNOUT_TOLERANCE",
        }
    }
}

/// Material condition modifier for GD&T.
#[derive(Clone, Copy, Debug, PartialEq, Eq, Structural)]
pub enum MaterialCondition {
    /// Maximum Material Condition (circle-M)
    Mmc,
    /// Least Material Condition (circle-L)
    Lmc,
    /// Regardless of Feature Size (default)
    Rfs,
}

/// The STEP enumeration literal of a material condition.
pub open spec fn material_condition_label(m: MaterialCondition) -> Seq<char> {
    match m {
        MaterialCondition::Mmc => ".MAXIMUM_MATERIAL_CONDITION."@,
        MaterialCondition::Lmc => ".LEAST_MATERIAL_CONDITION."@,
        MaterialCondition::Rfs => ".REGARDLESS_OF_FEATURE_SIZE."@,
    }
}

impl MaterialCondition {
    /// The STEP enumeration literal of this condition.
    pub fn step_label(self) -> (r: &'static str)
        ensures
            r@ == material_condition_label(self),
    {
        match self {
            MaterialCondition::Mmc => ".MAXIMUM_MATERIAL_CONDITION.",
            MaterialCondition::Lmc => ".LEAST_MATERIAL_CONDITION.",
            MaterialCondition::Rfs => ".REGARDLESS_OF_FEATURE_SIZE.",
        }
    }
}

/// The type of dimensional measurement.
#[derive(Clone, Copy, Debug, PartialEq, Eq, Structural)]
pub enum DimensionType {
    Linear,
    Radial,
    Diameter,
    Angular,
}

/// The label of a dimension type.
pub open spec fn dimension_type_label(d: DimensionType) -> Seq<char> {
    match d {
        DimensionType::Linear => "linear"@,
        DimensionType::Radial => "radial"@,
        DimensionType::Diameter => "diameter"@,
        DimensionType::Angular => "angular"@,
    }
}

impl DimensionType {
    /// The label of this dimension type.
    pub fn step_label(&self) -> (r: &'static str)
        ensures
            r@ == dimension_type_label(*self),
    {
        match self {
            DimensionType::Linear => "linear",
            DimensionType::Radial => "radial",
            DimensionType::Diameter => "diameter",
            DimensionType::Angular => "angular",
        }
    }
}

// ---------------------------------------------------------------------------
// Reader: parsing helpers
// ---------------------------------------------------------------------------

/// The entity number of a line like `#42=ENTITY(...)`: the trimmed text must
/// start with `#`, and the digits up to the first `=` are the number.
pub open spec fn entity_id_of(s: Seq<char>) -> Option<nat> {
    let t = trim(s);
    if t.len() == 0 || t[0] != '#' {
        None
    } else {
        match find(t, '=') {
            None => None,
            Some(e) => parse_unsigned(t.subrange(1, e), u64::MAX as nat),
        }
    }
}

/// Parses the entity ID from a string like `#42=ENTITY_NAME(...);`.
pub fn parse_entity_id_from_str(s: &str) -> (r: Option<u64>)
    ensures
        match entity_id_of(s@) {
            Some(v) => r == Some(v as u64),
            None => r is None,
        },
{
    let cs = chars_of(s);
    let (a, b) = trim_range(&cs, 0, cs.len());
    assert(cs@.subrange(0, cs@.len() as int) =~= s@);
    let ghost t = cs@.subrange(a as int, b as int);
    if a == b || cs[a] != '#' {
        return None;
    }
    match find_in(&cs, '=', a, b) {
        None => {
            proof {
                lemma_find_from_none(t, '=', 0);
            }
            None
        },
        Some(e) => {
            proof {
                assert forall|k: int| 0 <= k < e - a implies t[k] != '=' by {
                    assert(t[k] == cs@[a + k]);
                }
                lemma_find_from(t, '=', 0, e - a);
                assert(t.subrange(1, e - a) =~= cs@.subrange(a + 1, e as int));
            }
            parse_unsigned_range(&cs, a + 1, e, u64::MAX)
        },
    }
}

/// The text between the first two single quotes.
pub open spec fn first_quoted(s: Seq<char>) -> Option<Seq<char>> {
    match find(s, '\'') {
        None => None,
        Some(a) => match find_from(s, '\'', a + 1) {
            None => None,
            Some(b) => Some(s.subrange(a + 1, b)),
        },
    }
}

/// Extracts the first single-quoted string from an entity body.
pub fn extract_first_quoted_string(body: &str) -> (r: Option<String>)
    ensures
        match first_quoted(body@) {
            Some(q) => r is Some && r.unwrap()@ == q,
            None => r is None,
        },
{
    let cs = chars_of(body);
    match find_in(&cs, '\'', 0, cs.len()) {
        None => {
            proof { lemma_find_from_none(cs@, '\'', 0); }
            None
        },
        Some(a) => {
            proof { lemma_find_from(cs@, '\'', 0, a as int); }
            match find_in(&cs, '\'', a + 1, cs.len()) {
                None => {
                    proof { lemma_find_from_none(cs@, '\'', a + 1); }
                    None
                },
                Some(b) => {
                    proof { lemma_find_from(cs@, '\'', a + 1, b as int); }
                    Some(range_string(&cs, a + 1, b))
                },
            }
        },
    }
}

/// Characters that may belong to a reference token: ASCII digits and `#`.
pub open spec fn is_ref_char(c: char) -> bool {
    ('0' <= c <= '9') || c == '#'
}

/// `s` split at every character that is not a digit or `#` (`str::split`
/// semantics: `n` separators give `n + 1` pieces).
pub open spec fn ref_pieces(s: Seq<char>) -> Seq<Seq<char>>
    decreases s.len(),
{
    if s.len() == 0 {
        seq![Seq::empty()]
    } else {
        let p = ref_pieces(s.drop_last());
        if !is_ref_char(s.last()) {
            p.push(Seq::empty())
        } else {
            p.update(p.len() - 1, p.last().push(s.last()))
        }
    }
}

/// The reference a piece denotes: `#` followed by a number.
pub open spec fn piece_ref(p: Seq<char>) -> Option<nat> {
    let t = trim(p);
    if t.len() > 0 && t[0] == '#' { parse_unsigned(t.drop_first(), u64::MAX as nat) } else { None }
}

/// The references of the pieces, in order.
pub open spec fn pieces_refs(ps: Seq<Seq<char>>) -> Seq<u64>
    decreases ps.len(),
{
    if ps.len() == 0 {
        Seq::empty()
    } else {
        match piece_ref(ps.last()) {
            Some(v) => pieces_refs(ps.drop_last()).push(v as u64),
            None => pieces_refs(ps.drop_last()),
        }
    }
}

/// All `#N` references of an entity body, in order.
pub open spec fn body_refs(s: Seq<char>) -> Seq<u64> {
    pieces_refs(ref_pieces(s))
}

proof fn lemma_ref_pieces_len(s: Seq<char>)
    ensures
        ref_pieces(s).len() >= 1,
    decreases s.len(),
{
    if s.len() > 0 {
        lemma_ref_pieces_len(s.drop_last());
    }
}

/// The last piece of `s.take(i)` starts after the last separator.
proof fn lemma_ref_pieces_last(s: Seq<char>, start: int, i: int)
    requires
        0 <= start <= i <= s.len(),
        start == 0 || !is_ref_char(s[start - 1]),
        forall|k: int| start <= k < i ==> is_ref_char(s[k]),
    ensures
        ref_pieces(s.take(i)).len() >= 1,
        ref_pieces(s.take(i)).last() == s.subrange(start, i),
        ref_pieces(s.take(i)).drop_last() == ref_pieces(s.take(start)).drop_last(),
    decreases i - start,
{
    lemma_ref_pieces_len(s.take(i));
    if i == start {
        if start > 0 {
            assert(s.take(start).drop_last() =~= s.take(start - 1));
            lemma_ref_pieces_len(s.take(start - 1));
        }
        assert(s.subrange(start, i) =~= Seq::<char>::empty());
    } else {
        lemma_ref_pieces_last(s, start, i - 1);
        assert(s.take(i).drop_last() =~= s.take(i - 1));
        assert(s.take(i).last() == s[i - 1]);
        assert(s.subrange(start, i) =~= s.subrange(start, i - 1).push(s[i - 1]));
        let p = ref_pieces(s.take(i - 1));
        assert(ref_pieces(s.take(i)) == p.update(p.len() - 1, p.last().push(s[i - 1])));
        assert(ref_pieces(s.take(i)).drop_last() =~= p.drop_last());
    }
}

fn piece_ref_exec(cs: &Vec<char>, a: usize, b: usize) -> (r: Option<u64>)
    requires
        a <= b <= cs@.len(),
    ensures
        match piece_ref(cs@.subrange(a as int, b as int)) {
            Some(v) => r == Some(v as u64),
            None => r is None,
        },
{
    let (x, y) = trim_range(cs, a, b);
    if x < y && cs[x] == '#' {
        assert(cs@.subrange(x as int, y as int).drop_first() =~= cs@.subrange(x + 1, y as int));
        parse_unsigned_range(cs, x + 1, y, u64::MAX)
    } else {
        None
    }
}

/// Parses `#N` references from entity body text; `None` when there are none.
pub fn parse_entity_refs_from_body(body: &str) -> (r: Option<Vec<u64>>)
    ensures
        match r {
            Some(v) => v@ == body_refs(body@) && v@.len() > 0,
            None => body_refs(body@).len() == 0,
        },
{
    let cs = chars_of(body);
    let ghost s = cs@;
    let mut refs: Vec<u64> = Vec::new();
    let mut start: usize = 0;
    let mut i: usize = 0;
    while i < cs.len()
        invariant
            s == cs@,
            start <= i <= s.len(),
            start == 0 || !is_ref_char(s[start - 1]),
            forall|k: int| start <= k < i ==> is_ref_char(s[k]),
            refs@ == pieces_refs(ref_pieces(s.take(start as int)).drop_last()),
        decreases cs.len() - i,
    {
        let c = cs[i];
        if !(('0' <= c && c <= '9') || c == '#') {
            let pr = piece_ref_exec(&cs, start, i);
            proof {
                lemma_ref_pieces_last(s, start as int, i as int);
                assert(s.take(i + 1).drop_last() =~= s.take(i as int));
                let p = ref_pieces(s.take(i as int));
                assert(ref_pieces(s.take(i + 1)) == p.push(Seq::<char>::empty()));
                assert(ref_pieces(s.take(i + 1)).drop_last() =~= p);
                assert(p =~= p.drop_last().push(s.subrange(start as int, i as int)));
            }
            match pr {
                Some(v) => { refs.push(v); },
                None => {},
            }
            start = i + 1;
        }
        i = i + 1;
    }
    let pr = piece_ref_exec(&cs, start, cs.len());
    proof {
        lemma_ref_pieces_last(s, start as int, s.len() as int);
        assert(s.take(s.len() as int) =~= s);
        let p = ref_pieces(s);
        assert(p =~= p.drop_last().push(s.subrange(start as int, s.len() as int)));
    }
    match pr {
        Some(v) => { refs.push(v); },
        None => {},
    }
    assert(refs@ == body_refs(body@));
    if refs.len() == 0 {
        None
    } else {
        Some(refs)
    }
}

/// Parses entity references from a body string (after the `=`).
pub fn parse_entity_refs(line: &str) -> (r: Option<Vec<u64>>)
    ensures
        match r {
            Some(v) => v@ == body_refs(line@) && v@.len() > 0,
            None => body_refs(line@).len() == 0,
        },
{
    parse_entity_refs_from_body(line)
}

/// Tokenizer state after a prefix: (paren depth, current token, tokens).
pub open spec fn args_state(s: Seq<char>) -> (nat, Seq<char>, Seq<Seq<char>>)
    decreases s.len(),
{
    if s.len() == 0 {
        (0, Seq::empty(), Seq::empty())
    } else {
        let st = args_state(s.drop_last());
        let c = s.last();
        if c == '(' {
            (st.0 + 1, st.1.push(c), st.2)
        } else if c == ')' {
            if st.0 > 0 { ((st.0 - 1) as nat, st.1.push(c), st.2) } else { st }
        } else if c == ',' && st.0 == 0 {
            (st.0, Seq::empty(), st.2.push(st.1))
        } else {
            (st.0, st.1.push(c), st.2)
        }
    }
}

/// Top-level arguments: split at commas outside parentheses; a `)` at depth
/// zero (the entity's own closing paren) is dropped; a trailing empty token
/// is not emitted.
pub open spec fn step_args(s: Seq<char>) -> Seq<Seq<char>> {
    let st = args_state(s);
    if st.1.len() > 0 { st.2.push(st.1) } else { st.2 }
}

/// Tokenizes STEP arguments at the top level, respecting nested parentheses.
pub fn tokenize_step_args(s: &str) -> (r: Vec<String>)
    ensures
        crate::iges::views(r@) == step_args(s@),
{
    let cs = chars_of(s);
    let mut tokens: Vec<String> = Vec::new();
    let mut depth: u64 = 0;
    let mut current = String::new();
    let mut i: usize = 0;
    while i < cs.len()
        invariant
            i <= cs@.len(),
            cs@ == s@,
            depth <= i,
            args_state(cs@.take(i as int)) == (depth as nat, current@, crate::iges::views(tokens@)),
        decreases cs.len() - i,
    {
        let ch = cs[i];
        assert(cs@.take(i + 1).drop_last() =~= cs@.take(i as int));
        if ch == '(' {
            depth = depth + 1;
            push_char(&mut current, ch);
        } else if ch == ')' {
            if depth > 0 {
                depth = depth - 1;
                push_char(&mut current, ch);
            }
        } else if ch == ',' && depth == 0 {
            let ghost before = tokens@;
            let ghost cur = current@;
            tokens.push(current);
            current = String::new();
            assert(crate::iges::views(tokens@) =~= crate::iges::views(before).push(cur));
        } else {
            push_char(&mut current, ch);
        }
        i = i + 1;
    }
    assert(cs@.take(cs@.len() as int) =~= cs@);
    if !current.as_str().is_empty() {
        let ghost before = tokens@;
        let ghost cur = current@;
        tokens.push(current);
        assert(crate::iges::views(tokens@) =~= crate::iges::views(before).push(cur));
    }
    tokens
}

/// The text between the outer parentheses of a list, as `parse_int_list`
/// reads it: trimmed, then all leading `(` and trailing `)` removed.
pub open spec fn list_inner(s: Seq<char>) -> Seq<char> {
    trim_end_char(trim_start_char(trim(s), '('), ')')
}

/// The values of the pieces that parse as `usize`, in order.
pub open spec fn int_values(ps: Seq<Seq<char>>) -> Seq<usize>
    decreases ps.len(),
{
    if ps.len() == 0 {
        Seq::empty()
    } else {
        match parse_unsigned(trim(ps.last()), usize::MAX as nat) {
            Some(v) => int_values(ps.drop_last()).push(v as usize),
            None => int_values(ps.drop_last()),
        }
    }
}

/// Parses a parenthesized integer list like `(3,1,3)`; pieces that are not
/// numbers are skipped.
pub fn parse_int_list(s: &str) -> (r: Vec<usize>)
    ensures
        r@ == int_values(split_char(list_inner(s@), ',')),
{
    let cs = chars_of(s);
    assert(cs@.subrange(0, cs@.len() as int) =~= s@);
    let (a0, b0) = trim_range(&cs, 0, cs.len());
    let a = strip_start_char(&cs, a0, b0, '(');
    let b = strip_end_char(&cs, a, b0, ')');
    let ghost inner = cs@.subrange(a as int, b as int);
    assert(inner == list_inner(s@));
    let pieces = split_ranges(&cs, a, b, ',');
    let ghost ps = split_char(inner, ',');
    let mut out: Vec<usize> = Vec::new();
    let mut k: usize = 0;
    while k < pieces.len()
        invariant
            k <= pieces@.len(),
            pieces@.len() == ps.len(),
            ps == split_char(cs@.subrange(a as int, b as int), ','),
            forall|j: int| 0 <= j < pieces@.len() ==> {
                &&& (#[trigger] pieces@[j]).0 <= pieces@[j].1 <= cs@.len()
                &&& cs@.subrange(pieces@[j].0 as int, pieces@[j].1 as int) == ps[j]
            },
            out@ == int_values(ps.take(k as int)),
        decreases pieces.len() - k,
    {
        let (x0, y0) = pieces[k];
        let (x, y) = trim_range(&cs, x0, y0);
        let v = parse_unsigned_range(&cs, x, y, usize::MAX as u64);
        assert(ps.take(k + 1).drop_last() =~= ps.take(k as int));
        match v {
            Some(n) => { out.push(n as usize); },
            None => {},
        }
        k = k + 1;
    }
    assert(ps.take(ps.len() as int) =~= ps);
    out
}

/// The entity type name of a body: the trimmed text before the first `(`
/// (or all of it), trimmed again and upper-cased.
pub open spec fn entity_kind(body: Seq<char>) -> Seq<char> {
    let t = trim(body);
    match find(t, '(') {
        Some(p) => upper_of(trim(t.take(p))),
        None => upper_of(t),
    }
}

/// Extracts the entity type name from the body text.
pub fn entity_type_name(body: &str) -> (r: String)
    ensures
        r@ == entity_kind(body@),
{
    let cs = chars_of(body);
    assert(cs@.subrange(0, cs@.len() as int) =~= body@);
    let (a, b) = trim_range(&cs, 0, cs.len());
    let ghost t = cs@.subrange(a as int, b as int);
    match find_in(&cs, '(', a, b) {
        Some(p) => {
            proof {
                assert forall|k: int| 0 <= k < p - a implies t[k] != '(' by {
                    assert(t[k] == cs@[a + k]);
                }
                lemma_find_from(t, '(', 0, p - a);
                assert(t.take(p - a) =~= cs@.subrange(a as int, p as int));
            }
            let (x, y) = trim_range(&cs, a, p);
            let head = range_string(&cs, x, y);
            crate::strs::to_uppercase(head.as_str())
        },
        None => {
            proof {
                assert forall|k: int| 0 <= k < t.len() implies t[k] != '(' by {
                    assert(t[k] == cs@[a + k]);
                }
                lemma_find_from_none(t, '(', 0);
            }
            let whole = range_string(&cs, a, b);
            crate::strs::to_uppercase(whole.as_str())
        },
    }
}

/// One line of the entity-map builder: blank lines and `/*` comments are
/// skipped; other trimmed lines are appended to the pending entity text,
/// and a line ending in `;` completes the entity.
pub open spec fn entity_step(st: (Seq<char>, Map<u64, Seq<char>>), line: Seq<char>) -> (Seq<char>, Map<u64, Seq<char>>) {
        let t = trim(line);
        if t.len() == 0 || crate::strs::starts_with(t, seq!['/', '*']) {
            st
        } else {
            let cur = st.0 + t;
            if t.last() == ';' {
                let e = trim_end_char(cur, ';');
                let m = match entity_id_of(e) {
                    Some(id) => match find(e, '=') {
                        Some(q) => st.1.insert(id as u64, e.skip(q + 1)),
                        None => st.1,
                    },
                    None => st.1,
                };
                (Seq::empty(), m)
            } else {
                (cur, st.1)
            }
        }
}

/// The state of the entity-map builder after some lines: the entity text
/// accumulated so far and the map built so far.
pub open spec fn entity_fold(lines: Seq<Seq<char>>) -> (Seq<char>, Map<u64, Seq<char>>)
    decreases lines.len(),
{
    if lines.len() == 0 {
        (Seq::empty(), Map::empty())
    } else {
        entity_step(entity_fold(lines.drop_last()), lines.last())
    }
}

/// The DATA section of a STEP text: from after the first `DATA;` to the
/// first `ENDSEC;` after it.
pub open spec fn data_section(text: Seq<char>) -> Option<Seq<char>> {
    match crate::strs::find_substr(text, "DATA;"@) {
        None => None,
        Some(p) => match crate::strs::find_substr(text.skip(p + 5), "ENDSEC;"@) {
            None => None,
            Some(q) => Some(text.subrange(p + 5, p + 5 + q)),
        },
    }
}

/// The entity map of a STEP text: each complete `#ID=BODY;` entity of the
/// DATA section (lines trimmed, comments and blank lines skipped, entities
/// joined across lines) maps its number to the text after `=`; a later
/// entity with the same number replaces an earlier one.
pub open spec fn entity_map(text: Seq<char>) -> Map<u64, Seq<char>> {
    match data_section(text) {
        None => Map::empty(),
        Some(d) => entity_fold(split_char(d, '\n')).1,
    }
}

/// The views of a map's values.
pub open spec fn map_views(m: Map<u64, String>) -> Map<u64, Seq<char>> {
    m.map_values(|v: String| v@)
}

fn entity_line_step(
    cs: &Vec<char>,
    x0: usize,
    y0: usize,
    current: &mut String,
    map: &mut std::collections::HashMap<u64, String>,
)
    requires
        x0 <= y0 <= cs@.len(),
    ensures
        (final(current)@, map_views(final(map)@))
            == entity_step((old(current)@, map_views(old(map)@)), cs@.subrange(x0 as int, y0 as int)),
{
    broadcast use vstd::std_specs::hash::group_hash_axioms;
    let (x, y) = trim_range(cs, x0, y0);
    let ghost t = cs@.subrange(x as int, y as int);
    let is_comment = y - x >= 2 && cs[x] == '/' && cs[x + 1] == '*';
    assert(is_comment == (t.len() != 0 && crate::strs::starts_with(t, seq!['/', '*']))) by {
        if t.len() >= 2 {
            assert(t.take(2) =~= seq![t[0], t[1]]);
        }
    }
    if x < y && !is_comment {
        let piece = range_string(cs, x, y);
        current.append(piece.as_str());
        if cs[y - 1] == ';' {
            let ecs = chars_of(current.as_str());
            let eend = crate::strs::strip_end_char(&ecs, 0, ecs.len(), ';');
            assert(ecs@.subrange(0, ecs@.len() as int) =~= ecs@);
            let entity_line = range_string(&ecs, 0, eend);
            let ghost e = entity_line@;
            match parse_entity_id_from_str(entity_line.as_str()) {
                Some(id) => {
                    let ecs2 = chars_of(entity_line.as_str());
                    match find_in(&ecs2, '=', 0, ecs2.len()) {
                        Some(q) => {
                            proof { lemma_find_from(e, '=', 0, q as int); }
                            let body = range_string(&ecs2, q + 1, ecs2.len());
                            assert(body@ =~= e.skip(q + 1));
                            let ghost before = map@;
                            map.insert(id, body);
                            assert(map_views(map@) =~= map_views(before).insert(id, e.skip(q + 1)));
                        },
                        None => {
                            proof { lemma_find_from_none(e, '=', 0); }
                        },
                    }
                },
                None => {},
            }
            *current = String::new();
        }
    }
}

fn data_bounds(cs: &Vec<char>) -> (r: Option<(usize, usize)>)
    ensures
        match r {
            Some(p) => p.0 <= p.1 <= cs@.len() && data_section(cs@) == Some(cs@.subrange(p.0 as int, p.1 as int)),
            None => data_section(cs@) is None,
        },
{
    let n = cs.len();
    let data_pat = chars_of("DATA;");
    let end_pat = chars_of("ENDSEC;");
    proof { reveal_strlit("DATA;"); reveal_strlit("ENDSEC;"); }
    assert(cs@.skip(0) =~= cs@);
    let data_start = match crate::strs::find_substr_from(cs, 0, &data_pat) {
        Some(p) => p,
        None => { return None; },
    };
    assert(data_pat@.len() == 5);
    assert(crate::strs::find_substr(cs@, "DATA;"@) == Some(data_start as int));
    let ds = data_start + 5;
    let data_end = match crate::strs::find_substr_from(cs, ds, &end_pat) {
        Some(q) => q,
        None => {
            assert(crate::strs::find_substr(cs@.skip(ds as int), "ENDSEC;"@) is None);
            return None;
        },
    };
    let ghost q = crate::strs::find_substr(cs@.skip(ds as int), "ENDSEC;"@).unwrap();
    assert(data_end == ds + q);
    assert(data_section(cs@) == Some(cs@.subrange(ds as int, ds + q)));
    Some((ds, data_end))
}

/// Splits the DATA section into entities and builds the `#ID -> body` map.
pub fn build_entity_map(text: &str) -> (r: std::collections::HashMap<u64, String>)
    ensures
        map_views(r@) == entity_map(text@),
{
    broadcast use vstd::std_specs::hash::group_hash_axioms;
    let mut map: std::collections::HashMap<u64, String> = std::collections::HashMap::new();
    assert(map_views(map@) =~= Map::<u64, Seq<char>>::empty());
    let cs = chars_of(text);
    let (ds, data_end) = match data_bounds(&cs) {
        Some(p) => p,
        None => { return map; },
    };
    let ghost d = cs@.subrange(ds as int, data_end as int);
    let lines = crate::strs::split_ranges(&cs, ds, data_end, '\n');
    let ghost ls = split_char(d, '\n');
    let mut current = String::new();
    let mut k: usize = 0;
    while k < lines.len()
        invariant
            k <= lines@.len(),
            lines@.len() == ls.len(),
            ls == split_char(cs@.subrange(ds as int, data_end as int), '\n'),
            forall|j: int| 0 <= j < lines@.len() ==> {
                &&& (#[trigger] lines@[j]).0 <= lines@[j].1 <= cs@.len()
                &&& cs@.subrange(lines@[j].0 as int, lines@[j].1 as int) == ls[j]
            },
            entity_fold(ls.take(k as int)) == (current@, map_views(map@)),
        decreases lines.len() - k,
    {
        let (x0, y0) = lines[k];
        assert(ls.take(k + 1).drop_last() =~= ls.take(k as int));
        assert(ls.take(k + 1).last() == ls[k as int]);
        entity_line_step(&cs, x0, y0, &mut current, &mut map);
        k = k + 1;
    }
    assert(ls.take(ls.len() as int) =~= ls);
    map
}

/// The characteristic a STEP AP242 geometric tolerance entity stands for,
/// by the entity's name (ISO 10303-242); `None` for any other name.
pub open spec fn gdt_characteristic_of(name: Seq<char>) -> Option<GdtCharacteristic> {
    if name == "FLATNESS_TOLERANCE"@ {
        Some(GdtCharacteristic::Flatness)
    } else if name == "STRAIGHTNESS_TOLERANCE"@ {
        Some(GdtCharacteristic::Straightness)
    } else if name == "ROUNDNESS_TOLERANCE"@ {
        Some(GdtCharacteristic::Circularity)
    } else if name == "CYLINDRICITY_TOLERANCE"@ {
        Some(GdtCharacteristic::Cylindricity)
    } else if name == "POSITION_TOLERANCE"@ {
        Some(GdtCharacteristic::Position)
    } else if name == "CONCENTRICITY_TOLERANCE"@ {
        Some(GdtCharacteristic::Concentricity)
    } else if name == "SYMMETRY_TOLERANCE"@ {
        Some(GdtCharacteristic::Symmetry)
    } else if name == "PARALLELISM_TOLERANCE"@ {
        Some(GdtCharacteristic::Parallelism)
    } else if name == "PERPENDICULARITY_TOLERANCE"@ {
        Some(GdtCharacteristic::Perpendicularity)
    } else if name == "ANGULARITY_TOLERANCE"@ {
        Some(GdtCharacteristic::Angularity)
    } else if name == "LINE_PROFILE_TOLERANCE"@ {
        Some(GdtCharacteristic::ProfileOfLine)
    } else if name == "SURFACE_PROFILE_TOLERANCE"@ {
        Some(GdtCharacteristic::ProfileOfSurface)
    } else if name == "CIRCULAR_RUNOUT_TOLERANCE"@ {
        Some(GdtCharacteristic::CircularRunout)
    } else if name == "TOTAL_RUNOUT_TOLERANCE"@ {
        Some(GdtCharacteristic::TotalRunout)
    } else {
        None
    }
}

proof fn lemma_gdt_literals_differ()
    ensures
        "FLATNESS_TOLERANCE"@ != "STRAIGHTNESS_TOLERANCE"@,
        "FLATNESS_TOLERANCE"@ != "ROUNDNESS_TOLERANCE"@,
        "FLATNESS_TOLERANCE"@ != "CYLINDRICITY_TOLERANCE"@,
        "FLATNESS_TOLERANCE"@ != "POSITION_TOLERANCE"@,
        "FLATNESS_TOLERANCE"@ != "CONCENTRICITY_TOLERANCE"@,
        "FLATNESS_TOLERANCE"@ != "SYMMETRY_TOLERANCE"@,
        "FLATNESS_TOLERANCE"@ != "PARALLELISM_TOLERANCE"@,
        "FLATNESS_TOLERANCE"@ != "PERPENDICULARITY_TOLERANCE"@,
        "FLATNESS_TOLERANCE"@ != "ANGULARITY_TOLERANCE"@,
        "FLATNESS_TOLERANCE"@ != "LINE_PROFILE_TOLERANCE"@,
        "FLATNESS_TOLERANCE"@ != "SURFACE_PROFILE_TOLERANCE"@,
        "FLATNESS_TOLERANCE"@ != "CIRCULAR_RUNOUT_TOLERANCE"@,
        "FLATNESS_TOLERANCE"@ != "TOTAL_RUNOUT_TOLERANCE"@,
        "STRAIGHTNESS_TOLERANCE"@ != "ROUNDNESS_TOLERANCE"@,
        "STRAIGHTNESS_TOLERANCE"@ != "CYLINDRICITY_TOLERANCE"@,
        "STRAIGHTNESS_TOLERANCE"@ != "POSITION_TOLERANCE"@,
        "STRAIGHTNESS_TOLERANCE"@ != "CONCENTRICITY_TOLERANCE"@,
        "STRAIGHTNESS_TOLERANCE"@ != "SYMMETRY_TOLERANCE"@,
        "STRAIGHTNESS_TOLERANCE"@ != "PARALLELISM_TOLERANCE"@,
        "STRAIGHTNESS_TOLERANCE"@ != "PERPENDICULARITY_TOLERANCE"@,
        "STRAIGHTNESS_TOLERANCE"@ != "ANGULARITY_TOLERANCE"@,
        "STRAIGHTNESS_TOLERANCE"@ != "LINE_PROFILE_TOLERANCE"@,
        "STRAIGHTNESS_TOLERANCE"@ != "SURFACE_PROFILE_TOLERANCE"@,
        "STRAIGHTNESS_TOLERANCE"@ != "CIRCULAR_RUNOUT_TOLERANCE"@,
        "STRAIGHTNESS_TOLERANCE"@ != "TOTAL_RUNOUT_TOLERANCE"@,
        "ROUNDNESS_TOLERANCE"@ != "CYLINDRICITY_TOLERANCE"@,
        "ROUNDNESS_TOLERANCE"@ != "POSITION_TOLERANCE"@,
        "ROUNDNESS_TOLERANCE"@ != "CONCENTRICITY_TOLERANCE"@,
        "ROUNDNESS_TOLERANCE"@ != "SYMMETRY_TOLERANCE"@,
        "ROUNDNESS_TOLERANCE"@ != "PARALLELISM_TOLERANCE"@,
        "ROUNDNESS_TOLERANCE"@ != "PERPENDICULARITY_TOLERANCE"@,
        "ROUNDNESS_TOLERANCE"@ != "ANGULARITY_TOLERANCE"@,
        "ROUNDNESS_TOLERANCE"@ != "LINE_PROFILE_TOLERANCE"@,
        "ROUNDNESS_TOLERANCE"@ != "SURFACE_PROFILE_TOLERANCE"@,
        "ROUNDNESS_TOLERANCE"@ != "CIRCULAR_RUNOUT_TOLERANCE"@,
        "ROUNDNESS_TOLERANCE"@ != "TOTAL_RUNOUT_TOLERANCE"@,
        "CYLINDRICITY_TOLERANCE"@ != "POSITION_TOLERANCE"@,
        "CYLINDRICITY_TOLERANCE"@ != "CONCENTRICITY_TOLERANCE"@,
        "CYLINDRICITY_TOLERANCE"@ != "SYMMETRY_TOLERANCE"@,
        "CYLINDRICITY_TOLERANCE"@ != "PARALLELISM_TOLERANCE"@,
        "CYLINDRICITY_TOLERANCE"@ != "PERPENDICULARITY_TOLERANCE"@,
        "CYLINDRICITY_TOLERANCE"@ != "ANGULARITY_TOLERANCE"@,
        "CYLINDRICITY_TOLERANCE"@ != "LINE_PROFILE_TOLERANCE"@,
        "CYLINDRICITY_TOLERANCE"@ != "SURFACE_PROFILE_TOLERANCE"@,
        "CYLINDRICITY_TOLERANCE"@ != "CIRCULAR_RUNOUT_TOLERANCE"@,
        "CYLINDRICITY_TOLERANCE"@ != "TOTAL_RUNOUT_TOLERANCE"@,
        "POSITION_TOLERANCE"@ != "CONCENTRICITY_TOLERANCE"@,
        "POSITION_TOLERANCE"@ != "SYMMETRY_TOLERANCE"@,
        "POSITION_TOLERANCE"@ != "PARALLELISM_TOLERANCE"@,
        "POSITION_TOLERANCE"@ != "PERPENDICULARITY_TOLERANCE"@,
        "POSITION_TOLERANCE"@ != "ANGULARITY_TOLERANCE"@,
        "POSITION_TOLERANCE"@ != "LINE_PROFILE_TOLERANCE"@,
        "POSITION_TOLERANCE"@ != "SURFACE_PROFILE_TOLERANCE"@,
        "POSITION_TOLERANCE"@ != "CIRCULAR_RUNOUT_TOLERANCE"@,
        "POSITION_TOLERANCE"@ != "TOTAL_RUNOUT_TOLERANCE"@,
        "CONCENTRICITY_TOLERANCE"@ != "SYMMETRY_TOLERANCE"@,
        "CONCENTRICITY_TOLERANCE"@ != "PARALLELISM_TOLERANCE"@,
        "CONCENTRICITY_TOLERANCE"@ != "PERPENDICULARITY_TOLERANCE"@,
        "CONCENTRICITY_TOLERANCE"@ != "ANGULARITY_TOLERANCE"@,
        "CONCENTRICITY_TOLERANCE"@ != "LINE_PROFILE_TOLERANCE"@,
        "CONCENTRICITY_TOLERANCE"@ != "SURFACE_PROFILE_TOLERANCE"@,
        "CONCENTRICITY_TOLERANCE"@ != "CIRCULAR_RUNOUT_TOLERANCE"@,
        "CONCENTRICITY_TOLERANCE"@ != "TOTAL_RUNOUT_TOLERANCE"@,
        "SYMMETRY_TOLERANCE"@ != "PARALLELISM_TOLERANCE"@,
        "SYMMETRY_TOLERANCE"@ != "PERPENDICULARITY_TOLERANCE"@,
        "SYMMETRY_TOLERANCE"@ != "ANGULARITY_TOLERANCE"@,
        "SYMMETRY_TOLERANCE"@ != "LINE_PROFILE_TOLERANCE"@,
        "SYMMETRY_TOLERANCE"@ != "SURFACE_PROFILE_TOLERANCE"@,
        "SYMMETRY_TOLERANCE"@ != "CIRCULAR_RUNOUT_TOLERANCE"@,
        "SYMMETRY_TOLERANCE"@ != "TOTAL_RUNOUT_TOLERANCE"@,
        "PARALLELISM_TOLERANCE"@ != "PERPENDICULARITY_TOLERANCE"@,
        "PARALLELISM_TOLERANCE"@ != "ANGULARITY_TOLERANCE"@,
        "PARALLELISM_TOLERANCE"@ != "LINE_PROFILE_TOLERANCE"@,
        "PARALLELISM_TOLERANCE"@ != "SURFACE_PROFILE_TOLERANCE"@,
        "PARALLELISM_TOLERANCE"@ != "CIRCULAR_RUNOUT_TOLERANCE"@,
        "PARALLELISM_TOLERANCE"@ != "TOTAL_RUNOUT_TOLERANCE"@,
        "PERPENDICULARITY_TOLERANCE"@ != "ANGULARITY_TOLERANCE"@,
        "PERPENDICULARITY_TOLERANCE"@ != "LINE_PROFILE_TOLERANCE"@,
        "PERPENDICULARITY_TOLERANCE"@ != "SURFACE_PROFILE_TOLERANCE"@,
        "PERPENDICULARITY_TOLERANCE"@ != "CIRCULAR_RUNOUT_TOLERANCE"@,
        "PERPENDICULARITY_TOLERANCE"@ != "TOTAL_RUNOUT_TOLERANCE"@,
        "ANGULARITY_TOLERANCE"@ != "LINE_PROFILE_TOLERANCE"@,
        "ANGULARITY_TOLERANCE"@ != "SURFACE_PROFILE_TOLERANCE"@,
        "ANGULARITY_TOLERANCE"@ != "CIRCULAR_RUNOUT_TOLERANCE"@,
        "ANGULARITY_TOLERANCE"@ != "TOTAL_RUNOUT_TOLERANCE"@,
        "LINE_PROFILE_TOLERANCE"@ != "SURFACE_PROFILE_TOLERANCE"@,
        "LINE_PROFILE_TOLERANCE"@ != "CIRCULAR_RUNOUT_TOLERANCE"@,
        "LINE_PROFILE_TOLERANCE"@ != "TOTAL_RUNOUT_TOLERANCE"@,
        "SURFACE_PROFILE_TOLERANCE"@ != "CIRCULAR_RUNOUT_TOLERANCE"@,
        "SURFACE_PROFILE_TOLERANCE"@ != "TOTAL_RUNOUT_TOLERANCE"@,
        "CIRCULAR_RUNOUT_TOLERANCE"@ != "TOTAL_RUNOUT_TOLERANCE"@,
{
    reveal_strlit("FLATNESS_TOLERANCE");
    reveal_strlit("STRAIGHTNESS_TOLERANCE");
    reveal_strlit("ROUNDNESS_TOLERANCE");
    reveal_strlit("CYLINDRICITY_TOLERANCE");
    reveal_strlit("POSITION_TOLERANCE");
    reveal_strlit("CONCENTRICITY_TOLERANCE");
    reveal_strlit("SYMMETRY_TOLERANCE");
    reveal_strlit("PARALLELISM_TOLERANCE");
    reveal_strlit("PERPENDICULARITY_TOLERANCE");
    reveal_strlit("ANGULARITY_TOLERANCE");
    reveal_strlit("LINE_PROFILE_TOLERANCE");
    reveal_strlit("SURFACE_PROFILE_TOLERANCE");
    reveal_strlit("CIRCULAR_RUNOUT_TOLERANCE");
    reveal_strlit("TOTAL_RUNOUT_TOLERANCE");
    assert("FLATNESS_TOLERANCE"@.len() != "STRAIGHTNESS_TOLERANCE"@.len());
    assert("FLATNESS_TOLERANCE"@.len() != "ROUNDNESS_TOLERANCE"@.len());
    assert("FLATNESS_TOLERANCE"@.len() != "CYLINDRICITY_TOLERANCE"@.len());
    assert("FLATNESS_TOLERANCE"@[0] != "POSITION_TOLERANCE"@[0]);
    assert("FLATNESS_TOLERANCE"@.len() != "CONCENTRICITY_TOLERANCE"@.len());
    assert("FLATNESS_TOLERANCE"@[0] != "SYMMETRY_TOLERANCE"@[0]);
    assert("FLATNESS_TOLERANCE"@.len() != "PARALLELISM_TOLERANCE"@.len());
    assert("FLATNESS_TOLERANCE"@.len() != "PERPENDICULARITY_TOLERANCE"@.len());
    assert("FLATNESS_TOLERANCE"@.len() != "ANGULARITY_TOLERANCE"@.len());
    assert("FLATNESS_TOLERANCE"@.len() != "LINE_PROFILE_TOLERANCE"@.len());
    assert("FLATNESS_TOLERANCE"@.len() != "SURFACE_PROFILE_TOLERANCE"@.len());
    assert("FLATNESS_TOLERANCE"@.len() != "CIRCULAR_RUNOUT_TOLERANCE"@.len());
    assert("FLATNESS_TOLERANCE"@.len() != "TOTAL_RUNOUT_TOLERANCE"@.len());
    assert("STRAIGHTNESS_TOLERANCE"@.len() != "ROUNDNESS_TOLERANCE"@.len());
    assert("STRAIGHTNESS_TOLERANCE"@[0] != "CYLINDRICITY_TOLERANCE"@[0]);
    assert("STRAIGHTNESS_TOLERANCE"@.len() != "POSITION_TOLERANCE"@.len());
    assert("STRAIGHTNESS_TOLERANCE"@.len() != "CONCENTRICITY_TOLERANCE"@.len());
    assert("STRAIGHTNESS_TOLERANCE"@.len() != "SYMMETRY_TOLERANCE"@.len());
    assert("STRAIGHTNESS_TOLERANCE"@.len() != "PARALLELISM_TOLERANCE"@.len());
    assert("STRAIGHTNESS_TOLERANCE"@.len() != "PERPENDICULARITY_TOLERANCE"@.len());
    assert("STRAIGHTNESS_TOLERANCE"@.len() != "ANGULARITY_TOLERANCE"@.len());
    assert("STRAIGHTNESS_TOLERANCE"@[0] != "LINE_PROFILE_TOLERANCE"@[0]);
    assert("STRAIGHTNESS_TOLERANCE"@.len() != "SURFACE_PROFILE_TOLERANCE"@.len());
    assert("STRAIGHTNESS_TOLERANCE"@.len() != "CIRCULAR_RUNOUT_TOLERANCE"@.len());
    assert("STRAIGHTNESS_TOLERANCE"@[0] != "TOTAL_RUNOUT_TOLERANCE"@[0]);
    assert("ROUNDNESS_TOLERANCE"@.len() != "CYLINDRICITY_TOLERANCE"@.len());
    assert("ROUNDNESS_TOLERANCE"@.len() != "POSITION_TOLERANCE"@.len());
    assert("ROUNDNESS_TOLERANCE"@.len() != "CONCENTRICITY_TOLERANCE"@.len());
    assert("ROUNDNESS_TOLERANCE"@.len() != "SYMMETRY_TOLERANCE"@.len());
    assert("ROUNDNESS_TOLERANCE"@.len() != "PARALLELISM_TOLERANCE"@.len());
    assert("ROUNDNESS_TOLERANCE"@.len() != "PERPENDICULARITY_TOLERANCE"@.len());
    assert("ROUNDNESS_TOLERANCE"@.len() != "ANGULARITY_TOLERANCE"@.len());
    assert("ROUNDNESS_TOLERANCE"@.len() != "LINE_PROFILE_TOLERANCE"@.len());
    assert("ROUNDNESS_TOLERANCE"@.len() != "SURFACE_PROFILE_TOLERANCE"@.len());
    assert("ROUNDNESS_TOLERANCE"@.len() != "CIRCULAR_RUNOUT_TOLERANCE"@.len());
    assert("ROUNDNESS_TOLERANCE"@.len() != "TOTAL_RUNOUT_TOLERANCE"@.len());
    assert("CYLINDRICITY_TOLERANCE"@.len() != "POSITION_TOLERANCE"@.len());
    assert("CYLINDRICITY_TOLERANCE"@.len() != "CONCENTRICITY_TOLERANCE"@.len());
    assert("CYLINDRICITY_TOLERANCE"@.len() != "SYMMETRY_TOLERANCE"@.len());
    assert("CYLINDRICITY_TOLERANCE"@.len() != "PARALLELISM_TOLERANCE"@.len());
    assert("CYLINDRICITY_TOLERANCE"@.len() != "PERPENDICULARITY_TOLERANCE"@.len());
    assert("CYLINDRICITY_TOLERANCE"@.len() != "ANGULARITY_TOLERANCE"@.len());
    assert("CYLINDRICITY_TOLERANCE"@[0] != "LINE_PROFILE_TOLERANCE"@[0]);
    assert("CYLINDRICITY_TOLERANCE"@.len() != "SURFACE_PROFILE_TOLERANCE"@.len());
    assert("CYLINDRICITY_TOLERANCE"@.len() != "CIRCULAR_RUNOUT_TOLERANCE"@.len());
    assert("CYLINDRICITY_TOLERANCE"@[0] != "TOTAL_RUNOUT_TOLERANCE"@[0]);
    assert("POSITION_TOLERANCE"@.len() != "CONCENTRICITY_TOLERANCE"@.len());
    assert("POSITION_TOLERANCE"@[0] != "SYMMETRY_TOLERANCE"@[0]);
    assert("POSITION_TOLERANCE"@.len() != "PARALLELISM_TOLERANCE"@.len());
    assert("POSITION_TOLERANCE"@.len() != "PERPENDICULARITY_TOLERANCE"@.len());
    assert("POSITION_TOLERANCE"@.len() != "ANGULARITY_TOLERANCE"@.len());
    assert("POSITION_TOLERANCE"@.len() != "LINE_PROFILE_TOLERANCE"@.len());
    assert("POSITION_TOLERANCE"@.len() != "SURFACE_PROFILE_TOLERANCE"@.len());
    assert("POSITION_TOLERANCE"@.len() != "CIRCULAR_RUNOUT_TOLERANCE"@.len());
    assert("POSITION_TOLERANCE"@.len() != "TOTAL_RUNOUT_TOLERANCE"@.len());
    assert("CONCENTRICITY_TOLERANCE"@.len() != "SYMMETRY_TOLERANCE"@.len());
    assert("CONCENTRICITY_TOLERANCE"@.len() != "PARALLELISM_TOLERANCE"@.len());
    assert("CONCENTRICITY_TOLERANCE"@.len() != "PERPENDICULARITY_TOLERANCE"@.len());
    assert("CONCENTRICITY_TOLERANCE"@.len() != "ANGULARITY_TOLERANCE"@.len());
    assert("CONCENTRICITY_TOLERANCE"@.len() != "LINE_PROFILE_TOLERANCE"@.len());
    assert("CONCENTRICITY_TOLERANCE"@.len() != "SURFACE_PROFILE_TOLERANCE"@.len());
    assert("CONCENTRICITY_TOLERANCE"@.len() != "CIRCULAR_RUNOUT_TOLERANCE"@.len());
    assert("CONCENTRICITY_TOLERANCE"@.len() != "TOTAL_RUNOUT_TOLERANCE"@.len());
    assert("SYMMETRY_TOLERANCE"@.len() != "PARALLELISM_TOLERANCE"@.len());
    assert("SYMMETRY_TOLERANCE"@.len() != "PERPENDICULARITY_TOLERANCE"@.len());
    assert("SYMMETRY_TOLERANCE"@.len() != "ANGULARITY_TOLERANCE"@.len());
    assert("SYMMETRY_TOLERANCE"@.len() != "LINE_PROFILE_TOLERANCE"@.len());
    assert("SYMMETRY_TOLERANCE"@.len() != "SURFACE_PROFILE_TOLERANCE"@.len());
    assert("SYMMETRY_TOLERANCE"@.len() != "CIRCULAR_RUNOUT_TOLERANCE"@.len());
    assert("SYMMETRY_TOLERANCE"@.len() != "TOTAL_RUNOUT_TOLERANCE"@.len());
    assert("PARALLELISM_TOLERANCE"@.len() != "PERPENDICULARITY_TOLERANCE"@.len());
    assert("PARALLELISM_TOLERANCE"@.len() != "ANGULARITY_TOLERANCE"@.len());
    assert("PARALLELISM_TOLERANCE"@.len() != "LINE_PROFILE_TOLERANCE"@.len());
    assert("PARALLELISM_TOLERANCE"@.len() != "SURFACE_PROFILE_TOLERANCE"@.len());
    assert("PARALLELISM_TOLERANCE"@.len() != "CIRCULAR_RUNOUT_TOLERANCE"@.len());
    assert("PARALLELISM_TOLERANCE"@.len() != "TOTAL_RUNOUT_TOLERANCE"@.len());
    assert("PERPENDICULARITY_TOLERANCE"@.len() != "ANGULARITY_TOLERANCE"@.len());
    assert("PERPENDICULARITY_TOLERANCE"@.len() != "LINE_PROFILE_TOLERANCE"@.len());
    assert("PERPENDICULARITY_TOLERANCE"@.len() != "SURFACE_PROFILE_TOLERANCE"@.len());
    assert("PERPENDICULARITY_TOLERANCE"@.len() != "CIRCULAR_RUNOUT_TOLERANCE"@.len());
    assert("PERPENDICULARITY_TOLERANCE"@.len() != "TOTAL_RUNOUT_TOLERANCE"@.len());
    assert("ANGULARITY_TOLERANCE"@.len() != "LINE_PROFILE_TOLERANCE"@.len());
    assert("ANGULARITY_TOLERANCE"@.len() != "SURFACE_PROFILE_TOLERANCE"@.len());
    assert("ANGULARITY_TOLERANCE"@.len() != "CIRCULAR_RUNOUT_TOLERANCE"@.len());
    assert("ANGULARITY_TOLERANCE"@.len() != "TOTAL_RUNOUT_TOLERANCE"@.len());
    assert("LINE_PROFILE_TOLERANCE"@.len() != "SURFACE_PROFILE_TOLERANCE"@.len());
    assert("LINE_PROFILE_TOLERANCE"@.len() != "CIRCULAR_RUNOUT_TOLERANCE"@.len());
    assert("LINE_PROFILE_TOLERANCE"@[0] != "TOTAL_RUNOUT_TOLERANCE"@[0]);
    assert("SURFACE_PROFILE_TOLERANCE"@[0] != "CIRCULAR_RUNOUT_TOLERANCE"@[0]);
    assert("SURFACE_PROFILE_TOLERANCE"@.len() != "TOTAL_RUNOUT_TOLERANCE"@.len());
    assert("CIRCULAR_RUNOUT_TOLERANCE"@.len() != "TOTAL_RUNOUT_TOLERANCE"@.len());
}

/// The entity written for a characteristic is the AP242 tolerance entity
/// of that characteristic: reading its name back gives the characteristic
/// again, and a name reads back to a characteristic only when it is the
/// name written for it. So different characteristics are written as
/// different entities, and every one as a `..._TOLERANCE` entity.
pub proof fn lemma_gdt_entity_names(c: GdtCharacteristic, name: Seq<char>)
    ensures
        gdt_characteristic_of(gdt_entity_name(c)) == Some(c),
        gdt_characteristic_of(name) == Some(c) ==> name == gdt_entity_name(c),
        gdt_entity_name(c).len() > 10,
        gdt_entity_name(c).skip(gdt_entity_name(c).len() - 10) == "_TOLERANCE"@,
{
    reveal_strlit("FLATNESS_TOLERANCE");
    reveal_strlit("STRAIGHTNESS_TOLERANCE");
    reveal_strlit("ROUNDNESS_TOLERANCE");
    reveal_strlit("CYLINDRICITY_TOLERANCE");
    reveal_strlit("POSITION_TOLERANCE");
    reveal_strlit("CONCENTRICITY_TOLERANCE");
    reveal_strlit("SYMMETRY_TOLERANCE");
    reveal_strlit("PARALLELISM_TOLERANCE");
    reveal_strlit("PERPENDICULARITY_TOLERANCE");
    reveal_strlit("ANGULARITY_TOLERANCE");
    reveal_strlit("LINE_PROFILE_TOLERANCE");
    reveal_strlit("SURFACE_PROFILE_TOLERANCE");
    reveal_strlit("CIRCULAR_RUNOUT_TOLERANCE");
    reveal_strlit("TOTAL_RUNOUT_TOLERANCE");
    reveal_strlit("_TOLERANCE");
    lemma_gdt_literals_differ();
    let n = gdt_entity_name(c);
    assert(n.skip(n.len() - 10) =~= "_TOLERANCE"@);
}

/// Different characteristics are written as different STEP entities.
pub proof fn lemma_gdt_entity_names_distinct(a: GdtCharacteristic, b: GdtCharacteristic)
    ensures
        gdt_entity_name(a) == gdt_entity_name(b) ==> a == b,
{
    lemma_gdt_entity_names(a, gdt_entity_name(b));
    lemma_gdt_entity_names(b, gdt_entity_name(b));
}

/// The material condition a STEP enumeration literal stands for; `None` for
/// any other literal.
pub open spec fn material_condition_named(label: Seq<char>) -> Option<MaterialCondition> {
    if label == ".MAXIMUM_MATERIAL_CONDITION."@ {
        Some(MaterialCondition::Mmc)
    } else if label == ".LEAST_MATERIAL_CONDITION."@ {
        Some(MaterialCondition::Lmc)
    } else if label == ".REGARDLESS_OF_FEATURE_SIZE."@ {
        Some(MaterialCondition::Rfs)
    } else {
        None
    }
}

/// The literal written for a material condition reads back as that
/// condition, and only its own literal does: different conditions are
/// written differently.
pub proof fn lemma_material_condition_labels(x: MaterialCondition, label: Seq<char>)
    ensures
        material_condition_named(material_condition_label(x)) == Some(x),
        material_condition_named(label) == Some(x) ==> label == material_condition_label(x),
{
    reveal_strlit(".MAXIMUM_MATERIAL_CONDITION.");
    reveal_strlit(".LEAST_MATERIAL_CONDITION.");
    reveal_strlit(".REGARDLESS_OF_FEATURE_SIZE.");
    assert(".MAXIMUM_MATERIAL_CONDITION."@.len() != ".LEAST_MATERIAL_CONDITION."@.len());
    assert(".MAXIMUM_MATERIAL_CONDITION."@[1] != ".REGARDLESS_OF_FEATURE_SIZE."@[1]);
    assert(".LEAST_MATERIAL_CONDITION."@.len() != ".REGARDLESS_OF_FEATURE_SIZE."@.len());
}

/// The dimension type a label names; `None` for any other label.
pub open spec fn dimension_type_named(label: Seq<char>) -> Option<DimensionType> {
    if label == "linear"@ {
        Some(DimensionType::Linear)
    } else if label == "radial"@ {
        Some(DimensionType::Radial)
    } else if label == "diameter"@ {
        Some(DimensionType::Diameter)
    } else if label == "angular"@ {
        Some(DimensionType::Angular)
    } else {
        None
    }
}

/// The label written for a dimension type reads back as that type, and
/// only its own label does: different types are labelled differently.
pub proof fn lemma_dimension_type_labels(x: DimensionType, label: Seq<char>)
    ensures
        dimension_type_named(dimension_type_label(x)) == Some(x),
        dimension_type_named(label) == Some(x) ==> label == dimension_type_label(x),
{
    reveal_strlit("linear");
    reveal_strlit("radial");
    reveal_strlit("diameter");
    reveal_strlit("angular");
    assert("linear"@[0] != "radial"@[0]);
    assert("linear"@.len() != "diameter"@.len());
    assert("linear"@.len() != "angular"@.len());
    assert("radial"@.len() != "diameter"@.len());
    assert("radial"@.len() != "angular"@.len());
    assert("diameter"@.len() != "angular"@.len());
}

} // verus!

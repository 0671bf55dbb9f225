//! KiCad PCB reader: the S-expression tokenizer and parser of `.kicad_pcb`
//! text, the lookups on parsed lists, and the structural choices of the
//! reader (which lines are board edges, which text names a component).
use vstd::prelude::*;
use crate::text::{chars_of, push_char};
use crate::strs::{is_ws, char_is_ws, text_eq};
use crate::iges::views;

verus! {

// ---------------------------------------------------------------------------
// Tokenizer
// ---------------------------------------------------------------------------

/// The token list with the pending token appended when it is non-empty.
pub open spec fn flushed(toks: Seq<Seq<char>>, cur: Seq<char>) -> Seq<Seq<char>> {
    if cur.len() > 0 { toks.push(cur) } else { toks }
}

/// One character of the tokenizer: state is (tokens, pending token, inside
/// a quoted string). A quoted string is one token, empty or not, without
/// its quotes; parentheses are tokens of their own; whitespace separates.
pub open spec fn tok_step(st: (Seq<Seq<char>>, Seq<char>, bool), ch: char) -> (Seq<Seq<char>>, Seq<char>, bool) {
    let (toks, cur, in_str) = st;
    if in_str {
        if ch == '"' { (toks.push(cur), Seq::empty(), false) } else { (toks, cur.push(ch), true) }
    } else if ch == '"' {
        (flushed(toks, cur), Seq::empty(), true)
    } else if ch == '(' {
        (flushed(toks, cur).push(seq!['(']), Seq::empty(), false)
    } else if ch == ')' {
        (flushed(toks, cur).push(seq![')']), Seq::empty(), false)
    } else if is_ws(ch) {
        (flushed(toks, cur), Seq::empty(), false)
    } else {
        (toks, cur.push(ch), false)
    }
}

/// The tokenizer state after the characters of `s`.
pub open spec fn tok_fold(s: Seq<char>) -> (Seq<Seq<char>>, Seq<char>, bool)
    decreases s.len(),
{
    if s.len() == 0 {
        (Seq::empty(), Seq::empty(), false)
    } else {
        tok_step(tok_fold(s.drop_last()), s.last())
    }
}

/// The tokens of a text: those of the fold, and the pending token if any.
pub open spec fn kicad_tokens(s: Seq<char>) -> Seq<Seq<char>> {
    let st = tok_fold(s);
    flushed(st.0, st.1)
}

fn flush(tokens: &mut Vec<String>, current: &mut String)
    ensures
        views(final(tokens)@) == flushed(views(old(tokens)@), old(current)@),
        final(current)@ == Seq::<char>::empty(),
{
    if !current.as_str().is_empty() {
        let mut t = String::new();
        std::mem::swap(&mut t, current);
        let ghost before = tokens@;
        tokens.push(t);
        assert(views(tokens@) =~= views(before).push(t@));
    } else {
        *current = String::new();
    }
}

fn push_token(tokens: &mut Vec<String>, t: &str)
    ensures
        views(final(tokens)@) == views(old(tokens)@).push(t@),
{
    let ghost before = tokens@;
    let s = String::from_str(t);
    tokens.push(s);
    assert(views(tokens@) =~= views(before).push(t@));
}

/// Splits `.kicad_pcb` text into tokens.
pub fn tokenize(text: &str) -> (r: Vec<String>)
    ensures
        views(r@) == kicad_tokens(text@),
{
    let cs = chars_of(text);
    let mut tokens: Vec<String> = Vec::new();
    let mut current = String::new();
    let mut in_string = false;
    let mut i: usize = 0;
    proof { reveal_strlit("("); reveal_strlit(")"); }
    while i < cs.len()
        invariant
            i <= cs@.len(),
            cs@ == text@,
            "("@ == seq!['('],
            ")"@ == seq![')'],
            tok_fold(cs@.take(i as int)) == (views(tokens@), current@, in_string),
        decreases cs.len() - i,
    {
        let ch = cs[i];
        assert(cs@.take(i + 1).drop_last() =~= cs@.take(i as int));
        assert(cs@.take(i + 1).last() == ch);
        if in_string {
            if ch == '"' {
                in_string = false;
                let mut t = String::new();
                std::mem::swap(&mut t, &mut current);
                let ghost before = tokens@;
                tokens.push(t);
                assert(views(tokens@) =~= views(before).push(t@));
            } else {
                push_char(&mut current, ch);
            }
        } else if ch == '"' {
            flush(&mut tokens, &mut current);
            in_string = true;
        } else if ch == '(' {
            flush(&mut tokens, &mut current);
            push_token(&mut tokens, "(");
        } else if ch == ')' {
            flush(&mut tokens, &mut current);
            push_token(&mut tokens, ")");
        } else if char_is_ws(ch) {
            flush(&mut tokens, &mut current);
        } else {
            push_char(&mut current, ch);
        }
        i = i + 1;
    }
    assert(cs@.take(cs@.len() as int) =~= cs@);
    flush(&mut tokens, &mut current);
    tokens
}

// ---------------------------------------------------------------------------
// S-expressions
// ---------------------------------------------------------------------------

/// A parsed S-expression: an atom or a list.
pub enum SExpr {
    Atom(String),
    List(Vec<SExpr>),
}

/// The mathematical form of an S-expression.
pub enum Sx {
    Atom(Seq<char>),
    List(Seq<Sx>),
}

/// The form of an S-expression, atoms taken by view.
pub open spec fn sx_view(e: SExpr) -> Sx
    decreases e,
{
    match e {
        SExpr::Atom(s) => Sx::Atom(s@),
        SExpr::List(v) => Sx::List(
            Seq::new(v@.len(), |i: int| if 0 <= i < v@.len() { sx_view(v@[i]) } else { Sx::Atom(Seq::empty()) }),
        ),
    }
}

/// The forms of a list of S-expressions.
pub open spec fn sx_views(v: Seq<SExpr>) -> Seq<Sx> {
    Seq::new(v.len(), |i: int| sx_view(v[i]))
}

proof fn lemma_list_view(v: Vec<SExpr>)
    ensures
        sx_view(SExpr::List(v)) == Sx::List(sx_views(v@)),
{
    let cs = items_of(sx_view(SExpr::List(v)));
    assert(sx_view(SExpr::List(v)) is List);
    assert(cs =~= sx_views(v@));
}

impl View for SExpr {
    type V = Sx;

    open spec fn view(&self) -> Sx {
        sx_view(*self)
    }
}

/// The expression that starts at token `pos`, and the position after it:
/// `(` opens a list that runs to the matching `)` (or to the end of the
/// tokens), `)` starts nothing, any other token is an atom.
pub open spec fn sexpr_at(t: Seq<Seq<char>>, pos: int) -> Option<(Sx, int)>
    decreases t.len() - pos, 0int,
{
    if pos < 0 || pos >= t.len() {
        None
    } else if t[pos] == seq!['('] {
        let (cs, p) = items_at(t, pos + 1);
        Some((Sx::List(cs), if p < t.len() { p + 1 } else { p }))
    } else if t[pos] == seq![')'] {
        None
    } else {
        Some((Sx::Atom(t[pos]), pos + 1))
    }
}

/// The items of a list whose first item is at `pos`, and the position of
/// the closing `)` (or the end of the tokens).
pub open spec fn items_at(t: Seq<Seq<char>>, pos: int) -> (Seq<Sx>, int)
    decreases t.len() - pos, 1int,
{
    if pos < 0 || pos >= t.len() || t[pos] == seq![')'] {
        (Seq::empty(), pos)
    } else {
        match sexpr_at(t, pos) {
            Some((c, p)) => if pos < p <= t.len() {
                let (rest, q) = items_at(t, p);
                (seq![c] + rest, q)
            } else {
                (Seq::empty(), pos)
            },
            None => (Seq::empty(), pos),
        }
    }
}

fn token_is(tokens: &Vec<String>, i: usize, s: &str) -> (r: bool)
    requires
        i < tokens@.len(),
    ensures
        r == (tokens@[i as int]@ == s@),
{
    text_eq(tokens[i].as_str(), s)
}

fn parse_at(tokens: &Vec<String>, pos: usize) -> (r: (Option<SExpr>, usize))
    ensures
        match sexpr_at(views(tokens@), pos as int) {
            Some((e, p)) => r.0 matches Some(x) && x@ == e && r.1 == p && pos < p <= tokens@.len(),
            None => r.0 is None && r.1 == pos,
        },
    decreases tokens@.len() - pos,
{
    let ghost t = views(tokens@);
    proof { reveal_strlit("("); reveal_strlit(")"); }
    assert("("@ =~= seq!['(']);
    assert(")"@ =~= seq![')']);
    if pos >= tokens.len() {
        assert(sexpr_at(t, pos as int) is None);
        return (None, pos);
    }
    assert(t[pos as int] == tokens@[pos as int]@);
    if token_is(tokens, pos, "(") {
        let start = pos + 1;
        let mut p = start;
        let mut children: Vec<SExpr> = Vec::new();
        assert(sx_views(children@) + items_at(t, p as int).0 =~= items_at(t, p as int).0);
        while p < tokens.len() && !token_is(tokens, p, ")")
            invariant
                t == views(tokens@),
                pos < start <= p <= tokens@.len(),
                ")"@ == seq![')'],
                items_at(t, start as int) == (sx_views(children@) + items_at(t, p as int).0, items_at(t, p as int).1),
            decreases tokens@.len() - p,
        {
            let ghost p0 = p as int;
            assert(t[p0] == tokens@[p0]@);
            let (child, np) = parse_at(tokens, p);
            match child {
                Some(c) => {
                    let ghost cv = c@;
                    let ghost before = children@;
                    children.push(c);
                    assert(sx_views(children@) =~= sx_views(before).push(cv));
                    assert(items_at(t, p0) == (seq![cv] + items_at(t, np as int).0, items_at(t, np as int).1));
                    assert(sx_views(children@) + items_at(t, np as int).0 =~= sx_views(before) + (seq![cv]
                        + items_at(t, np as int).0));
                },
                None => {
                    assert(false);
                },
            }
            p = np;
        }
        proof {
            if (p as int) < t.len() {
                assert(t[p as int] == tokens@[p as int]@);
            }
            assert(items_at(t, p as int).0 =~= Seq::<Sx>::empty());
            assert(sx_views(children@) + Seq::<Sx>::empty() =~= sx_views(children@));
        }
        let end = if p < tokens.len() { p + 1 } else { p };
        proof { lemma_list_view(children); }
        assert(items_at(t, start as int) == (sx_views(children@), p as int));
        assert(t[pos as int] == seq!['(']);
        assert(sexpr_at(t, pos as int) == Some((Sx::List(sx_views(children@)), end as int)));
        (Some(SExpr::List(children)), end)
    } else if token_is(tokens, pos, ")") {
        assert(sexpr_at(t, pos as int) is None);
        (None, pos)
    } else {
        let a = SExpr::Atom(tokens[pos].clone());
        assert(a@ == Sx::Atom(t[pos as int]));
        assert(sexpr_at(t, pos as int) == Some((a@, pos + 1)));
        (Some(a), pos + 1)
    }
}

/// Parses the expression that starts at token `*pos`, moving `*pos` past it.
pub fn parse_sexpr(tokens: &Vec<String>, pos: &mut usize) -> (r: Option<SExpr>)
    ensures
        match sexpr_at(views(tokens@), *old(pos) as int) {
            Some((e, p)) => r matches Some(x) && x@ == e && *final(pos) == p
                && *old(pos) < p <= tokens@.len(),
            None => r is None && *final(pos) == *old(pos),
        },
{
    let (r, p) = parse_at(tokens, *pos);
    *pos = p;
    r
}

// ---------------------------------------------------------------------------
// Lookups on lists
// ---------------------------------------------------------------------------

/// Whether `e` is a list whose first item is the atom `tag`.
pub open spec fn is_tagged(e: Sx, tag: Seq<char>) -> bool {
    e matches Sx::List(cs) && cs.len() > 0 && cs[0] == Sx::Atom(tag)
}

/// The items of a list form (empty for an atom).
pub open spec fn items_of(e: Sx) -> Seq<Sx> {
    match e {
        Sx::List(cs) => cs,
        Sx::Atom(_) => Seq::empty(),
    }
}

/// The items of the first list of `list` tagged `tag`.
pub open spec fn child_with(list: Seq<Sx>, tag: Seq<char>) -> Option<Seq<Sx>>
    decreases list.len(),
{
    if list.len() == 0 {
        None
    } else if is_tagged(list[0], tag) {
        Some(items_of(list[0]))
    } else {
        child_with(list.drop_first(), tag)
    }
}

/// The items of every list of `list` tagged `tag`, in order.
pub open spec fn children_with(list: Seq<Sx>, tag: Seq<char>) -> Seq<Seq<Sx>>
    decreases list.len(),
{
    if list.len() == 0 {
        Seq::empty()
    } else {
        let rest = children_with(list.drop_last(), tag);
        if is_tagged(list.last(), tag) { rest.push(items_of(list.last())) } else { rest }
    }
}

/// The text of an atom.
pub open spec fn atom_text(e: Sx) -> Option<Seq<char>> {
    match e {
        Sx::Atom(s) => Some(s),
        Sx::List(_) => None,
    }
}

fn tagged<'a>(e: &'a SExpr, tag: &str) -> (r: Option<&'a Vec<SExpr>>)
    ensures
        is_tagged(e@, tag@) ==> (r matches Some(c) && sx_views(c@) == items_of(e@)),
        !is_tagged(e@, tag@) ==> r is None,
{
    match e {
        SExpr::List(children) => {
            proof { lemma_list_view(*children); }
            if children.len() > 0 {
                match &children[0] {
                    SExpr::Atom(name) => {
                        assert(sx_views(children@)[0] == Sx::Atom(name@));
                        if text_eq(name.as_str(), tag) { Some(children) } else { None }
                    },
                    SExpr::List(_) => {
                        None
                    },
                }
            } else {
                None
            }
        },
        SExpr::Atom(_) => None,
    }
}

/// The items of the first list in `list` whose first item is the atom `tag`.
pub fn find_child<'a>(list: &'a Vec<SExpr>, tag: &str) -> (r: Option<&'a Vec<SExpr>>)
    ensures
        match child_with(sx_views(list@), tag@) {
            Some(c) => r matches Some(v) && sx_views(v@) == c,
            None => r is None,
        },
{
    let ghost l = sx_views(list@);
    let mut i: usize = 0;
    assert(l.skip(0) =~= l);
    while i < list.len()
        invariant
            i <= list@.len(),
            l == sx_views(list@),
            child_with(l, tag@) == child_with(l.skip(i as int), tag@),
        decreases list.len() - i,
    {
        assert(l.skip(i as int)[0] == list@[i as int]@);
        assert(l.skip(i as int).drop_first() =~= l.skip(i + 1));
        match tagged(&list[i], tag) {
            Some(c) => { return Some(c); },
            None => {},
        }
        i = i + 1;
    }
    None
}

/// The items of every list in `list` whose first item is the atom `tag`.
pub fn find_children<'a>(list: &'a Vec<SExpr>, tag: &str) -> (r: Vec<&'a Vec<SExpr>>)
    ensures
        r@.len() == children_with(sx_views(list@), tag@).len(),
        forall|j: int| 0 <= j < r@.len() ==> sx_views(#[trigger] r@[j]@) == children_with(sx_views(list@), tag@)[j],
{
    let ghost l = sx_views(list@);
    let mut r: Vec<&'a Vec<SExpr>> = Vec::new();
    let mut i: usize = 0;
    while i < list.len()
        invariant
            i <= list@.len(),
            l == sx_views(list@),
            r@.len() == children_with(l.take(i as int), tag@).len(),
            forall|j: int| 0 <= j < r@.len() ==> sx_views(#[trigger] r@[j]@) == children_with(l.take(i as int), tag@)[j],
        decreases list.len() - i,
    {
        assert(l.take(i + 1).drop_last() =~= l.take(i as int));
        assert(l.take(i + 1).last() == list@[i as int]@);
        match tagged(&list[i], tag) {
            Some(c) => { r.push(c); },
            None => {},
        }
        i = i + 1;
    }
    assert(l.take(list@.len() as int) =~= l);
    r
}

/// The text of an atom; `None` for a list.
pub fn atom_str(expr: &SExpr) -> (r: Option<&str>)
    ensures
        match atom_text(expr@) {
            Some(s) => r matches Some(x) && x@ == s,
            None => r is None,
        },
{
    match expr {
        SExpr::Atom(s) => Some(s.as_str()),
        SExpr::List(children) => {
            proof { lemma_list_view(*children); }
            None
        },
    }
}

/// The text of the `i`-th item of `list` when it is an atom.
pub open spec fn atom_at(list: Seq<Sx>, i: int) -> Option<Seq<char>> {
    if 0 <= i < list.len() { atom_text(list[i]) } else { None }
}

/// The text of the `i`-th item of a list when it is an atom.
pub fn nth_atom(list: &Vec<SExpr>, i: usize) -> (r: Option<&str>)
    ensures
        match atom_at(sx_views(list@), i as int) {
            Some(s) => r matches Some(x) && x@ == s,
            None => r is None,
        },
{
    if i < list.len() {
        atom_str(&list[i])
    } else {
        None
    }
}

/// The atom at `i` in the first list of `list` tagged `tag`.
pub open spec fn child_atom_spec(list: Seq<Sx>, tag: Seq<char>, i: int) -> Option<Seq<char>> {
    match child_with(list, tag) {
        Some(c) => atom_at(c, i),
        None => None,
    }
}

/// The atom at `i` in the first list of `list` tagged `tag`, if both exist.
pub fn child_atom<'a>(list: &'a Vec<SExpr>, tag: &str, i: usize) -> (r: Option<&'a str>)
    ensures
        match child_atom_spec(sx_views(list@), tag@, i as int) {
            Some(s) => r matches Some(x) && x@ == s,
            None => r is None,
        },
{
    match find_child(list, tag) {
        Some(c) => nth_atom(c, i),
        None => None,
    }
}

// ---------------------------------------------------------------------------
// The reader's structural choices
// ---------------------------------------------------------------------------

/// The items of the root list of a `.kicad_pcb` text: the text's first
/// expression must be a list whose first item is the atom `kicad_pcb`.
pub open spec fn kicad_root(text: Seq<char>) -> Option<Seq<Sx>> {
    match sexpr_at(kicad_tokens(text), 0) {
        Some((e, _)) => match e {
            Sx::List(cs) => if cs.len() > 0 && cs[0] == Sx::Atom("kicad_pcb"@) { Some(cs) } else { None },
            Sx::Atom(_) => None,
        },
        None => None,
    }
}

/// Tokenizes and parses the text, and returns the root list's items when it
/// is a `kicad_pcb` list; `None` otherwise.
pub fn parse_kicad_root(text: &str) -> (r: Option<Vec<SExpr>>)
    ensures
        match kicad_root(text@) {
            Some(cs) => r matches Some(v) && sx_views(v@) == cs,
            None => r is None,
        },
{
    let tokens = tokenize(text);
    let mut pos: usize = 0;
    let root = match parse_sexpr(&tokens, &mut pos) {
        Some(e) => e,
        None => { return None; },
    };
    match root {
        SExpr::List(children) => {
            proof { lemma_list_view(children); }
            match nth_atom(&children, 0) {
                Some(name) => {
                    if text_eq(name, "kicad_pcb") {
                        Some(children)
                    } else {
                        None
                    }
                },
                None => None,
            }
        },
        SExpr::Atom(_) => None,
    }
}

/// Whether a `gr_line` lies on the `Edge.Cuts` layer: its `layer` list's
/// second item is the atom `Edge.Cuts`.
pub open spec fn on_edge_cuts(line: Seq<Sx>) -> bool {
    child_atom_spec(line, "layer"@, 1) == Some("Edge.Cuts"@)
}

/// Whether a `gr_line` lies on the `Edge.Cuts` layer.
pub fn is_edge_cuts(line: &Vec<SExpr>) -> (r: bool)
    ensures
        r == on_edge_cuts(sx_views(line@)),
{
    match child_atom(line, "layer", 1) {
        Some(l) => text_eq(l, "Edge.Cuts"),
        None => false,
    }
}

/// Whether a component sits on the bottom of the board: its `layer`
/// list's second item is the atom `B.Cu`.
pub open spec fn on_bottom(module: Seq<Sx>) -> bool {
    child_atom_spec(module, "layer"@, 1) == Some("B.Cu"@)
}

/// Whether a component sits on the bottom of the board (its z is then
/// the board's thickness; on top it is 0).
pub fn is_bottom_side(module: &Vec<SExpr>) -> (r: bool)
    ensures
        r == on_bottom(sx_views(module@)),
{
    match child_atom(module, "layer", 1) {
        Some(l) => text_eq(l, "B.Cu"),
        None => false,
    }
}

/// The text a component's reference comes from among `items` (the lists
/// tagged `fp_text` or `property`): the third item of the last one whose
/// second item is `key` (empty when that item is not an atom), or `init`
/// when none is.
pub open spec fn reference_from(items: Seq<Seq<Sx>>, key: Seq<char>, init: Seq<char>) -> Seq<char>
    decreases items.len(),
{
    if items.len() == 0 {
        init
    } else if atom_at(items.last(), 1) == Some(key) {
        match atom_at(items.last(), 2) {
            Some(s) => s,
            None => Seq::empty(),
        }
    } else {
        reference_from(items.drop_last(), key, init)
    }
}

/// A component's reference designator: from `fp_text reference` entries,
/// then (KiCad 7 and later) `property "Reference"` entries, the last one
/// found winning; empty when there is none.
pub open spec fn component_reference_spec(module: Seq<Sx>) -> Seq<char> {
    reference_from(
        children_with(module, "property"@),
        "Reference"@,
        reference_from(children_with(module, "fp_text"@), "reference"@, Seq::empty()),
    )
}

fn reference_scan(items: &Vec<&Vec<SExpr>>, key: &str, init: String) -> (r: String)
    ensures
        r@ == reference_from(Seq::new(items@.len(), |j: int| sx_views(items@[j]@)), key@, init@),
{
    let ghost its = Seq::new(items@.len(), |j: int| sx_views(items@[j]@));
    let mut r = init;
    let mut k: usize = 0;
    let ghost i0 = r@;
    assert(its.take(0) =~= Seq::<Seq<Sx>>::empty());
    while k < items.len()
        invariant
            k <= items@.len(),
            its == Seq::new(items@.len(), |j: int| sx_views(items@[j]@)),
            r@ == reference_from(its.take(k as int), key@, i0),
        decreases items.len() - k,
    {
        assert(its.take(k + 1).drop_last() =~= its.take(k as int));
        assert(its.take(k + 1).last() == sx_views(items@[k as int]@));
        match nth_atom(items[k], 1) {
            Some(tag) => {
                if text_eq(tag, key) {
                    r = match nth_atom(items[k], 2) {
                        Some(v) => String::from_str(v),
                        None => String::new(),
                    };
                }
            },
            None => {},
        }
        k = k + 1;
    }
    assert(its.take(items@.len() as int) =~= its);
    r
}

/// A component's reference designator.
pub fn component_reference(module: &Vec<SExpr>) -> (r: String)
    ensures
        r@ == component_reference_spec(sx_views(module@)),
{
    let texts = find_children(module, "fp_text");
    assert(Seq::new(texts@.len(), |j: int| sx_views(texts@[j]@)) =~= children_with(sx_views(module@), "fp_text"@));
    let r0 = reference_scan(&texts, "reference", String::new());
    let props = find_children(module, "property");
    assert(Seq::new(props@.len(), |j: int| sx_views(props@[j]@)) =~= children_with(sx_views(module@), "property"@));
    reference_scan(&props, "Reference", r0)
}

/// A component's footprint name: the module's second item when it is an
/// atom, else empty.
pub fn footprint_name(module: &Vec<SExpr>) -> (r: String)
    ensures
        r@ == match atom_at(sx_views(module@), 1) {
            Some(s) => s,
            None => Seq::<char>::empty(),
        },
{
    match nth_atom(module, 1) {
        Some(s) => String::from_str(s),
        None => String::new(),
    }
}

/// The component lists of the root: every `module` list, then every
/// `footprint` list (the older and the newer name of the same node).
pub fn component_lists<'a>(root: &'a Vec<SExpr>) -> (r: Vec<&'a Vec<SExpr>>)
    ensures
        Seq::new(r@.len(), |j: int| sx_views(r@[j]@)) == children_with(sx_views(root@), "module"@)
            + children_with(sx_views(root@), "footprint"@),
{
    let mut r = find_children(root, "module");
    let mut more = find_children(root, "footprint");
    let ghost a = r@;
    let ghost b = more@;
    r.append(&mut more);
    assert(Seq::new(r@.len(), |j: int| sx_views(r@[j]@)) =~= children_with(sx_views(root@), "module"@)
        + children_with(sx_views(root@), "footprint"@)) by {
        assert(r@ == a + b);
    }
    r
}

// ---------------------------------------------------------------------------
// The board, as text
// ---------------------------------------------------------------------------

/// The view of an optional text.
pub open spec fn ov(o: Option<String>) -> Option<Seq<char>> {
    match o {
        Some(s) => Some(s@),
        None => None,
    }
}

fn own(o: Option<&str>) -> (r: Option<String>)
    ensures
        ov(r) == match o {
            Some(s) => Some(s@),
            None => None::<Seq<char>>,
        },
{
    match o {
        Some(s) => Some(String::from_str(s)),
        None => None,
    }
}

/// A component as text: reference, footprint, the three `at` numbers
/// (x, y, rotation) and whether it sits on the bottom side.
pub struct KicadComponentText {
    pub reference: String,
    pub footprint: String,
    pub x: Option<String>,
    pub y: Option<String>,
    pub rotation: Option<String>,
    pub bottom: bool,
}

impl View for KicadComponentText {
    type V = (Seq<char>, Seq<char>, Option<Seq<char>>, Option<Seq<char>>, Option<Seq<char>>, bool);

    open spec fn view(&self) -> Self::V {
        (self.reference@, self.footprint@, ov(self.x), ov(self.y), ov(self.rotation), self.bottom)
    }
}

/// A pad with a drill, as text: its module's `at` x and y, its own `at` x
/// and y, and the drill's first number.
pub struct PadDrillText {
    pub module_x: Option<String>,
    pub module_y: Option<String>,
    pub pad_x: Option<String>,
    pub pad_y: Option<String>,
    pub drill: Option<String>,
}

impl View for PadDrillText {
    type V = (Option<Seq<char>>, Option<Seq<char>>, Option<Seq<char>>, Option<Seq<char>>, Option<Seq<char>>);

    open spec fn view(&self) -> Self::V {
        (ov(self.module_x), ov(self.module_y), ov(self.pad_x), ov(self.pad_y), ov(self.drill))
    }
}

/// A via with an `at` list, as text: its x and y, its drill and its size.
pub struct ViaText {
    pub x: Option<String>,
    pub y: Option<String>,
    pub drill: Option<String>,
    pub size: Option<String>,
}

impl View for ViaText {
    type V = (Option<Seq<char>>, Option<Seq<char>>, Option<Seq<char>>, Option<Seq<char>>);

    open spec fn view(&self) -> Self::V {
        (ov(self.x), ov(self.y), ov(self.drill), ov(self.size))
    }
}

/// What the board reader takes from a parsed board, numbers still text:
/// the thickness, the outline's end points, the components, the drilled
/// pads and the vias.
pub struct KicadBoardText {
    pub thickness: Option<String>,
    pub outline: Vec<(Option<String>, Option<String>)>,
    pub components: Vec<KicadComponentText>,
    pub pad_drills: Vec<PadDrillText>,
    pub vias: Vec<ViaText>,
}

/// The view of a board's text.
pub struct KicadBoardView {
    pub thickness: Option<Seq<char>>,
    pub outline: Seq<(Option<Seq<char>>, Option<Seq<char>>)>,
    pub components: Seq<(Seq<char>, Seq<char>, Option<Seq<char>>, Option<Seq<char>>, Option<Seq<char>>, bool)>,
    pub pad_drills: Seq<(Option<Seq<char>>, Option<Seq<char>>, Option<Seq<char>>, Option<Seq<char>>, Option<Seq<char>>)>,
    pub vias: Seq<(Option<Seq<char>>, Option<Seq<char>>, Option<Seq<char>>, Option<Seq<char>>)>,
}

impl View for KicadBoardText {
    type V = KicadBoardView;

    open spec fn view(&self) -> KicadBoardView {
        KicadBoardView {
            thickness: ov(self.thickness),
            outline: self.outline@.map_values(|p: (Option<String>, Option<String>)| (ov(p.0), ov(p.1))),
            components: self.components@.map_values(|c: KicadComponentText| c@),
            pad_drills: self.pad_drills@.map_values(|d: PadDrillText| d@),
            vias: self.vias@.map_values(|v: ViaText| v@),
        }
    }
}

/// The board thickness text: the `thickness` number of the root's
/// `general` list.
pub open spec fn thickness_text(root: Seq<Sx>) -> Option<Seq<char>> {
    match child_with(root, "general"@) {
        Some(g) => child_atom_spec(g, "thickness"@, 1),
        None => None,
    }
}

/// The point of a line's `tag` list (`start` or `end`), if it has one: its
/// second and third items.
pub open spec fn line_point(line: Seq<Sx>, tag: Seq<char>) -> Seq<(Option<Seq<char>>, Option<Seq<char>>)> {
    match child_with(line, tag) {
        Some(p) => seq![(atom_at(p, 1), atom_at(p, 2))],
        None => Seq::empty(),
    }
}

/// The outline's end points: of each `Edge.Cuts` line in order, its start
/// and then its end.
pub open spec fn outline_points(lines: Seq<Seq<Sx>>) -> Seq<(Option<Seq<char>>, Option<Seq<char>>)>
    decreases lines.len(),
{
    if lines.len() == 0 {
        Seq::empty()
    } else {
        let l = lines.last();
        outline_points(lines.drop_last()) + if on_edge_cuts(l) {
            line_point(l, "start"@) + line_point(l, "end"@)
        } else {
            Seq::empty()
        }
    }
}

/// A component as text.
pub open spec fn component_text(m: Seq<Sx>) -> (Seq<char>, Seq<char>, Option<Seq<char>>, Option<Seq<char>>, Option<Seq<char>>, bool) {
    (
        component_reference_spec(m),
        match atom_at(m, 1) {
            Some(s) => s,
            None => Seq::<char>::empty(),
        },
        child_atom_spec(m, "at"@, 1),
        child_atom_spec(m, "at"@, 2),
        child_atom_spec(m, "at"@, 3),
        on_bottom(m),
    )
}

/// The drilled pads among `pads` of module `m`, in order.
pub open spec fn pad_drills_in(m: Seq<Sx>, pads: Seq<Seq<Sx>>) -> Seq<(Option<Seq<char>>, Option<Seq<char>>, Option<Seq<char>>, Option<Seq<char>>, Option<Seq<char>>)>
    decreases pads.len(),
{
    if pads.len() == 0 {
        Seq::empty()
    } else {
        let pad = pads.last();
        pad_drills_in(m, pads.drop_last()) + match child_with(pad, "drill"@) {
            Some(d) => seq![(
                child_atom_spec(m, "at"@, 1),
                child_atom_spec(m, "at"@, 2),
                child_atom_spec(pad, "at"@, 1),
                child_atom_spec(pad, "at"@, 2),
                atom_at(d, 1),
            )],
            None => Seq::empty(),
        }
    }
}

/// The drilled pads of the modules, module by module.
pub open spec fn module_drills(ms: Seq<Seq<Sx>>) -> Seq<(Option<Seq<char>>, Option<Seq<char>>, Option<Seq<char>>, Option<Seq<char>>, Option<Seq<char>>)>
    decreases ms.len(),
{
    if ms.len() == 0 {
        Seq::empty()
    } else {
        module_drills(ms.drop_last()) + pad_drills_in(ms.last(), children_with(ms.last(), "pad"@))
    }
}

/// The vias with an `at` list, in order.
pub open spec fn via_texts(vs: Seq<Seq<Sx>>) -> Seq<(Option<Seq<char>>, Option<Seq<char>>, Option<Seq<char>>, Option<Seq<char>>)>
    decreases vs.len(),
{
    if vs.len() == 0 {
        Seq::empty()
    } else {
        let v = vs.last();
        via_texts(vs.drop_last()) + match child_with(v, "at"@) {
            Some(a) => seq![(atom_at(a, 1), atom_at(a, 2), child_atom_spec(v, "drill"@, 1), child_atom_spec(v, "size"@, 1))],
            None => Seq::empty(),
        }
    }
}

/// The board of a parsed root, as text.
pub open spec fn kicad_board_text_of(root: Seq<Sx>) -> KicadBoardView {
    let ms = children_with(root, "module"@) + children_with(root, "footprint"@);
    KicadBoardView {
        thickness: thickness_text(root),
        outline: outline_points(children_with(root, "gr_line"@)),
        components: ms.map_values(|m: Seq<Sx>| component_text(m)),
        pad_drills: module_drills(ms),
        vias: via_texts(children_with(root, "via"@)),
    }
}

fn line_point_exec(line: &Vec<SExpr>, tag: &str, out: &mut Vec<(Option<String>, Option<String>)>)
    ensures
        final(out)@.map_values(|p: (Option<String>, Option<String>)| (ov(p.0), ov(p.1)))
            == old(out)@.map_values(|p: (Option<String>, Option<String>)| (ov(p.0), ov(p.1))) + line_point(sx_views(line@), tag@),
{
    let ghost o = out@;
    match find_child(line, tag) {
        Some(p) => {
            let x = own(nth_atom(p, 1));
            let y = own(nth_atom(p, 2));
            out.push((x, y));
            assert(out@.map_values(|p: (Option<String>, Option<String>)| (ov(p.0), ov(p.1))) =~= o.map_values(
                |p: (Option<String>, Option<String>)| (ov(p.0), ov(p.1)),
            ) + line_point(sx_views(line@), tag@));
        },
        None => {
            assert(out@.map_values(|p: (Option<String>, Option<String>)| (ov(p.0), ov(p.1))) =~= o.map_values(
                |p: (Option<String>, Option<String>)| (ov(p.0), ov(p.1)),
            ) + line_point(sx_views(line@), tag@));
        },
    }
}

fn component_text_exec(m: &Vec<SExpr>) -> (r: KicadComponentText)
    ensures
        r@ == component_text(sx_views(m@)),
{
    KicadComponentText {
        reference: component_reference(m),
        footprint: footprint_name(m),
        x: own(child_atom(m, "at", 1)),
        y: own(child_atom(m, "at", 2)),
        rotation: own(child_atom(m, "at", 3)),
        bottom: is_bottom_side(m),
    }
}

fn push_pad_drills(m: &Vec<SExpr>, out: &mut Vec<PadDrillText>)
    ensures
        final(out)@.map_values(|d: PadDrillText| d@) == old(out)@.map_values(|d: PadDrillText| d@) + pad_drills_in(
            sx_views(m@),
            children_with(sx_views(m@), "pad"@),
        ),
{
    let ghost o = out@.map_values(|d: PadDrillText| d@);
    let ghost mv = sx_views(m@);
    let pads = find_children(m, "pad");
    let ghost ps = children_with(mv, "pad"@);
    let mut k: usize = 0;
    while k < pads.len()
        invariant
            k <= pads@.len(),
            pads@.len() == ps.len(),
            mv == sx_views(m@),
            ps == children_with(mv, "pad"@),
            forall|j: int| 0 <= j < pads@.len() ==> sx_views(#[trigger] pads@[j]@) == ps[j],
            out@.map_values(|d: PadDrillText| d@) == o + pad_drills_in(mv, ps.take(k as int)),
        decreases pads.len() - k,
    {
        assert(ps.take(k + 1).drop_last() =~= ps.take(k as int));
        assert(ps.take(k + 1).last() == sx_views(pads@[k as int]@));
        let pad = pads[k];
        let ghost before = out@;
        match find_child(pad, "drill") {
            Some(d) => {
                let e = PadDrillText {
                    module_x: own(child_atom(m, "at", 1)),
                    module_y: own(child_atom(m, "at", 2)),
                    pad_x: own(child_atom(pad, "at", 1)),
                    pad_y: own(child_atom(pad, "at", 2)),
                    drill: own(nth_atom(d, 1)),
                };
                out.push(e);
                assert(out@.map_values(|d: PadDrillText| d@) =~= before.map_values(|d: PadDrillText| d@).push(e@));
            },
            None => {},
        }
        assert(out@.map_values(|d: PadDrillText| d@) =~= o + pad_drills_in(mv, ps.take(k + 1)));
        k = k + 1;
    }
    assert(ps.take(pads@.len() as int) =~= ps);
}

/// The board of a parsed root as text (see `kicad_board_text_of`): the
/// numbers are left for the caller to read.
pub fn kicad_board_text(root: &Vec<SExpr>) -> (r: KicadBoardText)
    ensures
        r@ == kicad_board_text_of(sx_views(root@)),
{
    let ghost rv = sx_views(root@);
    // Thickness.
    let thickness = match find_child(root, "general") {
        Some(g) => own(child_atom(g, "thickness", 1)),
        None => None,
    };
    // Outline.
    let lines = find_children(root, "gr_line");
    let ghost ls = children_with(rv, "gr_line"@);
    let mut outline: Vec<(Option<String>, Option<String>)> = Vec::new();
    let mut k: usize = 0;
    while k < lines.len()
        invariant
            k <= lines@.len(),
            lines@.len() == ls.len(),
            forall|j: int| 0 <= j < lines@.len() ==> sx_views(#[trigger] lines@[j]@) == ls[j],
            outline@.map_values(|p: (Option<String>, Option<String>)| (ov(p.0), ov(p.1))) == outline_points(
                ls.take(k as int),
            ),
        decreases lines.len() - k,
    {
        assert(ls.take(k + 1).drop_last() =~= ls.take(k as int));
        assert(ls.take(k + 1).last() == sx_views(lines@[k as int]@));
        if is_edge_cuts(lines[k]) {
            line_point_exec(lines[k], "start", &mut outline);
            line_point_exec(lines[k], "end", &mut outline);
        }
        assert(outline@.map_values(|p: (Option<String>, Option<String>)| (ov(p.0), ov(p.1))) =~= outline_points(
            ls.take(k + 1),
        ));
        k = k + 1;
    }
    assert(ls.take(lines@.len() as int) =~= ls);
    // Components and drilled pads.
    let modules = component_lists(root);
    let ghost ms = children_with(rv, "module"@) + children_with(rv, "footprint"@);
    assert(ms.len() == modules@.len()) by {
        assert(Seq::new(modules@.len(), |j: int| sx_views(modules@[j]@)).len() == modules@.len());
    }
    let mut components: Vec<KicadComponentText> = Vec::new();
    let mut pad_drills: Vec<PadDrillText> = Vec::new();
    let mut i: usize = 0;
    while i < modules.len()
        invariant
            i <= modules@.len(),
            ms.len() == modules@.len(),
            forall|j: int| 0 <= j < modules@.len() ==> sx_views(#[trigger] modules@[j]@) == ms[j],
            components@.map_values(|c: KicadComponentText| c@) == ms.take(i as int).map_values(
                |m: Seq<Sx>| component_text(m),
            ),
            pad_drills@.map_values(|d: PadDrillText| d@) == module_drills(ms.take(i as int)),
        decreases modules.len() - i,
    {
        assert(Seq::new(modules@.len(), |j: int| sx_views(modules@[j]@))[i as int] == ms[i as int]);
        assert(ms.take(i + 1).drop_last() =~= ms.take(i as int));
        assert(ms.take(i + 1).last() == sx_views(modules@[i as int]@));
        let c = component_text_exec(modules[i]);
        let ghost cb = components@;
        components.push(c);
        assert(components@.map_values(|c: KicadComponentText| c@) =~= ms.take(i + 1).map_values(
            |m: Seq<Sx>| component_text(m),
        )) by {
            assert(cb.map_values(|c: KicadComponentText| c@).len() == cb.len());
            assert(ms.take(i as int).map_values(|m: Seq<Sx>| component_text(m)).len() == i);
            assert(cb.len() == i);
            assert(components@ == cb.push(c));
            assert(c@ == component_text(ms[i as int]));
            assert forall|j: int| 0 <= j < i implies #[trigger] components@[j]@ == component_text(ms[j]) by {
                assert(components@[j] == cb[j]);
                assert(cb.map_values(|c: KicadComponentText| c@)[j] == ms.take(i as int).map_values(
                    |m: Seq<Sx>| component_text(m),
                )[j]);
            }
        }
        push_pad_drills(modules[i], &mut pad_drills);
        i = i + 1;
    }
    assert(ms.take(modules@.len() as int) =~= ms);
    // Vias.
    let vias_l = find_children(root, "via");
    let ghost vs = children_with(rv, "via"@);
    let mut vias: Vec<ViaText> = Vec::new();
    let mut k: usize = 0;
    while k < vias_l.len()
        invariant
            k <= vias_l@.len(),
            vias_l@.len() == vs.len(),
            forall|j: int| 0 <= j < vias_l@.len() ==> sx_views(#[trigger] vias_l@[j]@) == vs[j],
            vias@.map_values(|v: ViaText| v@) == via_texts(vs.take(k as int)),
        decreases vias_l.len() - k,
    {
        assert(vs.take(k + 1).drop_last() =~= vs.take(k as int));
        assert(vs.take(k + 1).last() == sx_views(vias_l@[k as int]@));
        let v = vias_l[k];
        let ghost before = vias@;
        match find_child(v, "at") {
            Some(a) => {
                let e = ViaText {
                    x: own(nth_atom(a, 1)),
                    y: own(nth_atom(a, 2)),
                    drill: own(child_atom(v, "drill", 1)),
                    size: own(child_atom(v, "size", 1)),
                };
                vias.push(e);
                assert(vias@.map_values(|v: ViaText| v@) =~= before.map_values(|v: ViaText| v@).push(e@));
            },
            None => {},
        }
        assert(vias@.map_values(|v: ViaText| v@) =~= via_texts(vs.take(k + 1)));
        k = k + 1;
    }
    assert(vs.take(vias_l@.len() as int) =~= vs);
    let r = KicadBoardText { thickness, outline, components, pad_drills, vias };
    assert(r@ =~= kicad_board_text_of(rv));
    r
}

} // verus!

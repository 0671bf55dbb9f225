//! The STEP reader's walk over the entity map: the topology of the faces
//! (outer bound, edge loop, surface reference), the part name, and the
//! style chains that lead from styled items to colours.
use vstd::prelude::*;
use std::collections::{HashMap, HashSet};
use vstd::std_specs::iter::IteratorSpec;
use crate::step::{
    map_views, entity_kind, body_refs, first_quoted, entity_type_name, parse_entity_refs,
    parse_entity_refs_from_body, extract_first_quoted_string,
};
use crate::strs::text_eq;

verus! {

/// `order` lists the entries of `m` as (number, body): every listed entry is
/// in `m`, every key of `m` is listed, and the list is as long as the map.
pub open spec fn is_walk(order: Seq<(u64, Seq<char>)>, m: Map<u64, Seq<char>>) -> bool {
    &&& order.len() == m.dom().len()
    &&& forall|i: int| 0 <= i < order.len() ==> m.contains_key(#[trigger] order[i].0) && m[order[i].0] == order[i].1
    &&& forall|k: u64| m.contains_key(k) ==> exists|i: int| 0 <= i < order.len() && #[trigger] order[i].0 == k
}

/// The entries of a list of (number, body) pairs, bodies taken by view.
pub open spec fn entry_views(v: Seq<(u64, String)>) -> Seq<(u64, Seq<char>)> {
    v.map_values(|e: (u64, String)| (e.0, e.1@))
}

/// The entries of the map in the order in which the map is walked.
fn walk_entities(m: &HashMap<u64, String>) -> (r: Vec<(u64, String)>)
    ensures
        is_walk(entry_views(r@), map_views(m@)),
{
    broadcast use vstd::std_specs::hash::group_hash_axioms;
    let mut r: Vec<(u64, String)> = Vec::new();
    for kv in it: m.iter()
        invariant
            r@.len() == it.index(),
            it.seq() == vstd::std_specs::hash::spec_hash_map_iter(m).remaining(),
            forall|j: int| 0 <= j < it.index() ==> (#[trigger] r@[j]).0 == *it.seq()[j].0 && r@[j].1@ == it.seq()[j].1@,
    {
        let (k, v) = kv;
        r.push((*k, v.clone()));
    }
    proof {
        let v = vstd::std_specs::hash::spec_hash_map_iter(m).remaining();
        let mv = map_views(m@);
        let ev = entry_views(r@);
        assert(mv.dom() =~= m@.dom());
        assert forall|i: int| 0 <= i < ev.len() implies mv.contains_key(#[trigger] ev[i].0) && mv[ev[i].0] == ev[i].1 by {
            assert(ev[i] == (r@[i].0, r@[i].1@));
        }
        assert forall|k: u64| mv.contains_key(k) implies exists|i: int| 0 <= i < ev.len() && #[trigger] ev[i].0 == k by {
            assert(v.contains((&k, &m@[k])));
            let i = choose|i: int| 0 <= i < v.len() && v[i] == (&k, &m@[k]);
            assert(r@[i].0 == k);
            assert(ev[i].0 == k);
        }
    }
    r
}

// ---------------------------------------------------------------------------
// Face topology
// ---------------------------------------------------------------------------

/// The edge loop that each FACE_OUTER_BOUND entity names: its first reference.
pub open spec fn face_bound_map(m: Map<u64, Seq<char>>) -> Map<u64, u64> {
    Map::new(
        |id: u64| m.contains_key(id) && entity_kind(m[id]) == "FACE_OUTER_BOUND"@ && body_refs(m[id]).len() > 0,
        |id: u64| body_refs(m[id])[0],
    )
}

/// The references of each EDGE_LOOP entity that has any.
pub open spec fn edge_loop_map(m: Map<u64, Seq<char>>) -> Map<u64, Seq<u64>> {
    Map::new(
        |id: u64| m.contains_key(id) && entity_kind(m[id]) == "EDGE_LOOP"@ && body_refs(m[id]).len() > 0,
        |id: u64| body_refs(m[id]),
    )
}

/// The views of a map whose values are vectors.
pub open spec fn vec_map_views(m: Map<u64, Vec<u64>>) -> Map<u64, Seq<u64>> {
    m.map_values(|v: Vec<u64>| v@)
}

/// One face read from an ADVANCED_FACE entity: the references of its outer
/// edge loop and, where the entity has two references or more, the last one
/// (its surface).
pub struct StepFace {
    pub point_refs: Vec<u64>,
    pub surface_id: Option<u64>,
}

impl View for StepFace {
    type V = (Seq<u64>, Option<u64>);

    open spec fn view(&self) -> (Seq<u64>, Option<u64>) {
        (self.point_refs@, self.surface_id)
    }
}

/// The face an entity body gives: an ADVANCED_FACE with references whose
/// first reference is a known outer bound whose loop is known.
pub open spec fn face_of(b: Seq<char>, fb: Map<u64, u64>, el: Map<u64, Seq<u64>>) -> Option<(Seq<u64>, Option<u64>)> {
    let refs = body_refs(b);
    if entity_kind(b) == "ADVANCED_FACE"@ && refs.len() > 0 && fb.contains_key(refs[0]) && el.contains_key(fb[refs[0]]) {
        Some((el[fb[refs[0]]], if refs.len() >= 2 { Some(refs.last()) } else { None }))
    } else {
        None
    }
}

/// The faces given by the bodies of `order`, in order.
pub open spec fn faces_in(order: Seq<(u64, Seq<char>)>, fb: Map<u64, u64>, el: Map<u64, Seq<u64>>) -> Seq<(Seq<u64>, Option<u64>)>
    decreases order.len(),
{
    if order.len() == 0 {
        Seq::empty()
    } else {
        let rest = faces_in(order.drop_last(), fb, el);
        match face_of(order.last().1, fb, el) {
            Some(f) => rest.push(f),
            None => rest,
        }
    }
}

/// The views of a list of faces.
pub open spec fn face_views(v: Seq<StepFace>) -> Seq<(Seq<u64>, Option<u64>)> {
    v.map_values(|f: StepFace| f@)
}

/// Maps each FACE_OUTER_BOUND entity to the edge loop it names.
pub fn collect_face_bounds(entities: &HashMap<u64, String>) -> (r: HashMap<u64, u64>)
    ensures
        r@ == face_bound_map(map_views(entities@)),
{
    broadcast use vstd::std_specs::hash::group_hash_axioms;
    let order = walk_entities(entities);
    let ghost m = map_views(entities@);
    let ghost ev = entry_views(order@);
    let ghost fbm = face_bound_map(m);
    let mut r: HashMap<u64, u64> = HashMap::new();
    let ghost mut seen: Set<u64> = Set::empty();
    let mut k: usize = 0;
    while k < order.len()
        invariant
            k <= order@.len(),
            m == map_views(entities@),
            ev == entry_views(order@),
            fbm == face_bound_map(m),
            is_walk(ev, m),
            forall|j: int| 0 <= j < k ==> seen.contains(#[trigger] ev[j].0),
            r@ == fbm.restrict(seen),
        decreases order.len() - k,
    {
        let (id, body) = (order[k].0, &order[k].1);
        assert(ev[k as int] == (id, body@));
        assert(m.contains_key(ev[k as int].0) && m[ev[k as int].0] == ev[k as int].1);
        let kind = entity_type_name(body.as_str());
        if text_eq(kind.as_str(), "FACE_OUTER_BOUND") {
            match parse_entity_refs(body.as_str()) {
                Some(refs) => {
                    r.insert(id, refs[0]);
                },
                None => {},
            }
        }
        proof {
            seen = seen.insert(id);
        }
        assert(r@ =~= fbm.restrict(seen));
        k = k + 1;
    }
    assert(fbm.restrict(seen) =~= fbm) by {
        assert forall|id: u64| fbm.contains_key(id) implies seen.contains(id) by {
            let i = choose|i: int| 0 <= i < ev.len() && #[trigger] ev[i].0 == id;
        }
    }
    r
}

/// Maps each EDGE_LOOP entity to its references.
pub fn collect_edge_loops(entities: &HashMap<u64, String>) -> (r: HashMap<u64, Vec<u64>>)
    ensures
        vec_map_views(r@) == edge_loop_map(map_views(entities@)),
{
    broadcast use vstd::std_specs::hash::group_hash_axioms;
    let order = walk_entities(entities);
    let ghost m = map_views(entities@);
    let ghost ev = entry_views(order@);
    let ghost elm = edge_loop_map(m);
    let mut r: HashMap<u64, Vec<u64>> = HashMap::new();
    let ghost mut seen: Set<u64> = Set::empty();
    let mut k: usize = 0;
    while k < order.len()
        invariant
            k <= order@.len(),
            m == map_views(entities@),
            ev == entry_views(order@),
            elm == edge_loop_map(m),
            is_walk(ev, m),
            forall|j: int| 0 <= j < k ==> seen.contains(#[trigger] ev[j].0),
            vec_map_views(r@) == elm.restrict(seen),
        decreases order.len() - k,
    {
        let (id, body) = (order[k].0, &order[k].1);
        assert(ev[k as int] == (id, body@));
        assert(m.contains_key(ev[k as int].0) && m[ev[k as int].0] == ev[k as int].1);
        let kind = entity_type_name(body.as_str());
        if text_eq(kind.as_str(), "EDGE_LOOP") {
            match parse_entity_refs(body.as_str()) {
                Some(refs) => {
                    let ghost before = r@;
                    let ghost rv = refs@;
                    r.insert(id, refs);
                    assert(vec_map_views(r@) =~= vec_map_views(before).insert(id, rv));
                },
                None => {},
            }
        }
        proof {
            seen = seen.insert(id);
        }
        assert(vec_map_views(r@) =~= elm.restrict(seen));
        k = k + 1;
    }
    assert(elm.restrict(seen) =~= elm) by {
        assert forall|id: u64| elm.contains_key(id) implies seen.contains(id) by {
            let i = choose|i: int| 0 <= i < ev.len() && #[trigger] ev[i].0 == id;
        }
    }
    r
}

/// The faces of the ADVANCED_FACE entities of `order`, in order, resolved
/// through the outer bounds and edge loops given.
pub fn faces_in_order(
    order: &Vec<(u64, String)>,
    bounds: &HashMap<u64, u64>,
    loops: &HashMap<u64, Vec<u64>>,
) -> (r: Vec<StepFace>)
    ensures
        face_views(r@) == faces_in(entry_views(order@), bounds@, vec_map_views(loops@)),
{
    broadcast use vstd::std_specs::hash::group_hash_axioms;
    let ghost ev = entry_views(order@);
    let ghost fb = bounds@;
    let ghost el = vec_map_views(loops@);
    let mut r: Vec<StepFace> = Vec::new();
    let mut k: usize = 0;
    while k < order.len()
        invariant
            k <= order@.len(),
            ev == entry_views(order@),
            fb == bounds@,
            el == vec_map_views(loops@),
            face_views(r@) == faces_in(ev.take(k as int), fb, el),
        decreases order.len() - k,
    {
        let body = &order[k].1;
        assert(ev[k as int].1 == body@);
        assert(ev.take(k + 1).drop_last() =~= ev.take(k as int));
        let ghost before = r@;
        let kind = entity_type_name(body.as_str());
        if text_eq(kind.as_str(), "ADVANCED_FACE") {
            match parse_entity_refs(body.as_str()) {
                Some(refs) => {
                    let bid = refs[0];
                    let surface_id = if refs.len() >= 2 { Some(refs[refs.len() - 1]) } else { None };
                    match bounds.get(&bid) {
                        Some(loop_id) => {
                            match loops.get(loop_id) {
                                Some(pt_refs) => {
                                    r.push(StepFace { point_refs: pt_refs.clone(), surface_id });
                                },
                                None => {},
                            }
                        },
                        None => {},
                    }
                },
                None => {},
            }
        }
        assert(face_views(r@) =~= faces_in(ev.take(k + 1), fb, el)) by {
            assert(face_views(before) =~= faces_in(ev.take(k as int), fb, el));
            if r@.len() > before.len() {
                assert(r@ =~= before.push(r@.last()));
            } else {
                assert(r@ =~= before);
            }
        }
        k = k + 1;
    }
    assert(ev.take(ev.len() as int) =~= ev);
    r
}

/// The faces of the STEP entity map: every ADVANCED_FACE whose outer bound
/// and edge loop resolve, in the order in which the map is walked (which
/// `std`'s `HashMap` leaves open).
pub fn collect_faces(entities: &HashMap<u64, String>) -> (r: Vec<StepFace>)
    ensures
        exists|order: Seq<(u64, Seq<char>)>|
            is_walk(order, map_views(entities@)) && face_views(r@) == faces_in(
                order,
                face_bound_map(map_views(entities@)),
                edge_loop_map(map_views(entities@)),
            ),
{
    let bounds = collect_face_bounds(entities);
    let loops = collect_edge_loops(entities);
    let order = walk_entities(entities);
    let r = faces_in_order(&order, &bounds, &loops);
    assert(is_walk(entry_views(order@), map_views(entities@)));
    r
}

// ---------------------------------------------------------------------------
// Part name
// ---------------------------------------------------------------------------

/// The name a PRODUCT entity gives: its first quoted string, when non-empty.
pub open spec fn product_name_of(b: Seq<char>) -> Option<Seq<char>> {
    if entity_kind(b) == "PRODUCT"@ {
        match first_quoted(b) {
            Some(n) => if n.len() > 0 { Some(n) } else { None },
            None => None,
        }
    } else {
        None
    }
}

/// `n` is the part name of the entity map `m`: the name of the PRODUCT
/// entity with the lowest number among those with a non-empty name, or
/// `Unnamed` when there is none.
#[verifier::opaque]
pub open spec fn part_name_is(m: Map<u64, Seq<char>>, n: Seq<char>) -> bool {
    if exists|id: u64| #[trigger] m.contains_key(id) && product_name_of(m[id]) is Some {
        exists|id: u64|
            #[trigger] m.contains_key(id) && product_name_of(m[id]) == Some(n) && forall|j: u64|
                #[trigger] m.contains_key(j) && product_name_of(m[j]) is Some ==> id <= j
    } else {
        n == "Unnamed"@
    }
}

/// An entity map has one part name.
pub proof fn lemma_part_name_unique(m: Map<u64, Seq<char>>, a: Seq<char>, b: Seq<char>)
    requires
        part_name_is(m, a),
        part_name_is(m, b),
    ensures
        a == b,
{
    reveal(part_name_is);
    if exists|id: u64| #[trigger] m.contains_key(id) && product_name_of(m[id]) is Some {
        let i = choose|id: u64|
            #[trigger] m.contains_key(id) && product_name_of(m[id]) == Some(a) && forall|j: u64|
                #[trigger] m.contains_key(j) && product_name_of(m[j]) is Some ==> id <= j;
        let k = choose|id: u64|
            #[trigger] m.contains_key(id) && product_name_of(m[id]) == Some(b) && forall|j: u64|
                #[trigger] m.contains_key(j) && product_name_of(m[j]) is Some ==> id <= j;
        assert(i <= k && k <= i);
    }
}

/// The part name: the name of the PRODUCT entity with the lowest number
/// among those with a non-empty name (entities are numbered in the order
/// they are written), or `Unnamed` when there is none.
pub fn extract_product_name(entities: &HashMap<u64, String>) -> (r: String)
    ensures
        part_name_is(map_views(entities@), r@),
{
    let order = walk_entities(entities);
    let ghost m = map_views(entities@);
    let ghost ev = entry_views(order@);
    let mut best: Option<(u64, String)> = None;
    let mut k: usize = 0;
    while k < order.len()
        invariant
            k <= order@.len(),
            m == map_views(entities@),
            ev == entry_views(order@),
            is_walk(ev, m),
            match best {
                None => forall|j: int| 0 <= j < k ==> product_name_of(#[trigger] ev[j].1) is None,
                Some(b) => m.contains_key(b.0) && product_name_of(m[b.0]) == Some(b.1@) && forall|j: int| 0 <= j < k
                    && product_name_of(#[trigger] ev[j].1) is Some ==> b.0 <= ev[j].0,
            },
        decreases order.len() - k,
    {
        let id = order[k].0;
        let body = &order[k].1;
        assert(ev[k as int] == (order@[k as int].0, body@));
        assert(m.contains_key(ev[k as int].0));
        let kind = entity_type_name(body.as_str());
        if text_eq(kind.as_str(), "PRODUCT") {
            match extract_first_quoted_string(body.as_str()) {
                Some(name) => {
                    if !name.as_str().is_empty() {
                        let better = match &best {
                            None => true,
                            Some(b) => id < b.0,
                        };
                        if better {
                            best = Some((id, name));
                        }
                    }
                },
                None => {},
            }
        }
        k = k + 1;
    }
    proof {
        reveal(part_name_is);
    }
    match best {
        Some(b) => {
            proof {
                assert forall|j: u64| #[trigger] m.contains_key(j) && product_name_of(m[j]) is Some implies b.0 <= j by {
                    let i = choose|i: int| 0 <= i < ev.len() && #[trigger] ev[i].0 == j;
                    assert(product_name_of(ev[i].1) is Some);
                }
            }
            b.1
        },
        None => {
            proof {
                assert forall|id: u64| #[trigger] m.contains_key(id) implies product_name_of(m[id]) is None by {
                    let i = choose|i: int| 0 <= i < ev.len() && #[trigger] ev[i].0 == id;
                    assert(product_name_of(ev[i].1) is None);
                }
            }
            String::from_str("Unnamed")
        },
    }
}

// ---------------------------------------------------------------------------
// Style chains
// ---------------------------------------------------------------------------

/// Where a style chain starting at `cur` ends within `hops` steps: at the
/// first entity that is a known colour, following each entity's first
/// reference; `None` when the chain breaks or runs out of steps.
pub open spec fn style_chain(m: Map<u64, Seq<char>>, colours: Set<u64>, cur: u64, hops: nat) -> Option<u64>
    decreases hops,
{
    if hops == 0 {
        None
    } else if colours.contains(cur) {
        Some(cur)
    } else if m.contains_key(cur) && body_refs(m[cur]).len() > 0 {
        style_chain(m, colours, body_refs(m[cur])[0], (hops - 1) as nat)
    } else {
        None
    }
}

/// Walks the style chain from `start` for at most 8 steps to a colour entity.
pub fn walk_style_chain(entities: &HashMap<u64, String>, colours: &HashSet<u64>, start: u64) -> (r: Option<u64>)
    ensures
        r == style_chain(map_views(entities@), colours@, start, 8),
{
    broadcast use vstd::std_specs::hash::group_hash_axioms;
    let ghost m = map_views(entities@);
    let mut current = start;
    let mut i: u64 = 0;
    while i < 8
        invariant
            i <= 8,
            m == map_views(entities@),
            style_chain(m, colours@, start, 8) == style_chain(m, colours@, current, (8 - i) as nat),
        decreases 8 - i,
    {
        if colours.contains(&current) {
            return Some(current);
        }
        match entities.get(&current) {
            Some(body) => {
                assert(m[current] == body@);
                match parse_entity_refs_from_body(body.as_str()) {
                    Some(refs) => {
                        current = refs[0];
                    },
                    None => { return None; },
                }
            },
            None => { return None; },
        }
        i = i + 1;
    }
    None
}

/// The (face, colour) pair a STYLED_ITEM entity gives: its last reference
/// and the end of the style chain from its first one.
pub open spec fn styled_of(b: Seq<char>, m: Map<u64, Seq<char>>, colours: Set<u64>) -> Option<(u64, u64)> {
    let refs = body_refs(b);
    if entity_kind(b) == "STYLED_ITEM"@ && refs.len() >= 2 {
        match style_chain(m, colours, refs[0], 8) {
            Some(c) => Some((refs.last(), c)),
            None => None,
        }
    } else {
        None
    }
}

/// The (face, colour) pairs of the bodies of `order`, in order.
pub open spec fn styled_in(order: Seq<(u64, Seq<char>)>, m: Map<u64, Seq<char>>, colours: Set<u64>) -> Seq<(u64, u64)>
    decreases order.len(),
{
    if order.len() == 0 {
        Seq::empty()
    } else {
        let rest = styled_in(order.drop_last(), m, colours);
        match styled_of(order.last().1, m, colours) {
            Some(p) => rest.push(p),
            None => rest,
        }
    }
}

/// The (face, colour entity) pairs of the STYLED_ITEM entities of `order`.
pub fn styled_in_order(
    order: &Vec<(u64, String)>,
    entities: &HashMap<u64, String>,
    colours: &HashSet<u64>,
) -> (r: Vec<(u64, u64)>)
    ensures
        r@ == styled_in(entry_views(order@), map_views(entities@), colours@),
{
    let ghost ev = entry_views(order@);
    let ghost m = map_views(entities@);
    let mut r: Vec<(u64, u64)> = Vec::new();
    let mut k: usize = 0;
    while k < order.len()
        invariant
            k <= order@.len(),
            ev == entry_views(order@),
            m == map_views(entities@),
            r@ == styled_in(ev.take(k as int), m, colours@),
        decreases order.len() - k,
    {
        let body = &order[k].1;
        assert(ev[k as int].1 == body@);
        assert(ev.take(k + 1).drop_last() =~= ev.take(k as int));
        let kind = entity_type_name(body.as_str());
        if text_eq(kind.as_str(), "STYLED_ITEM") {
            match parse_entity_refs_from_body(body.as_str()) {
                Some(refs) => {
                    if refs.len() >= 2 {
                        let face_ref = refs[refs.len() - 1];
                        match walk_style_chain(entities, colours, refs[0]) {
                            Some(c) => { r.push((face_ref, c)); },
                            None => {},
                        }
                    }
                },
                None => {},
            }
        }
        k = k + 1;
    }
    assert(ev.take(ev.len() as int) =~= ev);
    r
}

/// The (face, colour entity) pairs of the styled items of the entity map,
/// in the order in which the map is walked.
pub fn extract_styled_colours(entities: &HashMap<u64, String>, colours: &HashSet<u64>) -> (r: Vec<(u64, u64)>)
    ensures
        exists|order: Seq<(u64, Seq<char>)>|
            is_walk(order, map_views(entities@)) && r@ == styled_in(order, map_views(entities@), colours@),
{
    let order = walk_entities(entities);
    let r = styled_in_order(&order, entities, colours);
    assert(is_walk(entry_views(order@), map_views(entities@)));
    r
}

// ---------------------------------------------------------------------------
// The reader's structural pass
// ---------------------------------------------------------------------------

/// Whether `pat` occurs in `s`.
pub open spec fn contains_text(s: Seq<char>, pat: Seq<char>) -> bool {
    crate::strs::find_substr(s, pat) is Some
}

/// The checks a text passes before it is read as STEP: it names
/// ISO-10303-21 and holds `DATA;` and `ENDSEC;`.
pub open spec fn looks_like_step(text: Seq<char>) -> bool {
    contains_text(text, "ISO-10303-21"@) && contains_text(text, "DATA;"@) && contains_text(text, "ENDSEC;"@)
}

fn has_text(cs: &Vec<char>, pat: &str) -> (r: bool)
    ensures
        r == contains_text(cs@, pat@),
{
    let p = crate::text::chars_of(pat);
    assert(cs@.skip(0) =~= cs@);
    crate::strs::find_substr_from(cs, 0, &p).is_some()
}

/// Whether the text passes the reader's first checks.
pub fn is_step_text(text: &str) -> (r: bool)
    ensures
        r == looks_like_step(text@),
{
    let cs = crate::text::chars_of(text);
    has_text(&cs, "ISO-10303-21") && has_text(&cs, "DATA;") && has_text(&cs, "ENDSEC;")
}

/// What the structural pass of the STEP reader finds: the entity map, the
/// resolved faces, and the part name.
pub struct StepStructure {
    pub entities: HashMap<u64, String>,
    pub faces: Vec<StepFace>,
    pub part_name: String,
}

/// The structural pass of the STEP reader: `None` for a text that fails the
/// first checks or has no entities; otherwise its entity map, its faces
/// (in the order in which the map is walked) and its part name (see
/// `part_name_is`).
pub fn read_step_structure(text: &str) -> (r: Option<StepStructure>)
    ensures
        r is None <==> (!looks_like_step(text@) || crate::step::entity_map(text@).dom().len() == 0),
        r matches Some(st) ==> {
            let m = map_views(st.entities@);
            &&& m == crate::step::entity_map(text@)
            &&& exists|order: Seq<(u64, Seq<char>)>|
                is_walk(order, m) && face_views(st.faces@) == faces_in(order, face_bound_map(m), edge_loop_map(m))
            &&& part_name_is(m, st.part_name@)
        },
{
    broadcast use vstd::std_specs::hash::group_hash_axioms;
    if !is_step_text(text) {
        return None;
    }
    let entities = crate::step::build_entity_map(text);
    assert(map_views(entities@).dom() =~= entities@.dom());
    if entities.is_empty() {
        return None;
    }
    let part_name = extract_product_name(&entities);
    let faces = collect_faces(&entities);
    let r = StepStructure { entities, faces, part_name };
    assert(map_views(r.entities@) == map_views(entities@));
    Some(r)
}

} // verus!

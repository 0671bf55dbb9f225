//! Wavefront OBJ: face-vertex tokens (`v`, `v/vt`, `v//vn`, `v/vt/vn`),
//! 1-based and negative (relative) indices, the de-duplication and fan
//! triangulation of faces, the OBJ and MTL writers (numbers as text), and
//! the MTL reader's choice of the diffuse colour line.
use vstd::prelude::*;
use crate::text::{chars_of, dec, push_dec, push_char};
use crate::step_entities::{Coords, c3, coords_view};
use crate::dxf::{trimmed_lines, lines_of};
use crate::iges::views;
use crate::strs::{parse_unsigned, all_digits, digits_value, parse_unsigned_range, split_char, split_ranges, words, split_words};

verus! {

/// What `i64::from_str` gives: an optional sign, then one or more ASCII
/// digits, with a value in range.
pub open spec fn parse_signed(s: Seq<char>) -> Option<int> {
    if s.len() > 0 && s[0] == '-' {
        let d = s.drop_first();
        if d.len() == 0 || !all_digits(d) || digits_value(d) > 0x8000_0000_0000_0000 {
            None
        } else {
            Some(-(digits_value(d) as int))
        }
    } else {
        match parse_unsigned(s, i64::MAX as nat) {
            Some(v) => Some(v as int),
            None => None,
        }
    }
}

/// Parses `cs[a..b]` as `i64::from_str` does.
pub fn parse_i64_range(cs: &Vec<char>, a: usize, b: usize) -> (r: Option<i64>)
    requires
        a <= b <= cs@.len(),
    ensures
        match parse_signed(cs@.subrange(a as int, b as int)) {
            Some(v) => r == Some(v as i64),
            None => r is None,
        },
{
    let ghost s = cs@.subrange(a as int, b as int);
    if a < b && cs[a] == '-' {
        if a + 1 < b && cs[a + 1] == '+' {
            assert(s.drop_first()[0] == '+');
            assert(!all_digits(s.drop_first()));
            return None;
        }
        assert(cs@.subrange(a + 1, b as int) =~= s.drop_first());
        let ghost d = s.drop_first();
        assert(d.len() > 0 ==> d[0] != '+');
        assert(parse_unsigned(d, 0x8000_0000_0000_0000) == (if d.len() == 0 || !all_digits(d)
            || digits_value(d) > 0x8000_0000_0000_0000 { None } else { Some(digits_value(d)) }));
        match parse_unsigned_range(cs, a + 1, b, 0x8000_0000_0000_0000u64) {
            Some(v) => {
                if v == 0x8000_0000_0000_0000u64 {
                    Some(i64::MIN)
                } else {
                    Some(-(v as i64))
                }
            },
            None => None,
        }
    } else {
        match parse_unsigned_range(cs, a, b, 0x7fff_ffff_ffff_ffffu64) {
            Some(v) => Some(v as i64),
            None => None,
        }
    }
}

/// The 0-based position an OBJ index denotes among `count` items: `k > 0`
/// is the `k`-th item, `k < 0` counts back from the end, and 0 or an index
/// out of range denotes nothing.
pub open spec fn resolved_index(idx: int, count: int) -> Option<int> {
    if idx > 0 {
        if idx - 1 < count { Some(idx - 1) } else { None }
    } else if idx < 0 {
        if 0 <= count + idx < count { Some(count + idx) } else { None }
    } else {
        None
    }
}

/// Converts a 1-based (possibly negative) OBJ index to a 0-based one.
pub fn resolve_index(idx: i64, count: usize) -> (r: Option<usize>)
    ensures
        match resolved_index(idx as int, count as int) {
            Some(i) => r == Some(i as usize),
            None => r is None,
        },
{
    if idx > 0 {
        let i = (idx - 1) as u64;
        if (i as u128) < (count as u128) { Some(i as usize) } else { None }
    } else if idx < 0 {
        let neg = (-(idx as i128)) as u128;
        if neg <= count as u128 {
            let i = (count as u128 - neg) as usize;
            if i < count { Some(i) } else { None }
        } else {
            None
        }
    } else {
        None
    }
}

/// What a face-vertex token gives: (position, normal, texture) indices,
/// 0-based. One part is a position; two are position and texture; three
/// are position, texture (empty for none) and normal. Any other shape, a
/// part that is not an integer, or an index out of range gives nothing.
pub open spec fn face_vertex(token: Seq<char>, np: int, nn: int, nt: int) -> Option<(int, Option<int>, Option<int>)> {
    let parts = split_char(token, '/');
    if parts.len() == 1 {
        match parse_signed(parts[0]) {
            Some(a) => match resolved_index(a, np) {
                Some(p) => Some((p, None, None)),
                None => None,
            },
            None => None,
        }
    } else if parts.len() == 2 {
        match (parse_signed(parts[0]), parse_signed(parts[1])) {
            (Some(a), Some(b)) => match (resolved_index(a, np), resolved_index(b, nt)) {
                (Some(p), Some(t)) => Some((p, None, Some(t))),
                _ => None,
            },
            _ => None,
        }
    } else if parts.len() == 3 {
        match parse_signed(parts[0]) {
            Some(a) => match resolved_index(a, np) {
                Some(p) => {
                    let tex: Option<Option<int>> = if parts[1].len() == 0 {
                        Some(None)
                    } else {
                        match parse_signed(parts[1]) {
                            Some(b) => match resolved_index(b, nt) {
                                Some(t) => Some(Some(t)),
                                None => None,
                            },
                            None => None,
                        }
                    };
                    match tex {
                        Some(t) => match parse_signed(parts[2]) {
                            Some(c) => match resolved_index(c, nn) {
                                Some(n) => Some((p, Some(n), t)),
                                None => None,
                            },
                            None => None,
                        },
                        None => None,
                    }
                },
                None => None,
            },
            None => None,
        }
    } else {
        None
    }
}

/// The indices of a face-vertex triple as plain integers.
pub open spec fn triple_view(t: (usize, Option<usize>, Option<usize>)) -> (int, Option<int>, Option<int>) {
    (
        t.0 as int,
        match t.1 { Some(x) => Some(x as int), None => None },
        match t.2 { Some(x) => Some(x as int), None => None },
    )
}

fn index_part(cs: &Vec<char>, a: usize, b: usize, count: usize) -> (r: Option<usize>)
    requires
        a <= b <= cs@.len(),
    ensures
        match parse_signed(cs@.subrange(a as int, b as int)) {
            Some(v) => match resolved_index(v, count as int) {
                Some(i) => r == Some(i as usize),
                None => r is None,
            },
            None => r is None,
        },
{
    match parse_i64_range(cs, a, b) {
        Some(v) => resolve_index(v, count),
        None => None,
    }
}

/// Parses a face-vertex token like `1/2/3`, `1//3`, `1/2` or `1` into
/// 0-based (position, normal, texture) indices.
pub fn parse_face_vertex(token: &str, num_pos: usize, num_norm: usize, num_uv: usize) -> (r: Option<(usize, Option<usize>, Option<usize>)>)
    ensures
        match face_vertex(token@, num_pos as int, num_norm as int, num_uv as int) {
            Some(t) => r matches Some(x) && triple_view(x) == t,
            None => r is None,
        },
{
    let cs = chars_of(token);
    let parts = split_ranges(&cs, 0, cs.len(), '/');
    assert(cs@.subrange(0, cs@.len() as int) =~= token@);
    let ghost ps = split_char(token@, '/');
    assert(forall|j: int| 0 <= j < parts@.len() ==> cs@.subrange(#[trigger] parts@[j].0 as int, parts@[j].1 as int) == ps[j]);
    if parts.len() == 1 {
        let (a0, b0) = parts[0];
        match index_part(&cs, a0, b0, num_pos) {
            Some(p) => Some((p, None, None)),
            None => None,
        }
    } else if parts.len() == 2 {
        let (a0, b0) = parts[0];
        let (a1, b1) = parts[1];
        let p = index_part(&cs, a0, b0, num_pos);
        let t = index_part(&cs, a1, b1, num_uv);
        match (p, t) {
            (Some(p), Some(t)) => Some((p, None, Some(t))),
            _ => {
                proof {
                    if parse_signed(ps[0]) is None || resolved_index(parse_signed(ps[0]).unwrap(), num_pos as int) is None {
                        assert(face_vertex(token@, num_pos as int, num_norm as int, num_uv as int) is None);
                    }
                }
                None
            },
        }
    } else if parts.len() == 3 {
        let (a0, b0) = parts[0];
        let (a1, b1) = parts[1];
        let (a2, b2) = parts[2];
        let p = match index_part(&cs, a0, b0, num_pos) {
            Some(p) => p,
            None => { return None; },
        };
        let t = if a1 == b1 {
            None
        } else {
            match index_part(&cs, a1, b1, num_uv) {
                Some(t) => Some(t),
                None => { return None; },
            }
        };
        match index_part(&cs, a2, b2, num_norm) {
            Some(n) => Some((p, Some(n), t)),
            None => None,
        }
    } else {
        None
    }
}

/// The output vertex of each face vertex, in order, and the list of unique
/// vertices after them: a face vertex seen before reuses its number, a new
/// one is appended and numbered by its position.
pub open spec fn dedup_vertices(seen: Seq<(usize, Option<usize>, Option<usize>)>, face: Seq<(usize, Option<usize>, Option<usize>)>) -> (Seq<int>, Seq<(usize, Option<usize>, Option<usize>)>)
    decreases face.len(),
{
    if face.len() == 0 {
        (Seq::empty(), seen)
    } else {
        let (ids, s) = dedup_vertices(seen, face.drop_last());
        let v = face.last();
        if exists|i: int| 0 <= i < s.len() && s[i] == v {
            let i = choose|i: int| 0 <= i < s.len() && s[i] == v && forall|j: int| 0 <= j < i ==> s[j] != v;
            (ids.push(i), s)
        } else {
            (ids.push(s.len() as int), s.push(v))
        }
    }
}

/// The triangles of a fan over `ids`: (first, k, k + 1) for each k from 1
/// on, flattened.
pub open spec fn fan(ids: Seq<int>) -> Seq<int>
    decreases ids.len(),
{
    if ids.len() < 3 {
        Seq::empty()
    } else {
        fan(ids.drop_last()) + seq![ids[0], ids[ids.len() - 2], ids.last()]
    }
}

fn position_of(seen: &Vec<(usize, Option<usize>, Option<usize>)>, v: (usize, Option<usize>, Option<usize>)) -> (r: Option<usize>)
    ensures
        match r {
            Some(i) => i < seen@.len() && seen@[i as int] == v && forall|j: int| 0 <= j < i ==> seen@[j] != v,
            None => forall|j: int| 0 <= j < seen@.len() ==> seen@[j] != v,
        },
{
    let mut i: usize = 0;
    while i < seen.len()
        invariant
            i <= seen@.len(),
            forall|j: int| 0 <= j < i ==> seen@[j] != v,
        decreases seen.len() - i,
    {
        let (p, n, t) = seen[i];
        let same_n = match (n, v.1) {
            (Some(x), Some(y)) => x == y,
            (None, None) => true,
            _ => false,
        };
        let same_t = match (t, v.2) {
            (Some(x), Some(y)) => x == y,
            (None, None) => true,
            _ => false,
        };
        if p == v.0 && same_n && same_t {
            return Some(i);
        }
        i = i + 1;
    }
    None
}

/// Adds one face: each of its vertices is looked up in (or appended to)
/// `vertex_map`, and the face is triangulated as a fan from its first
/// vertex into `indices`.
pub fn add_face(
    vertex_map: &mut Vec<(usize, Option<usize>, Option<usize>)>,
    indices: &mut Vec<u32>,
    face: &Vec<(usize, Option<usize>, Option<usize>)>,
)
    requires
        old(vertex_map)@.len() + face@.len() <= u32::MAX,
    ensures
        final(vertex_map)@ == dedup_vertices(old(vertex_map)@, face@).1,
        final(indices)@.len() == old(indices)@.len() + fan(dedup_vertices(old(vertex_map)@, face@).0).len(),
        forall|k: int| 0 <= k < old(indices)@.len() ==> final(indices)@[k] == old(indices)@[k],
        forall|k: int| 0 <= k < fan(dedup_vertices(old(vertex_map)@, face@).0).len()
            ==> final(indices)@[old(indices)@.len() + k] as int == #[trigger] fan(dedup_vertices(old(vertex_map)@, face@).0)[k],
{
    let ghost seen0 = vertex_map@;
    let mut ids: Vec<u32> = Vec::new();
    let mut k: usize = 0;
    while k < face.len()
        invariant
            k <= face@.len(),
            seen0.len() + face@.len() <= u32::MAX,
            ({
                let (gi, gs) = dedup_vertices(seen0, face@.take(k as int));
                &&& vertex_map@ == gs
                &&& ids@.len() == gi.len()
                &&& forall|j: int| 0 <= j < gi.len() ==> ids@[j] as int == #[trigger] gi[j]
            }),
            vertex_map@.len() <= seen0.len() + k,
        decreases face.len() - k,
    {
        let v = face[k];
        assert(face@.take(k + 1).drop_last() =~= face@.take(k as int));
        assert(face@.take(k + 1).last() == v);
        let ghost ids_before = ids@;
        match position_of(vertex_map, v) {
            Some(i) => {
                proof {
                    let sv = vertex_map@;
                    assert(0 <= i < sv.len() && sv[i as int] == v);
                    let c = choose|c: int| 0 <= c < sv.len() && sv[c] == v && forall|j: int| 0 <= j < c ==> sv[j] != v;
                    assert(c == i) by {
                        if c < i { assert(sv[c] != v); } else if c > i { assert(sv[i as int] != v); }
                    }
                }
                ids.push(i as u32);
            },
            None => {
                let n = vertex_map.len() as u32;
                vertex_map.push(v);
                ids.push(n);
            },
        }
        k = k + 1;
    }
    assert(face@.take(face@.len() as int) =~= face@);
    let ghost gi = dedup_vertices(seen0, face@).0;
    let ghost start = indices@;
    if ids.len() >= 3 {
        let mut i: usize = 1;
        assert(fan(gi.take(2)) =~= Seq::<int>::empty());
        while i + 1 < ids.len()
            invariant
                1 <= i < ids@.len(),
                ids@.len() == gi.len(),
                forall|j: int| 0 <= j < gi.len() ==> ids@[j] as int == #[trigger] gi[j],
                indices@.len() == start.len() + fan(gi.take(i + 1)).len(),
                forall|q: int| 0 <= q < start.len() ==> indices@[q] == start[q],
                forall|q: int| 0 <= q < fan(gi.take(i + 1)).len()
                    ==> indices@[start.len() + q] as int == #[trigger] fan(gi.take(i + 1))[q],
            decreases ids.len() - i,
        {
            let ghost before = indices@;
            indices.push(ids[0]);
            indices.push(ids[i]);
            indices.push(ids[i + 1]);
            proof {
                let t = gi.take(i + 2);
                assert(t.drop_last() =~= gi.take(i + 1));
                assert(t[0] == gi[0] && t[t.len() - 2] == gi[i as int] && t.last() == gi[i + 1]);
                assert(fan(t) == fan(gi.take(i + 1)) + seq![gi[0], gi[i as int], gi[i + 1]]);
            }
            i = i + 1;
        }
        assert(gi.take(gi.len() as int) =~= gi);
    } else {
        assert(fan(gi) =~= Seq::<int>::empty());
    }
}


// ---------------------------------------------------------------------------
// Writers
// ---------------------------------------------------------------------------

/// A line of a keyword and three numbers.
pub open spec fn line3(key: Seq<char>, c: (Seq<char>, Seq<char>, Seq<char>)) -> Seq<char> {
    key + seq![' '] + c.0 + seq![' '] + c.1 + seq![' '] + c.2 + seq!['\n']
}

/// Lines of a keyword and three numbers, one per entry.
pub open spec fn lines3(key: Seq<char>, cs: Seq<(Seq<char>, Seq<char>, Seq<char>)>) -> Seq<char>
    decreases cs.len(),
{
    if cs.len() == 0 {
        Seq::empty()
    } else {
        lines3(key, cs.drop_last()) + line3(key, cs.last())
    }
}

/// `vt` lines, one per texture coordinate pair.
pub open spec fn uv_lines(uvs: Seq<(String, String)>) -> Seq<char>
    decreases uvs.len(),
{
    if uvs.len() == 0 {
        Seq::empty()
    } else {
        uv_lines(uvs.drop_last()) + "vt "@ + uvs.last().0@ + seq![' '] + uvs.last().1@ + seq!['\n']
    }
}

/// One corner of a face: the 1-based index, once or as `i/i/i`.
pub open spec fn corner(i: u32, full: bool) -> Seq<char> {
    let d = dec(i as nat + 1);
    if full { d + seq!['/'] + d + seq!['/'] + d } else { d }
}

/// The `f` line of one triangle.
pub open spec fn tri_line(a: u32, b: u32, c: u32, full: bool) -> Seq<char> {
    "f "@ + corner(a, full) + seq![' '] + corner(b, full) + seq![' '] + corner(c, full) + seq!['\n']
}

/// The `f` lines of the triangles of an index list, three indices each
/// (an incomplete last triple is not written), `full` writing each corner
/// with its normal and texture index.
pub open spec fn face_lines(idx: Seq<u32>, full: bool) -> Seq<char>
    decreases idx.len(),
{
    if idx.len() < 3 {
        Seq::empty()
    } else {
        tri_line(idx[0], idx[1], idx[2], full) + face_lines(idx.skip(3), full)
    }
}

/// An OBJ file with an object name, positions, normals and texture
/// coordinates per vertex, and the triangles (indices written 1-based,
/// with the same index for position, normal and texture).
pub open spec fn obj_text(
    name: Seq<char>,
    pos: Seq<Coords>,
    normals: Seq<Coords>,
    uvs: Seq<(String, String)>,
    idx: Seq<u32>,
) -> Seq<char> {
    "# physical-emit-obj\n"@ + "o "@ + name + seq!['\n'] + lines3("v"@, coords_view(pos)) + lines3("vn"@, coords_view(normals))
        + uv_lines(uvs) + face_lines(idx, true)
}

/// An OBJ file with positions and triangles only.
pub open spec fn obj_simple_text(pos: Seq<Coords>, idx: Seq<u32>) -> Seq<char> {
    "# physical-emit-obj\n"@ + lines3("v"@, coords_view(pos)) + face_lines(idx, false)
}

fn push_lines3(out: &mut String, key: &str, cs: &Vec<Coords>)
    ensures
        final(out)@ == old(out)@ + lines3(key@, coords_view(cs@)),
{
    let ghost o = out@;
    let ghost v = coords_view(cs@);
    let mut k: usize = 0;
    while k < cs.len()
        invariant
            k <= cs@.len(),
            v == coords_view(cs@),
            out@ == o + lines3(key@, v.take(k as int)),
        decreases cs.len() - k,
    {
        assert(v.take(k + 1).drop_last() =~= v.take(k as int));
        let c = &cs[k];
        let ghost before = out@;
        out.append(key);
        push_char(out, ' ');
        out.append(c.0.as_str());
        push_char(out, ' ');
        out.append(c.1.as_str());
        push_char(out, ' ');
        out.append(c.2.as_str());
        push_char(out, '\n');
        assert(out@ =~= before + line3(key@, c3(*c)));
        assert(out@ =~= o + lines3(key@, v.take(k + 1)));
        k = k + 1;
    }
    assert(v.take(cs@.len() as int) =~= v);
}

fn push_corner(out: &mut String, i: u32, full: bool)
    requires
        i < u32::MAX,
    ensures
        final(out)@ == old(out)@ + corner(i, full),
{
    let ghost o = out@;
    let n = (i + 1) as u64;
    push_dec(out, n);
    if full {
        push_char(out, '/');
        push_dec(out, n);
        push_char(out, '/');
        push_dec(out, n);
    }
    assert(out@ =~= o + corner(i, full));
}

fn push_tri_line(out: &mut String, a: u32, b: u32, c: u32, full: bool)
    requires
        a < u32::MAX,
        b < u32::MAX,
        c < u32::MAX,
    ensures
        final(out)@ == old(out)@ + tri_line(a, b, c, full),
{
    let ghost o = out@;
    out.append("f ");
    push_corner(out, a, full);
    push_char(out, ' ');
    push_corner(out, b, full);
    push_char(out, ' ');
    push_corner(out, c, full);
    push_char(out, '\n');
    assert(out@ =~= o + tri_line(a, b, c, full));
}

proof fn lemma_face_lines_step(idx: Seq<u32>, k: int, full: bool)
    requires
        0 <= k,
        k + 3 <= idx.len(),
    ensures
        face_lines(idx.skip(k), full) == tri_line(idx[k], idx[k + 1], idx[k + 2], full)
            + face_lines(idx.skip(k + 3), full),
{
    let rest = idx.skip(k);
    assert(rest.skip(3) =~= idx.skip(k + 3));
    assert(rest[0] == idx[k] && rest[1] == idx[k + 1] && rest[2] == idx[k + 2]);
}

fn push_face_lines(out: &mut String, idx: &Vec<u32>, full: bool)
    requires
        forall|i: int| 0 <= i < idx@.len() ==> #[trigger] idx@[i] < u32::MAX,
    ensures
        final(out)@ == old(out)@ + face_lines(idx@, full),
{
    let ghost o = out@;
    let n = idx.len();
    let mut k: usize = 0;
    assert(idx@.skip(0) =~= idx@);
    while n - k >= 3
        invariant
            n == idx@.len(),
            k <= n,
            forall|i: int| 0 <= i < idx@.len() ==> #[trigger] idx@[i] < u32::MAX,
            o + face_lines(idx@, full) == out@ + face_lines(idx@.skip(k as int), full),
        decreases n - k,
    {
        proof {
            lemma_face_lines_step(idx@, k as int, full);
        }
        push_tri_line(out, idx[k], idx[k + 1], idx[k + 2], full);
        assert(o + face_lines(idx@, full) =~= out@ + face_lines(idx@.skip(k + 3), full));
        k = k + 3;
    }
    assert(face_lines(idx@.skip(k as int), full) == Seq::<char>::empty());
    assert(out@ =~= o + face_lines(idx@, full));
}

/// Writes an OBJ file: `positions`, `normals` and `uvs` per vertex as
/// text, and the triangles of `indices` (an incomplete last triple is not
/// written).
pub fn write_obj_text(
    name: &str,
    positions: &Vec<Coords>,
    normals: &Vec<Coords>,
    uvs: &Vec<(String, String)>,
    indices: &Vec<u32>,
) -> (r: String)
    requires
        forall|i: int| 0 <= i < indices@.len() ==> #[trigger] indices@[i] < u32::MAX,
    ensures
        r@ == obj_text(name@, positions@, normals@, uvs@, indices@),
{
    let mut out = String::new();
    out.append("# physical-emit-obj\n");
    out.append("o ");
    out.append(name);
    push_char(&mut out, '\n');
    push_lines3(&mut out, "v", positions);
    push_lines3(&mut out, "vn", normals);
    let ghost before_uv = out@;
    let mut k: usize = 0;
    while k < uvs.len()
        invariant
            k <= uvs@.len(),
            out@ == before_uv + uv_lines(uvs@.take(k as int)),
        decreases uvs.len() - k,
    {
        assert(uvs@.take(k + 1).drop_last() =~= uvs@.take(k as int));
        out.append("vt ");
        out.append(uvs[k].0.as_str());
        push_char(&mut out, ' ');
        out.append(uvs[k].1.as_str());
        push_char(&mut out, '\n');
        assert(out@ =~= before_uv + uv_lines(uvs@.take(k + 1)));
        k = k + 1;
    }
    assert(uvs@.take(uvs@.len() as int) =~= uvs@);
    push_face_lines(&mut out, indices, true);
    assert(out@ =~= obj_text(name@, positions@, normals@, uvs@, indices@));
    out
}

/// Writes an OBJ file with positions and triangles only.
pub fn write_obj_simple_text(positions: &Vec<Coords>, indices: &Vec<u32>) -> (r: String)
    requires
        forall|i: int| 0 <= i < indices@.len() ==> #[trigger] indices@[i] < u32::MAX,
    ensures
        r@ == obj_simple_text(positions@, indices@),
{
    let mut out = String::new();
    out.append("# physical-emit-obj\n");
    push_lines3(&mut out, "v", positions);
    push_face_lines(&mut out, indices, false);
    assert(out@ =~= obj_simple_text(positions@, indices@));
    out
}

/// An MTL file with one material: ambient 0.1, the given diffuse colour,
/// no specular, opaque, illumination model 1.
pub open spec fn mtl_text(name: Seq<char>, rgb: (Seq<char>, Seq<char>, Seq<char>)) -> Seq<char> {
    "# physical-emit-obj material\nnewmtl "@ + name + "\nKa 0.1 0.1 0.1\n"@ + line3("Kd"@, rgb)
        + "Ks 0.0 0.0 0.0\nd 1.0\nillum 1\n"@
}

/// Writes an MTL file with one material of diffuse colour `rgb` (as text).
pub fn write_mtl_text(name: &str, rgb: &Coords) -> (r: String)
    ensures
        r@ == mtl_text(name@, c3(*rgb)),
{
    let mut out = String::new();
    out.append("# physical-emit-obj material\nnewmtl ");
    out.append(name);
    out.append("\nKa 0.1 0.1 0.1\n");
    out.append("Kd");
    push_char(&mut out, ' ');
    out.append(rgb.0.as_str());
    push_char(&mut out, ' ');
    out.append(rgb.1.as_str());
    push_char(&mut out, ' ');
    out.append(rgb.2.as_str());
    push_char(&mut out, '\n');
    out.append("Ks 0.0 0.0 0.0\nd 1.0\nillum 1\n");
    assert(out@ =~= mtl_text(name@, c3(*rgb)));
    out
}

/// The first line of `ls` from `i` with at least four words, the first of
/// them `Kd`: its next three words.
pub open spec fn first_kd_from(ls: Seq<Seq<char>>, i: int) -> Option<(Seq<char>, Seq<char>, Seq<char>)>
    decreases ls.len() - i,
{
    if i < 0 || i >= ls.len() {
        None
    } else if words(ls[i]).len() >= 4 && words(ls[i])[0] == "Kd"@ {
        Some((words(ls[i])[1], words(ls[i])[2], words(ls[i])[3]))
    } else {
        first_kd_from(ls, i + 1)
    }
}

/// The words of the diffuse colour of an MTL text: those after `Kd` on the
/// first line that has `Kd` and three more words.
pub fn first_kd_words(text: &str) -> (r: Option<Coords>)
    ensures
        match first_kd_from(trimmed_lines(text@), 0) {
            Some(t) => r is Some && c3(r->0) == t,
            None => r is None,
        },
{
    let ls = lines_of(text);
    let ghost lv = views(ls@);
    let mut i: usize = 0;
    while i < ls.len()
        invariant
            i <= ls@.len(),
            lv == views(ls@),
            lv == trimmed_lines(text@),
            first_kd_from(lv, i as int) == first_kd_from(lv, 0),
        decreases ls.len() - i,
    {
        let w = split_words(ls[i].as_str());
        if w.len() >= 4 && crate::strs::text_eq(w[0].as_str(), "Kd") {
            let r = (
                String::from_str(w[1].as_str()),
                String::from_str(w[2].as_str()),
                String::from_str(w[3].as_str()),
            );
            return Some(r);
        }
        i = i + 1;
    }
    None
}


// ---------------------------------------------------------------------------
// What the reader makes of a written corner
// ---------------------------------------------------------------------------

proof fn lemma_index_text(i: u32)
    requires
        i < u32::MAX,
    ensures
        parse_signed(dec(i as nat + 1)) == Some(i as int + 1),
        forall|k: int| 0 <= k < dec(i as nat + 1).len() ==> #[trigger] dec(i as nat + 1)[k] != '/',
{
    let d = dec(i as nat + 1);
    crate::text::lemma_dec_digits(i as nat + 1);
    crate::strs::lemma_dec_parse(i as nat + 1, i64::MAX as nat);
    assert(d[0] != '-');
    assert forall|k: int| 0 <= k < d.len() implies #[trigger] d[k] != '/' by {
        assert('0' <= d[k] <= '9');
    }
}

/// A corner the writer wrote reads back as the index it was written for:
/// as the position alone, or, written in full, as position, normal and
/// texture, when the index is in range of each list.
pub proof fn lemma_corner_roundtrip(i: u32, full: bool, np: int, nn: int, nt: int)
    requires
        i < u32::MAX,
        i < np,
        full ==> i < nn && i < nt,
    ensures
        face_vertex(corner(i, full), np, nn, nt)
            == (if full { Some((i as int, Some(i as int), Some(i as int))) } else { Some((i as int, None, None)) }),
{
    let d = dec(i as nat + 1);
    lemma_index_text(i);
    crate::strs::lemma_split_none(d, '/');
    if full {
        let a = d + seq!['/'];
        assert(a.drop_last() =~= d);
        assert(split_char(a, '/') == seq![d].push(Seq::<char>::empty()));
        crate::dxf_roundtrip::lemma_split_add_plain(a, d, '/');
        let b = a + d;
        assert(split_char(b, '/') =~= seq![d, d]);
        let c = b + seq!['/'];
        assert(c.drop_last() =~= b);
        assert(split_char(c, '/') == seq![d, d].push(Seq::<char>::empty()));
        crate::dxf_roundtrip::lemma_split_add_plain(c, d, '/');
        assert(corner(i, full) =~= c + d);
        let parts = split_char(corner(i, full), '/');
        assert(parts =~= seq![d, d, d]);
        assert(parts[1].len() > 0);
    }
}
} // verus!

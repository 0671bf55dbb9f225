//! Entities that the STEP writers share: points and directions, axis
//! placements, the surface entity of a face, and the geometry of one solid
//! (its points, its faces with their loops, bounds and surfaces, its shell
//! and its solid). Entity numbers come from a counter, in order; real
//! numbers travel as text.
use vstd::prelude::*;
use crate::text::{dec, push_dec, push_char};
use crate::step_write::{ref_text, refs_joined, push_ref, push_refs};

verus! {

/// Three numbers as text.
pub type Coords = (String, String, String);

/// The texts of three numbers.
pub open spec fn c3(c: Coords) -> (Seq<char>, Seq<char>, Seq<char>) {
    (c.0@, c.1@, c.2@)
}

/// An entity whose innermost list holds three numbers: its reference, the
/// text that opens it, the numbers separated by commas, and `));`.
pub open spec fn triple_line(id: nat, head: Seq<char>, c: (Seq<char>, Seq<char>, Seq<char>)) -> Seq<char> {
    ref_text(id) + head + c.0 + seq![','] + c.1 + seq![','] + c.2 + "));\n"@
}

pub open spec fn point_head() -> Seq<char> {
    "=CARTESIAN_POINT('',("@
}

pub open spec fn direction_head() -> Seq<char> {
    "=DIRECTION('',("@
}

/// A location with an axis and a reference direction, as text.
pub struct Placement3 {
    pub origin: Coords,
    pub axis: Coords,
    pub ref_dir: Coords,
}

/// The four entities of an axis placement numbered from `id`: its point,
/// its two directions, and the AXIS2_PLACEMENT_3D on them (number `id + 3`).
pub open spec fn placement_lines(
    id: nat,
    o: (Seq<char>, Seq<char>, Seq<char>),
    a: (Seq<char>, Seq<char>, Seq<char>),
    r: (Seq<char>, Seq<char>, Seq<char>),
) -> Seq<char> {
    triple_line(id, point_head(), o) + triple_line(id + 1, direction_head(), a)
        + triple_line(id + 2, direction_head(), r) + ref_text(id + 3) + "=AXIS2_PLACEMENT_3D('',"@
        + ref_text(id) + seq![','] + ref_text(id + 1) + seq![','] + ref_text(id + 2) + ");\n"@
}

pub open spec fn placement_text(id: nat, p: Placement3) -> Seq<char> {
    placement_lines(id, c3(p.origin), c3(p.axis), c3(p.ref_dir))
}

/// The unit axis `(0,0,1)` as the writers print it.
pub open spec fn z_axis_text() -> (Seq<char>, Seq<char>, Seq<char>) {
    ("0.000000"@, "0.000000"@, "1.000000"@)
}

/// The direction `(0,1,0)` that is perpendicular to `(0,0,1)`.
pub open spec fn y_axis_text() -> (Seq<char>, Seq<char>, Seq<char>) {
    ("0.000000"@, "1.000000"@, "0.000000"@)
}

/// The origin as the writers print it.
pub open spec fn origin_text() -> (Seq<char>, Seq<char>, Seq<char>) {
    ("0.000000"@, "0.000000"@, "0.000000"@)
}

/// Appends one entity with three numbers in its innermost list.
pub fn push_triple(out: &mut String, id: u64, head: &str, x: &str, y: &str, z: &str)
    ensures
        final(out)@ == old(out)@ + triple_line(id as nat, head@, (x@, y@, z@)),
{
    let ghost o = out@;
    push_ref(out, id);
    out.append(head);
    out.append(x);
    push_char(out, ',');
    out.append(y);
    push_char(out, ',');
    out.append(z);
    out.append("));\n");
    assert(out@ =~= o + triple_line(id as nat, head@, (x@, y@, z@)));
}

/// Appends an axis placement numbered from `id`.
pub fn push_placement_parts(
    out: &mut String,
    id: u64,
    o: (&str, &str, &str),
    a: (&str, &str, &str),
    r: (&str, &str, &str),
)
    requires
        id + 3 <= u64::MAX,
    ensures
        final(out)@ == old(out)@ + placement_lines(
            id as nat,
            (o.0@, o.1@, o.2@),
            (a.0@, a.1@, a.2@),
            (r.0@, r.1@, r.2@),
        ),
{
    let ghost s0 = out@;
    push_triple(out, id, "=CARTESIAN_POINT('',(", o.0, o.1, o.2);
    push_triple(out, id + 1, "=DIRECTION('',(", a.0, a.1, a.2);
    push_triple(out, id + 2, "=DIRECTION('',(", r.0, r.1, r.2);
    push_ref(out, id + 3);
    out.append("=AXIS2_PLACEMENT_3D('',");
    push_ref(out, id);
    push_char(out, ',');
    push_ref(out, id + 1);
    push_char(out, ',');
    push_ref(out, id + 2);
    out.append(");\n");
    assert(out@ =~= s0 + placement_lines(
        id as nat,
        (o.0@, o.1@, o.2@),
        (a.0@, a.1@, a.2@),
        (r.0@, r.1@, r.2@),
    ));
}

/// Appends the axis placement `p` numbered from `id`.
pub fn push_placement(out: &mut String, id: u64, p: &Placement3)
    requires
        id + 3 <= u64::MAX,
    ensures
        final(out)@ == old(out)@ + placement_text(id as nat, *p),
{
    push_placement_parts(
        out,
        id,
        (p.origin.0.as_str(), p.origin.1.as_str(), p.origin.2.as_str()),
        (p.axis.0.as_str(), p.axis.1.as_str(), p.axis.2.as_str()),
        (p.ref_dir.0.as_str(), p.ref_dir.1.as_str(), p.ref_dir.2.as_str()),
    );
}

/// Appends the placement at the origin with axis `(0,0,1)`.
pub fn push_identity_placement(out: &mut String, id: u64)
    requires
        id + 3 <= u64::MAX,
    ensures
        final(out)@ == old(out)@ + placement_lines(id as nat, origin_text(), z_axis_text(), y_axis_text()),
{
    push_placement_parts(
        out,
        id,
        ("0.000000", "0.000000", "0.000000"),
        ("0.000000", "0.000000", "1.000000"),
        ("0.000000", "1.000000", "0.000000"),
    );
}

/// A B-spline surface as text: its control points row by row, its degrees,
/// the knot multiplicities and distinct knot values in each direction, and
/// its weights where it is rational.
pub struct NurbsText {
    pub grid: Vec<Vec<Coords>>,
    pub degree_u: usize,
    pub degree_v: usize,
    pub u_mults: Vec<usize>,
    pub v_mults: Vec<usize>,
    pub u_knots: Vec<String>,
    pub v_knots: Vec<String>,
    pub weights: Option<Vec<Vec<String>>>,
}

/// The surface under a face, as text.
pub enum SurfaceText {
    Plane { at: Placement3 },
    Cylinder { at: Placement3, radius: String },
    Cone { at: Placement3, half_angle: String },
    Sphere { center: Coords, radius: String },
    Torus { at: Placement3, major_radius: String, minor_radius: String },
    Nurbs { surface: NurbsText },
}

/// The control points, row by row, as texts.
pub open spec fn grid_view(g: Seq<Vec<Coords>>) -> Seq<Seq<(Seq<char>, Seq<char>, Seq<char>)>> {
    g.map_values(|r: Vec<Coords>| r@.map_values(|c: Coords| c3(c)))
}

/// The number of control points.
pub open spec fn rows_count<T>(rows: Seq<Seq<T>>) -> nat
    decreases rows.len(),
{
    if rows.len() == 0 {
        0
    } else {
        rows_count(rows.drop_last()) + rows.last().len()
    }
}

/// Point entities for `pts`, numbered from `first`.
pub open spec fn points_text(pts: Seq<(Seq<char>, Seq<char>, Seq<char>)>, first: nat) -> Seq<char>
    decreases pts.len(),
{
    if pts.len() == 0 {
        Seq::empty()
    } else {
        points_text(pts.drop_last(), first) + triple_line((first + pts.len() - 1) as nat, point_head(), pts.last())
    }
}

/// Point entities for the control points, row by row, numbered from `start`.
pub open spec fn grid_points(start: nat, rows: Seq<Seq<(Seq<char>, Seq<char>, Seq<char>)>>) -> Seq<char>
    decreases rows.len(),
{
    if rows.len() == 0 {
        Seq::empty()
    } else {
        grid_points(start, rows.drop_last()) + points_text(rows.last(), start + rows_count(rows.drop_last()))
    }
}

/// `n` consecutive entity numbers from `a`.
pub open spec fn consecutive(a: nat, n: nat) -> Seq<nat> {
    Seq::new(n, |k: int| (a + k) as nat)
}

/// One row of references in parentheses.
pub open spec fn row_refs(a: nat, n: nat) -> Seq<char> {
    seq!['('] + refs_joined(consecutive(a, n)) + seq![')']
}

/// The control-point grid: each row's references in parentheses, the rows
/// separated by commas.
pub open spec fn grid_refs<T>(start: nat, rows: Seq<Seq<T>>) -> Seq<char>
    decreases rows.len(),
{
    if rows.len() == 0 {
        Seq::empty()
    } else if rows.len() == 1 {
        row_refs(start, rows[0].len())
    } else {
        grid_refs(start, rows.drop_last()) + seq![','] + row_refs(
            start + rows_count(rows.drop_last()),
            rows.last().len(),
        )
    }
}

/// Numbers in decimal, separated by commas.
pub open spec fn dec_list(v: Seq<usize>) -> Seq<char>
    decreases v.len(),
{
    if v.len() == 0 {
        Seq::empty()
    } else if v.len() == 1 {
        dec(v[0] as nat)
    } else {
        dec_list(v.drop_last()) + seq![','] + dec(v.last() as nat)
    }
}

/// Texts separated by commas.
pub open spec fn text_list(v: Seq<Seq<char>>) -> Seq<char>
    decreases v.len(),
{
    if v.len() == 0 {
        Seq::empty()
    } else if v.len() == 1 {
        v[0]
    } else {
        text_list(v.drop_last()) + seq![','] + v.last()
    }
}

pub open spec fn strings_view(v: Seq<String>) -> Seq<Seq<char>> {
    v.map_values(|s: String| s@)
}

/// The weights: each row's values in parentheses, the rows separated by
/// commas.
pub open spec fn weight_rows(w: Seq<Seq<Seq<char>>>) -> Seq<char>
    decreases w.len(),
{
    if w.len() == 0 {
        Seq::empty()
    } else if w.len() == 1 {
        seq!['('] + text_list(w[0]) + seq![')']
    } else {
        weight_rows(w.drop_last()) + seq![','] + seq!['('] + text_list(w.last()) + seq![')']
    }
}

pub open spec fn weights_view(w: Seq<Vec<String>>) -> Seq<Seq<Seq<char>>> {
    w.map_values(|r: Vec<String>| strings_view(r@))
}

/// What the plain and the rational B-spline entity share after their
/// first parameter: degrees, control-point grid, form flags, knot
/// multiplicities and knot values.
pub open spec fn nurbs_body(id: nat, n: NurbsText) -> Seq<char> {
    dec(n.degree_u as nat) + seq![','] + dec(n.degree_v as nat) + ",("@ + grid_refs(id, grid_view(n.grid@))
        + "),.UNSPECIFIED.,.F.,.F.,.F.,("@ + dec_list(n.u_mults@) + "),("@ + dec_list(n.v_mults@)
        + "),("@ + text_list(strings_view(n.u_knots@)) + seq![','] + text_list(strings_view(n.v_knots@))
        + "),.UNSPECIFIED."@
}

/// The B_SPLINE_SURFACE_WITH_KNOTS numbered `b` with the shared text
/// `body`, and for a rational surface a RATIONAL_B_SPLINE_SURFACE on it
/// (number `b + 1`) with the weights.
pub open spec fn bspline_lines(b: nat, body: Seq<char>, weights: Option<Vec<Vec<String>>>) -> Seq<char> {
    ref_text(b) + "=B_SPLINE_SURFACE_WITH_KNOTS('',"@ + body + ");\n"@ + match weights {
        Some(w) => ref_text(b + 1) + "=RATIONAL_B_SPLINE_SURFACE("@ + ref_text(b) + seq![','] + body + ",("@
            + weight_rows(weights_view(w@)) + "));\n"@,
        None => Seq::empty(),
    }
}

/// The entities of a B-spline surface numbered from `id`: the control
/// points, then the surface entities after them.
pub open spec fn nurbs_text(id: nat, n: NurbsText) -> Seq<char> {
    grid_points(id, grid_view(n.grid@)) + bspline_lines(
        id + rows_count(grid_view(n.grid@)),
        nurbs_body(id, n),
        n.weights,
    )
}

/// How many entity numbers a surface takes.
pub open spec fn surface_ids(s: SurfaceText) -> nat {
    match s {
        SurfaceText::Nurbs { surface } => rows_count(grid_view(surface.grid@)) + 1 + if surface.weights is Some {
            1nat
        } else {
            0nat
        },
        _ => 5,
    }
}

/// The last entity of an elementary surface, number `id + 4`, on the
/// placement `id + 3`: the entity's opening text, the placement's
/// reference, and the surface's own parameters.
pub open spec fn surface_line(id: nat, head: Seq<char>, params: Seq<char>) -> Seq<char> {
    ref_text(id + 4) + head + ref_text(id + 3) + params + ");\n"@
}

/// The surface entities numbered from `id`. The surface itself is the
/// last of them, number `id + surface_ids(s) - 1`.
pub open spec fn surface_text(id: nat, s: SurfaceText) -> Seq<char> {
    match s {
        SurfaceText::Plane { at } => placement_text(id, at) + surface_line(id, "=PLANE('',"@, Seq::empty()),
        SurfaceText::Cylinder { at, radius } => placement_text(id, at) + surface_line(
            id,
            "=CYLINDRICAL_SURFACE('',"@,
            seq![','] + radius@,
        ),
        SurfaceText::Cone { at, half_angle } => placement_text(id, at) + surface_line(
            id,
            "=CONICAL_SURFACE('',"@,
            ",0.0,"@ + half_angle@,
        ),
        SurfaceText::Sphere { center, radius } => placement_lines(id, c3(center), z_axis_text(), y_axis_text())
            + surface_line(id, "=SPHERICAL_SURFACE('',"@, seq![','] + radius@),
        SurfaceText::Torus { at, major_radius, minor_radius } => placement_text(id, at) + surface_line(
            id,
            "=TOROIDAL_SURFACE('',"@,
            seq![','] + major_radius@ + seq![','] + minor_radius@,
        ),
        SurfaceText::Nurbs { surface } => nurbs_text(id, surface),
    }
}

pub proof fn lemma_rows_count_prefix<T>(rows: Seq<Seq<T>>, k: int)
    requires
        0 <= k < rows.len(),
    ensures
        rows_count(rows.take(k)) + rows[k].len() <= rows_count(rows),
        rows_count(rows.take(k + 1)) == rows_count(rows.take(k)) + rows[k].len(),
    decreases rows.len(),
{
    assert(rows.take(k + 1).drop_last() =~= rows.take(k));
    if k + 1 < rows.len() {
        lemma_rows_count_prefix(rows.drop_last(), k);
        assert(rows.drop_last().take(k) =~= rows.take(k));
        assert(rows.drop_last().take(k + 1) =~= rows.take(k + 1));
    } else {
        assert(rows.take(k + 1) =~= rows);
    }
}


/// The texts of a list of coordinates.
pub open spec fn coords_view(v: Seq<Coords>) -> Seq<(Seq<char>, Seq<char>, Seq<char>)> {
    v.map_values(|c: Coords| c3(c))
}

/// Appends point entities for `pts`, numbered from `first`.
pub fn push_points(out: &mut String, pts: &Vec<Coords>, first: u64)
    requires
        first + pts@.len() <= u64::MAX,
    ensures
        final(out)@ == old(out)@ + points_text(coords_view(pts@), first as nat),
{
    let ghost v = coords_view(pts@);
    let ghost o = out@;
    let mut i: usize = 0;
    while i < pts.len()
        invariant
            i <= pts@.len(),
            first + pts@.len() <= u64::MAX,
            v == coords_view(pts@),
            out@ == o + points_text(v.take(i as int), first as nat),
        decreases pts.len() - i,
    {
        assert(v.take(i + 1).drop_last() =~= v.take(i as int));
        let p = &pts[i];
        push_triple(out, first + i as u64, "=CARTESIAN_POINT('',(", p.0.as_str(), p.1.as_str(), p.2.as_str());
        assert(out@ =~= o + points_text(v.take(i + 1), first as nat));
        i = i + 1;
    }
    assert(v.take(pts@.len() as int) =~= v);
}

/// Appends one row of `n` consecutive references from `a`, in parentheses.
fn push_row_refs(out: &mut String, a: u64, n: usize)
    requires
        a + n <= u64::MAX,
    ensures
        final(out)@ == old(out)@ + row_refs(a as nat, n as nat),
{
    let ghost o = out@;
    let mut ids: Vec<u64> = Vec::new();
    let mut k: usize = 0;
    while k < n
        invariant
            k <= n,
            a + n <= u64::MAX,
            ids@.len() == k,
            forall|j: int| 0 <= j < k ==> ids@[j] == a + j,
        decreases n - k,
    {
        ids.push(a + k as u64);
        k = k + 1;
    }
    assert(ids@.map_values(|i: u64| i as nat) =~= consecutive(a as nat, n as nat));
    push_char(out, '(');
    push_refs(out, &ids);
    push_char(out, ')');
    assert(out@ =~= o + row_refs(a as nat, n as nat));
}

/// Appends the point entities of the control points, row by row.
fn push_grid_points(out: &mut String, id: u64, grid: &Vec<Vec<Coords>>)
    requires
        id + rows_count(grid_view(grid@)) <= u64::MAX,
    ensures
        final(out)@ == old(out)@ + grid_points(id as nat, grid_view(grid@)),
{
    let ghost g = grid_view(grid@);
    let ghost o = out@;
    let mut c: u64 = id;
    let mut k: usize = 0;
    while k < grid.len()
        invariant
            k <= grid@.len(),
            g == grid_view(grid@),
            id + rows_count(g) <= u64::MAX,
            c == id + rows_count(g.take(k as int)),
            out@ == o + grid_points(id as nat, g.take(k as int)),
        decreases grid.len() - k,
    {
        proof {
            lemma_rows_count_prefix(g, k as int);
        }
        assert(g.take(k + 1).drop_last() =~= g.take(k as int));
        assert(g[k as int] == coords_view(grid@[k as int]@));
        push_points(out, &grid[k], c);
        c = c + grid[k].len() as u64;
        assert(out@ =~= o + grid_points(id as nat, g.take(k + 1)));
        k = k + 1;
    }
    assert(g.take(grid@.len() as int) =~= g);
}

/// Appends the control-point grid of references.
fn push_grid_refs(out: &mut String, id: u64, grid: &Vec<Vec<Coords>>)
    requires
        id + rows_count(grid_view(grid@)) <= u64::MAX,
    ensures
        final(out)@ == old(out)@ + grid_refs(id as nat, grid_view(grid@)),
{
    let ghost g = grid_view(grid@);
    let ghost o = out@;
    let mut c: u64 = id;
    let mut k: usize = 0;
    while k < grid.len()
        invariant
            k <= grid@.len(),
            g == grid_view(grid@),
            id + rows_count(g) <= u64::MAX,
            c == id + rows_count(g.take(k as int)),
            out@ == o + grid_refs(id as nat, g.take(k as int)),
        decreases grid.len() - k,
    {
        proof {
            lemma_rows_count_prefix(g, k as int);
        }
        assert(g.take(k + 1).drop_last() =~= g.take(k as int));
        assert(g[k as int].len() == grid@[k as int]@.len());
        if k > 0 {
            push_char(out, ',');
        }
        push_row_refs(out, c, grid[k].len());
        c = c + grid[k].len() as u64;
        assert(out@ =~= o + grid_refs(id as nat, g.take(k + 1)));
        k = k + 1;
    }
    assert(g.take(grid@.len() as int) =~= g);
}

/// Appends numbers in decimal, separated by commas.
fn push_dec_list(out: &mut String, v: &Vec<usize>)
    ensures
        final(out)@ == old(out)@ + dec_list(v@),
{
    let ghost o = out@;
    let mut k: usize = 0;
    while k < v.len()
        invariant
            k <= v@.len(),
            out@ == o + dec_list(v@.take(k as int)),
        decreases v.len() - k,
    {
        assert(v@.take(k + 1).drop_last() =~= v@.take(k as int));
        if k > 0 {
            push_char(out, ',');
        }
        push_dec(out, v[k] as u64);
        assert(out@ =~= o + dec_list(v@.take(k + 1)));
        k = k + 1;
    }
    assert(v@.take(v@.len() as int) =~= v@);
}

/// Appends texts separated by commas.
fn push_text_list(out: &mut String, v: &Vec<String>)
    ensures
        final(out)@ == old(out)@ + text_list(strings_view(v@)),
{
    let ghost o = out@;
    let ghost sv = strings_view(v@);
    let mut k: usize = 0;
    while k < v.len()
        invariant
            k <= v@.len(),
            sv == strings_view(v@),
            out@ == o + text_list(sv.take(k as int)),
        decreases v.len() - k,
    {
        assert(sv.take(k + 1).drop_last() =~= sv.take(k as int));
        if k > 0 {
            push_char(out, ',');
        }
        out.append(v[k].as_str());
        assert(out@ =~= o + text_list(sv.take(k + 1)));
        k = k + 1;
    }
    assert(sv.take(v@.len() as int) =~= sv);
}

/// Appends the weight rows.
fn push_weight_rows(out: &mut String, w: &Vec<Vec<String>>)
    ensures
        final(out)@ == old(out)@ + weight_rows(weights_view(w@)),
{
    let ghost o = out@;
    let ghost wv = weights_view(w@);
    let mut k: usize = 0;
    while k < w.len()
        invariant
            k <= w@.len(),
            wv == weights_view(w@),
            out@ == o + weight_rows(wv.take(k as int)),
        decreases w.len() - k,
    {
        assert(wv.take(k + 1).drop_last() =~= wv.take(k as int));
        if k > 0 {
            push_char(out, ',');
        }
        push_char(out, '(');
        push_text_list(out, &w[k]);
        push_char(out, ')');
        assert(out@ =~= o + weight_rows(wv.take(k + 1)));
        k = k + 1;
    }
    assert(wv.take(w@.len() as int) =~= wv);
}

/// The text that the plain and the rational B-spline entity share.
fn nurbs_body_string(id: u64, n: &NurbsText) -> (r: String)
    requires
        id + rows_count(grid_view(n.grid@)) <= u64::MAX,
    ensures
        r@ == nurbs_body(id as nat, *n),
{
    let mut s = String::new();
    push_dec(&mut s, n.degree_u as u64);
    push_char(&mut s, ',');
    push_dec(&mut s, n.degree_v as u64);
    s.append(",(");
    push_grid_refs(&mut s, id, &n.grid);
    s.append("),.UNSPECIFIED.,.F.,.F.,.F.,(");
    push_dec_list(&mut s, &n.u_mults);
    s.append("),(");
    push_dec_list(&mut s, &n.v_mults);
    s.append("),(");
    push_text_list(&mut s, &n.u_knots);
    push_char(&mut s, ',');
    push_text_list(&mut s, &n.v_knots);
    s.append("),.UNSPECIFIED.");
    assert(s@ =~= nurbs_body(id as nat, *n));
    s
}

/// Appends the B-spline surface entities numbered from `b`.
fn push_bspline_lines(out: &mut String, b: u64, body: &str, weights: &Option<Vec<Vec<String>>>)
    requires
        b + 1 <= u64::MAX,
    ensures
        final(out)@ == old(out)@ + bspline_lines(b as nat, body@, *weights),
{
    let ghost o = out@;
    push_ref(out, b);
    out.append("=B_SPLINE_SURFACE_WITH_KNOTS('',");
    out.append(body);
    out.append(");\n");
    let ghost mid = out@;
    match weights {
        Some(w) => {
            push_ref(out, b + 1);
            out.append("=RATIONAL_B_SPLINE_SURFACE(");
            push_ref(out, b);
            push_char(out, ',');
            out.append(body);
            out.append(",(");
            push_weight_rows(out, w);
            out.append("));\n");
        },
        None => {},
    }
    assert(out@ =~= o + bspline_lines(b as nat, body@, *weights));
}

/// The number of control points, counted row by row.
fn grid_len(id: u64, grid: &Vec<Vec<Coords>>) -> (b: u64)
    requires
        id + rows_count(grid_view(grid@)) <= u64::MAX,
    ensures
        b == id + rows_count(grid_view(grid@)),
{
    let ghost g = grid_view(grid@);
    let mut b: u64 = id;
    let mut k: usize = 0;
    while k < grid.len()
        invariant
            k <= grid@.len(),
            g == grid_view(grid@),
            id + rows_count(g) <= u64::MAX,
            b == id + rows_count(g.take(k as int)),
        decreases grid.len() - k,
    {
        proof {
            lemma_rows_count_prefix(g, k as int);
        }
        b = b + grid[k].len() as u64;
        k = k + 1;
    }
    assert(g.take(grid@.len() as int) =~= g);
    b
}

/// Appends the entities of a B-spline surface numbered from `id`.
fn push_nurbs(out: &mut String, id: u64, n: &NurbsText)
    requires
        id + rows_count(grid_view(n.grid@)) + 2 <= u64::MAX,
    ensures
        final(out)@ == old(out)@ + nurbs_text(id as nat, *n),
{
    let ghost o = out@;
    push_grid_points(out, id, &n.grid);
    let b = grid_len(id, &n.grid);
    let body = nurbs_body_string(id, n);
    push_bspline_lines(out, b, body.as_str(), &n.weights);
    assert(out@ =~= o + nurbs_text(id as nat, *n));
}

/// Appends the last entity of an elementary surface.
fn push_surface_line(out: &mut String, id: u64, head: &str, params: &str)
    requires
        id + 4 <= u64::MAX,
    ensures
        final(out)@ == old(out)@ + surface_line(id as nat, head@, params@),
{
    let ghost o = out@;
    push_ref(out, id + 4);
    out.append(head);
    push_ref(out, id + 3);
    out.append(params);
    out.append(");\n");
    assert(out@ =~= o + surface_line(id as nat, head@, params@));
}

/// `,` and a text.
fn comma_then(t: &str) -> (r: String)
    ensures
        r@ == seq![','] + t@,
{
    let mut s = String::new();
    push_char(&mut s, ',');
    s.append(t);
    assert(s@ =~= seq![','] + t@);
    s
}

/// Appends the entities of a face's surface numbered from `id`; gives the
/// number of the surface entity itself, the last of them.
pub fn push_surface(out: &mut String, id: u64, s: &SurfaceText) -> (r: u64)
    requires
        id + surface_ids(*s) + 1 <= u64::MAX,
    ensures
        final(out)@ == old(out)@ + surface_text(id as nat, *s),
        r == id + surface_ids(*s) - 1,
{
    let ghost o = out@;
    match s {
        SurfaceText::Plane { at } => {
            push_placement(out, id, at);
            push_surface_line(out, id, "=PLANE('',", "");
            assert(""@ =~= Seq::<char>::empty()) by {
                reveal_strlit("");
            }
        },
        SurfaceText::Cylinder { at, radius } => {
            push_placement(out, id, at);
            let p = comma_then(radius.as_str());
            push_surface_line(out, id, "=CYLINDRICAL_SURFACE('',", p.as_str());
        },
        SurfaceText::Cone { at, half_angle } => {
            push_placement(out, id, at);
            let mut p = String::new();
            p.append(",0.0,");
            p.append(half_angle.as_str());
            assert(p@ =~= ",0.0,"@ + half_angle@);
            push_surface_line(out, id, "=CONICAL_SURFACE('',", p.as_str());
        },
        SurfaceText::Sphere { center, radius } => {
            push_placement_parts(
                out,
                id,
                (center.0.as_str(), center.1.as_str(), center.2.as_str()),
                ("0.000000", "0.000000", "1.000000"),
                ("0.000000", "1.000000", "0.000000"),
            );
            let p = comma_then(radius.as_str());
            push_surface_line(out, id, "=SPHERICAL_SURFACE('',", p.as_str());
        },
        SurfaceText::Torus { at, major_radius, minor_radius } => {
            push_placement(out, id, at);
            let mut p = comma_then(major_radius.as_str());
            push_char(&mut p, ',');
            p.append(minor_radius.as_str());
            assert(p@ =~= seq![','] + major_radius@ + seq![','] + minor_radius@);
            push_surface_line(out, id, "=TOROIDAL_SURFACE('',", p.as_str());
        },
        SurfaceText::Nurbs { surface } => {
            push_nurbs(out, id, surface);
        },
    }
    assert(out@ =~= o + surface_text(id as nat, *s));
    surface_last(id, s)
}


/// A face: its corners as positions in the solid's point list, and the
/// surface it lies on.
pub struct FaceText {
    pub verts: Vec<usize>,
    pub surface: SurfaceText,
}

/// The point entities a face's loop refers to, when the points are
/// numbered from `pbase`.
pub open spec fn vert_refs(pbase: nat, verts: Seq<usize>) -> Seq<nat> {
    verts.map_values(|v: usize| (pbase + v) as nat)
}

/// How many entity numbers a face takes: its face, bound and loop, then
/// its surface.
pub open spec fn face_ids_taken(face: FaceText) -> nat {
    3 + surface_ids(face.surface)
}

/// The entities of a face whose ADVANCED_FACE is number `f`: the edge loop
/// on its corner points (`f + 2`), the outer bound on the loop (`f + 1`),
/// the surface entities (from `f + 3`), and the face on the bound and the
/// surface.
pub open spec fn face_block(f: nat, pbase: nat, face: FaceText) -> Seq<char> {
    face_head(f, vert_refs(pbase, face.verts@)) + surface_text(f + 3, face.surface) + face_tail(
        f,
        (f + 2 + surface_ids(face.surface)) as nat,
    )
}

/// The edge loop `f + 2` on the given points and the bound `f + 1` on it.
pub open spec fn face_head(f: nat, refs: Seq<nat>) -> Seq<char> {
    ref_text(f + 2) + "=EDGE_LOOP('', ("@ + refs_joined(refs) + ") );\n"@ + ref_text(f + 1)
        + "=FACE_OUTER_BOUND('',"@ + ref_text(f + 2) + ", .T.);\n"@
}

/// The ADVANCED_FACE `f` on the bound `f + 1` and the surface `sref`.
pub open spec fn face_tail(f: nat, sref: nat) -> Seq<char> {
    ref_text(f) + "=ADVANCED_FACE('',("@ + ref_text(f + 1) + "),"@ + ref_text(sref) + ",.T.);\n"@
}

/// The first entity number after the faces, numbered from `start`.
pub open spec fn faces_end(start: nat, fs: Seq<FaceText>) -> nat
    decreases fs.len(),
{
    if fs.len() == 0 {
        start
    } else {
        faces_end(start, fs.drop_last()) + face_ids_taken(fs.last())
    }
}

/// The entities of the faces, in order, numbered from `start`.
pub open spec fn faces_text(start: nat, pbase: nat, fs: Seq<FaceText>) -> Seq<char>
    decreases fs.len(),
{
    if fs.len() == 0 {
        Seq::empty()
    } else {
        faces_text(start, pbase, fs.drop_last()) + face_block(faces_end(start, fs.drop_last()), pbase, fs.last())
    }
}

/// The ADVANCED_FACE numbers, in order.
pub open spec fn face_numbers(start: nat, fs: Seq<FaceText>) -> Seq<nat> {
    Seq::new(fs.len(), |k: int| faces_end(start, fs.take(k)))
}

/// The geometry of a solid numbered from `b`: the solid is `b`, its shell
/// `b + 1`, its points follow from `b + 2`, then its faces; after them
/// the shell on the faces and the solid on the shell.
pub open spec fn geometry_text(
    b: nat,
    name: Seq<char>,
    pts: Seq<(Seq<char>, Seq<char>, Seq<char>)>,
    fs: Seq<FaceText>,
) -> Seq<char> {
    points_text(pts, b + 2) + faces_text(b + 2 + pts.len(), b + 2, fs) + ref_text(b + 1)
        + "=CLOSED_SHELL('', ("@ + refs_joined(face_numbers(b + 2 + pts.len(), fs)) + ") );\n"@ + ref_text(b)
        + "=MANIFOLD_SOLID_BREP('"@ + name + "',"@ + ref_text(b + 1) + ");\n"@
}

/// The first entity number after a solid's geometry.
pub open spec fn geometry_end(b: nat, np: nat, fs: Seq<FaceText>) -> nat {
    faces_end(b + 2 + np, fs)
}

/// Every corner of every face is one of the `np` points.
pub open spec fn corners_in_range(fs: Seq<FaceText>, np: nat) -> bool {
    forall|k: int, i: int| 0 <= k < fs.len() && 0 <= i < fs[k].verts@.len() ==> #[trigger] fs[k].verts@[i] < np
}

pub proof fn lemma_faces_end_prefix(start: nat, fs: Seq<FaceText>, k: int)
    requires
        0 <= k < fs.len(),
    ensures
        faces_end(start, fs.take(k + 1)) == faces_end(start, fs.take(k)) + face_ids_taken(fs[k]),
        faces_end(start, fs.take(k + 1)) <= faces_end(start, fs),
        start <= faces_end(start, fs.take(k)),
    decreases fs.len(),
{
    assert(fs.take(k + 1).drop_last() =~= fs.take(k));
    if k + 1 < fs.len() {
        lemma_faces_end_prefix(start, fs.drop_last(), k);
        assert(fs.drop_last().take(k) =~= fs.take(k));
        assert(fs.drop_last().take(k + 1) =~= fs.take(k + 1));
    } else {
        assert(fs.take(k + 1) =~= fs);
    }
    lemma_faces_end_ge(start, fs.take(k));
}

pub proof fn lemma_faces_end_ge(start: nat, fs: Seq<FaceText>)
    ensures
        start <= faces_end(start, fs),
    decreases fs.len(),
{
    if fs.len() > 0 {
        lemma_faces_end_ge(start, fs.drop_last());
    }
}

fn push_face_head(out: &mut String, f: u64, refs: &Vec<u64>)
    requires
        f + 2 <= u64::MAX,
    ensures
        final(out)@ == old(out)@ + face_head(f as nat, refs@.map_values(|r: u64| r as nat)),
{
    let ghost o = out@;
    push_ref(out, f + 2);
    out.append("=EDGE_LOOP('', (");
    push_refs(out, refs);
    out.append(") );\n");
    push_ref(out, f + 1);
    out.append("=FACE_OUTER_BOUND('',");
    push_ref(out, f + 2);
    out.append(", .T.);\n");
    assert(out@ =~= o + face_head(f as nat, refs@.map_values(|r: u64| r as nat)));
}

fn push_face_tail(out: &mut String, f: u64, sref: u64)
    requires
        f + 1 <= u64::MAX,
    ensures
        final(out)@ == old(out)@ + face_tail(f as nat, sref as nat),
{
    let ghost o = out@;
    push_ref(out, f);
    out.append("=ADVANCED_FACE('',(");
    push_ref(out, f + 1);
    out.append("),");
    push_ref(out, sref);
    out.append(",.T.);\n");
    assert(out@ =~= o + face_tail(f as nat, sref as nat));
}

/// Appends the entities of one face.
fn push_face_block(out: &mut String, f: u64, pbase: u64, face: &FaceText)
    requires
        f + face_ids_taken(*face) + 1 <= u64::MAX,
        forall|i: int| 0 <= i < face.verts@.len() ==> pbase + #[trigger] face.verts@[i] <= u64::MAX,
    ensures
        final(out)@ == old(out)@ + face_block(f as nat, pbase as nat, *face),
{
    let ghost o = out@;
    let mut refs: Vec<u64> = Vec::new();
    let mut i: usize = 0;
    while i < face.verts.len()
        invariant
            i <= face.verts@.len(),
            forall|j: int| 0 <= j < face.verts@.len() ==> pbase + #[trigger] face.verts@[j] <= u64::MAX,
            refs@.len() == i,
            forall|j: int| 0 <= j < i ==> refs@[j] == pbase + face.verts@[j],
        decreases face.verts.len() - i,
    {
        refs.push(pbase + face.verts[i] as u64);
        i = i + 1;
    }
    assert(refs@.map_values(|r: u64| r as nat) =~= vert_refs(pbase as nat, face.verts@));
    push_face_head(out, f, &refs);
    let ghost a = out@;
    let sref = push_surface(out, f + 3, &face.surface);
    let ghost b = out@;
    push_face_tail(out, f, sref);
    let ghost h = face_head(f as nat, vert_refs(pbase as nat, face.verts@));
    let ghost st = surface_text((f + 3) as nat, face.surface);
    let ghost t = face_tail(f as nat, sref as nat);
    assert(a == o + h);
    assert(b == a + st);
    assert(out@ == b + t);
    assert(out@ =~= o + (h + st + t));
}

/// The number of a surface's own entity when its entities start at `id`.
fn surface_last(id: u64, s: &SurfaceText) -> (r: u64)
    requires
        id + surface_ids(*s) <= u64::MAX,
    ensures
        r == id + surface_ids(*s) - 1,
{
    match s {
        SurfaceText::Nurbs { surface } => {
            let b = grid_len(id, &surface.grid);
            match &surface.weights {
                Some(_) => b + 1,
                None => b,
            }
        },
        _ => id + 4,
    }
}

/// Appends the entities of the faces numbered from `start`; gives their
/// ADVANCED_FACE numbers and the first number after them.
pub fn push_faces(out: &mut String, start: u64, pbase: u64, fs: &Vec<FaceText>, np: usize) -> (r: (Vec<u64>, u64))
    requires
        faces_end(start as nat, fs@) + 1 <= u64::MAX,
        pbase + np <= start,
        corners_in_range(fs@, np as nat),
    ensures
        final(out)@ == old(out)@ + faces_text(start as nat, pbase as nat, fs@),
        r.0@.map_values(|i: u64| i as nat) == face_numbers(start as nat, fs@),
        r.1 == faces_end(start as nat, fs@),
{
    let ghost o = out@;
    let mut ids: Vec<u64> = Vec::new();
    let mut f: u64 = start;
    let mut k: usize = 0;
    while k < fs.len()
        invariant
            k <= fs@.len(),
            faces_end(start as nat, fs@) + 1 <= u64::MAX,
            pbase + np <= start,
            corners_in_range(fs@, np as nat),
            f == faces_end(start as nat, fs@.take(k as int)),
            out@ == o + faces_text(start as nat, pbase as nat, fs@.take(k as int)),
            ids@.len() == k,
            forall|j: int| 0 <= j < k ==> ids@[j] == faces_end(start as nat, #[trigger] fs@.take(j)),
        decreases fs.len() - k,
    {
        proof {
            lemma_faces_end_prefix(start as nat, fs@, k as int);
        }
        assert(fs@.take(k + 1).drop_last() =~= fs@.take(k as int));
        assert(fs@.take(k + 1).last() == fs@[k as int]);
        assert forall|i: int| 0 <= i < fs@[k as int].verts@.len() implies pbase + #[trigger] fs@[k as int].verts@[i]
            <= u64::MAX by {
            assert(fs@[k as int].verts@[i] < np);
        }
        push_face_block(out, f, pbase, &fs[k]);
        ids.push(f);
        f = f + 3 + surface_count(&fs[k].surface);
        assert(out@ =~= o + faces_text(start as nat, pbase as nat, fs@.take(k + 1)));
        k = k + 1;
    }
    assert(fs@.take(fs@.len() as int) =~= fs@);
    assert(ids@.map_values(|i: u64| i as nat) =~= face_numbers(start as nat, fs@));
    (ids, f)
}

/// How many entity numbers a surface takes.
fn surface_count(s: &SurfaceText) -> (r: u64)
    requires
        surface_ids(*s) <= u64::MAX,
    ensures
        r == surface_ids(*s),
{
    match s {
        SurfaceText::Nurbs { surface } => {
            let b = grid_len(0, &surface.grid);
            match &surface.weights {
                Some(_) => b + 2,
                None => b + 1,
            }
        },
        _ => 5,
    }
}

/// Appends the geometry of a solid numbered from `b`; gives its
/// ADVANCED_FACE numbers and the first number after it.
pub fn push_geometry(out: &mut String, b: u64, name: &str, pts: &Vec<Coords>, fs: &Vec<FaceText>) -> (r: (
    Vec<u64>,
    u64,
))
    requires
        geometry_end(b as nat, pts@.len(), fs@) + 1 <= u64::MAX,
        corners_in_range(fs@, pts@.len()),
    ensures
        final(out)@ == old(out)@ + geometry_text(b as nat, name@, coords_view(pts@), fs@),
        r.0@.map_values(|i: u64| i as nat) == face_numbers((b + 2 + pts@.len()) as nat, fs@),
        r.1 == geometry_end(b as nat, pts@.len(), fs@),
{
    let ghost o = out@;
    proof {
        if fs@.len() > 0 {
            lemma_faces_end_prefix((b + 2 + pts@.len()) as nat, fs@, 0);
            assert(fs@.take(0) =~= Seq::<FaceText>::empty());
        }
    }
    push_points(out, pts, b + 2);
    let start = b + 2 + pts.len() as u64;
    let (ids, end) = push_faces(out, start, b + 2, fs, pts.len());
    push_ref(out, b + 1);
    out.append("=CLOSED_SHELL('', (");
    push_refs(out, &ids);
    out.append(") );\n");
    push_ref(out, b);
    out.append("=MANIFOLD_SOLID_BREP('");
    out.append(name);
    out.append("',");
    push_ref(out, b + 1);
    out.append(");\n");
    assert(out@ =~= o + geometry_text(b as nat, name@, coords_view(pts@), fs@));
    (ids, end)
}

} // verus!

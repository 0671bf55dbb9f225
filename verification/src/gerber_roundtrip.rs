//! What the Gerber reader's aperture parser gives back of an aperture
//! definition line the writer wrote: its D code, its shape and its
//! parameter texts.
use vstd::prelude::*;
use crate::strs::{trim, trim_start, trim_end, is_ws, trim_start_char, trim_end_char, split_char, starts_with, find, find_from, find_substr, lemma_dec_parse, lemma_split_none};
use crate::text::{dec, dec_int, lemma_dec_digits};
use crate::step_entities::strings_view;
use crate::dxf_roundtrip::lemma_split_add_plain;
use crate::gerber::{
    ApertureText, aperture_line, aperture_def_of, def_inner, def_fields, first_non_digit, trim_end_star_percent,
    x_joined, shape_letter_spec, lemma_shape_letter_roundtrip, xy_line, coord_text_after, coord_run_end,
    is_coord_char, action_of, has, GerberAction,
};

verus! {

/// Texts joined with `X` split at `X` give the texts back, when none holds
/// an `X`.
proof fn lemma_split_x_joined(ps: Seq<Seq<char>>)
    requires
        ps.len() > 0,
        forall|i: int, k: int| 0 <= i < ps.len() && 0 <= k < ps[i].len() ==> #[trigger] ps[i][k] != 'X',
    ensures
        split_char(x_joined(ps), 'X') == ps,
    decreases ps.len(),
{
    if ps.len() == 1 {
        assert(forall|k: int| 0 <= k < ps[0].len() ==> ps[0][k] != 'X');
        lemma_split_none(ps[0], 'X');
        assert(seq![ps[0]] =~= ps);
    } else {
        let d = ps.drop_last();
        let t = ps.last();
        assert forall|i: int, k: int| 0 <= i < d.len() && 0 <= k < d[i].len() implies #[trigger] d[i][k] != 'X' by {
            assert(d[i] == ps[i]);
        }
        lemma_split_x_joined(d);
        let a = x_joined(d) + seq!['X'];
        assert(a.drop_last() =~= x_joined(d));
        assert(split_char(a, 'X') == split_char(x_joined(d), 'X').push(Seq::<char>::empty()));
        assert(forall|k: int| 0 <= k < t.len() ==> t[k] != 'X') by {
            assert forall|k: int| 0 <= k < t.len() implies t[k] != 'X' by {
                assert(ps[ps.len() - 1][k] != 'X');
            }
        }
        lemma_split_add_plain(a, t, 'X');
        let p = d.push(Seq::<char>::empty());
        assert(p.update(p.len() - 1, p.last() + t) =~= ps);
        assert(x_joined(ps) == a + t);
    }
}

/// The first non-digit after a run of digits is where the run ends.
proof fn lemma_first_non_digit(s: Seq<char>, from: int, e: int)
    requires
        0 <= from <= e < s.len(),
        forall|k: int| from <= k < e ==> '0' <= #[trigger] s[k] <= '9',
        !('0' <= s[e] <= '9'),
    ensures
        first_non_digit(s, from) == Some(e),
    decreases e - from,
{
    if from < e {
        lemma_first_non_digit(s, from + 1, e);
    }
}

/// The `%ADD` line of an aperture without its line feed.
pub open spec fn aperture_def_text(a: ApertureText) -> Seq<char> {
    "%ADD"@ + dec(a.code as nat) + seq![shape_letter_spec(a.shape), ','] + x_joined(strings_view(a.params@)) + "*%"@
}

/// Parameter texts the definition line can carry: at least one, none
/// holding `X`, `*` or `%`, the first not beginning with a comma.
pub open spec fn plain_params(ps: Seq<Seq<char>>) -> bool {
    &&& ps.len() > 0
    &&& forall|i: int, k: int| 0 <= i < ps.len() && 0 <= k < ps[i].len() ==>
        #[trigger] ps[i][k] != 'X' && ps[i][k] != '*' && ps[i][k] != '%'
    &&& (ps[0].len() > 0 ==> ps[0][0] != ',')
}

proof fn lemma_joined_chars(ps: Seq<Seq<char>>)
    requires
        plain_params(ps),
    ensures
        forall|k: int| 0 <= k < x_joined(ps).len() ==> #[trigger] x_joined(ps)[k] != '*' && x_joined(ps)[k] != '%',
        x_joined(ps).len() > 0 ==> x_joined(ps)[0] != ',',
    decreases ps.len(),
{
    if ps.len() > 1 {
        let d = ps.drop_last();
        assert(plain_params(d)) by {
            assert forall|i: int, k: int| 0 <= i < d.len() && 0 <= k < d[i].len() implies
                #[trigger] d[i][k] != 'X' && d[i][k] != '*' && d[i][k] != '%' by {
                assert(d[i] == ps[i]);
            }
        }
        lemma_joined_chars(d);
        let t = ps.last();
        let j = x_joined(d) + seq!['X'] + t;
        assert(x_joined(ps) == j);
        assert forall|k: int| 0 <= k < j.len() implies #[trigger] j[k] != '*' && j[k] != '%' by {
            if k < x_joined(d).len() {
                assert(j[k] == x_joined(d)[k]);
            } else if k == x_joined(d).len() {
                assert(j[k] == 'X');
            } else {
                assert(j[k] == t[k - x_joined(d).len() - 1]);
                assert(ps[ps.len() - 1][k - x_joined(d).len() - 1] != '*');
            }
        }
        if x_joined(d).len() > 0 {
            assert(j[0] == x_joined(d)[0]);
        } else {
            assert(j[0] == 'X');
        }
    } else {
        assert(x_joined(ps) == ps[0]);
    }
}

/// The text after `ADD` of a definition the writer wrote.
pub open spec fn def_body(a: ApertureText) -> Seq<char> {
    dec(a.code as nat) + seq![shape_letter_spec(a.shape), ','] + x_joined(strings_view(a.params@))
}

#[verifier::spinoff_prover]
proof fn lemma_written_inner(a: ApertureText)
    requires
        plain_params(strings_view(a.params@)),
    ensures
        def_inner(trim(aperture_line(a))) == Some(def_body(a)),
{
    reveal_strlit("%ADD");
    reveal_strlit("*%");
    reveal_strlit("*%\n");
    reveal_strlit("ADD");
    let ps = strings_view(a.params@);
    let d = dec(a.code as nat);
    let letter = shape_letter_spec(a.shape);
    let xj = x_joined(ps);
    lemma_joined_chars(ps);
    let body = seq!['A', 'D', 'D'] + def_body(a);
    let l = aperture_def_text(a);
    assert(l =~= seq!['%'] + body + seq!['*', '%']);
    assert(aperture_line(a) =~= l + seq!['\n']);
    assert(!is_ws('%'));
    assert(trim_start(aperture_line(a)) == aperture_line(a));
    assert((l + seq!['\n']).drop_last() =~= l);
    assert(is_ws('\n'));
    assert(trim_end(l) == l);
    assert(trim(aperture_line(a)) == l);
    assert((seq!['%'] + body + seq!['*', '%']).drop_first() =~= body + seq!['*', '%']);
    assert(body[0] == 'A');
    assert(trim_start_char(body + seq!['*', '%'], '%') == body + seq!['*', '%']);
    assert(trim_start_char(l, '%') == body + seq!['*', '%']);
    let bs = body + seq!['*', '%'];
    assert(bs.subrange(0, bs.len() - 2) =~= body);
    let last = body[body.len() - 1];
    assert(last != '*' && last != '%') by {
        if xj.len() > 0 {
            assert(last == xj[xj.len() - 1]);
        } else {
            assert(last == ',');
        }
    }
    assert(trim_end_star_percent(body) == body);
    assert(trim_end_star_percent(bs) == body);
    assert(trim_end_char(body, '*') == body);
    assert(starts_with(body, "ADD"@)) by {
        assert(body.take(3) =~= "ADD"@);
    }
    assert(body.skip(3) =~= def_body(a));
}

#[verifier::spinoff_prover]
proof fn lemma_written_fields(a: ApertureText)
    requires
        plain_params(strings_view(a.params@)),
    ensures
        def_fields(def_body(a)) == Some((a.code, a.shape, strings_view(a.params@))),
{
    let ps = strings_view(a.params@);
    let d = dec(a.code as nat);
    let letter = shape_letter_spec(a.shape);
    let xj = x_joined(ps);
    lemma_joined_chars(ps);
    lemma_dec_digits(a.code as nat);
    let inner = def_body(a);
    let e = d.len() as int;
    assert(inner[e] == letter);
    assert(!('0' <= letter <= '9'));
    assert forall|k: int| 0 <= k < e implies '0' <= #[trigger] inner[k] <= '9' by {
        assert(inner[k] == d[k]);
    }
    lemma_first_non_digit(inner, 0, e);
    assert(inner.take(e) =~= d);
    lemma_dec_parse(a.code as nat, 0xffff_ffff);
    let rest = inner.skip(e);
    assert(rest =~= seq![letter, ','] + xj);
    lemma_shape_letter_roundtrip(a.shape);
    assert(rest.skip(2) =~= xj);
    assert(trim_start_char(xj, ',') == xj);
    assert forall|i: int, k: int| 0 <= i < ps.len() && 0 <= k < ps[i].len() implies #[trigger] ps[i][k] != 'X' by {
        assert(ps[i][k] != 'X' && ps[i][k] != '*' && ps[i][k] != '%');
    }
    lemma_split_x_joined(ps);
}

/// The aperture parser gives back the D code, the shape and the parameter
/// texts of an `%ADD` line the writer wrote, once the line is trimmed as
/// the reader trims it, provided there is at least one parameter, no
/// parameter holds `X`, `*` or `%`, and the first does not begin with a
/// comma.
pub proof fn lemma_aperture_roundtrip(a: ApertureText)
    requires
        plain_params(strings_view(a.params@)),
    ensures
        aperture_def_of(trim(aperture_line(a))) == Some((a.code, a.shape, strings_view(a.params@))),
{
    lemma_written_inner(a);
    lemma_written_fields(a);
}


// ---------------------------------------------------------------------------
// Coordinate lines
// ---------------------------------------------------------------------------

proof fn lemma_dec_int_chars(v: int)
    ensures
        dec_int(v).len() > 0,
        forall|k: int| 0 <= k < dec_int(v).len() ==> is_coord_char(#[trigger] dec_int(v)[k]),
{
    if v < 0 {
        lemma_dec_digits((-v) as nat);
        assert forall|k: int| 0 <= k < dec_int(v).len() implies is_coord_char(#[trigger] dec_int(v)[k]) by {
            if k > 0 {
                assert(dec_int(v)[k] == dec((-v) as nat)[k - 1]);
            }
        }
    } else {
        lemma_dec_digits(v as nat);
    }
}

proof fn lemma_run_end(s: Seq<char>, i: int, e: int)
    requires
        0 <= i <= e < s.len(),
        forall|k: int| i <= k < e ==> is_coord_char(#[trigger] s[k]),
        !is_coord_char(s[e]),
    ensures
        coord_run_end(s, i) == e,
    decreases e - i,
{
    if i < e {
        lemma_run_end(s, i + 1, e);
    }
}

proof fn lemma_find_first(s: Seq<char>, c: char, q: int)
    requires
        0 <= q < s.len(),
        s[q] == c,
        forall|k: int| 0 <= k < q ==> #[trigger] s[k] != c,
    ensures
        find(s, c) == Some(q),
{
    lemma_find_from_first(s, c, 0, q);
}

proof fn lemma_find_from_first(s: Seq<char>, c: char, from: int, q: int)
    requires
        0 <= from <= q < s.len(),
        s[q] == c,
        forall|k: int| from <= k < q ==> #[trigger] s[k] != c,
    ensures
        find_from(s, c, from) == Some(q),
    decreases q - from,
{
    if from < q {
        lemma_find_from_first(s, c, from + 1, q);
    }
}

/// The code the writer ends a coordinate line with for an action.
pub open spec fn op_code(a: GerberAction) -> Seq<char> {
    match a {
        GerberAction::Draw => "D01*\n"@,
        GerberAction::Move => "D02*\n"@,
        _ => "D03*\n"@,
    }
}

/// A `D0` code not in a text is not found: its `D` is the text's only one,
/// and what follows it differs.
proof fn lemma_code_absent(s: Seq<char>, p: int, code: Seq<char>)
    requires
        0 <= p,
        p + 3 <= s.len(),
        code.len() == 3,
        code[0] == 'D',
        forall|k: int| 0 <= k < s.len() && k != p ==> #[trigger] s[k] != 'D',
        s.subrange(p, p + 3) != code,
    ensures
        has(s, code) == false,
{
    if exists|i: int| 0 <= i && i + 3 <= s.len() && #[trigger] s.subrange(i, i + 3) == code {
        let i = choose|i: int| 0 <= i && i + 3 <= s.len() && #[trigger] s.subrange(i, i + 3) == code;
        assert(s.subrange(i, i + 3)[0] == s[i]);
    }
}

proof fn lemma_xy_layout(x: i64, y: i64, op: Seq<char>)
    requires
        op.len() == 5,
        op[0] == 'D',
    ensures
        xy_line(x, y, op) == seq!['X'] + dec_int(x as int) + seq!['Y'] + dec_int(y as int) + op,
        xy_line(x, y, op)[0] == 'X',
        xy_line(x, y, op)[dec_int(x as int).len() as int + 1] == 'Y',
        xy_line(x, y, op)[dec_int(x as int).len() + dec_int(y as int).len() as int + 2] == 'D',
        forall|k: int| 1 <= k < dec_int(x as int).len() + 1 ==> #[trigger] xy_line(x, y, op)[k] == dec_int(x as int)[k - 1],
        forall|k: int| dec_int(x as int).len() + 1 < k < dec_int(x as int).len() + dec_int(y as int).len() + 2
            ==> #[trigger] xy_line(x, y, op)[k] == dec_int(y as int)[k - dec_int(x as int).len() - 2],
        forall|k: int| dec_int(x as int).len() + dec_int(y as int).len() + 2 <= k < xy_line(x, y, op).len()
            ==> #[trigger] xy_line(x, y, op)[k] == op[k - dec_int(x as int).len() - dec_int(y as int).len() - 2],
        xy_line(x, y, op).len() == dec_int(x as int).len() + dec_int(y as int).len() + 7,
{
    let dx = dec_int(x as int);
    let dy = dec_int(y as int);
    assert(xy_line(x, y, op) =~= seq!['X'] + dx + seq!['Y'] + dy + op);
}

#[verifier::spinoff_prover]
proof fn lemma_xy_texts(x: i64, y: i64, op: Seq<char>)
    requires
        op.len() == 5,
        op[0] == 'D',
    ensures
        coord_text_after(xy_line(x, y, op), 'X') == Some(dec_int(x as int)),
        coord_text_after(xy_line(x, y, op), 'Y') == Some(dec_int(y as int)),
{
    let dx = dec_int(x as int);
    let dy = dec_int(y as int);
    lemma_dec_int_chars(x as int);
    lemma_dec_int_chars(y as int);
    lemma_xy_layout(x, y, op);
    let l = xy_line(x, y, op);
    let py = dx.len() as int + 1;
    let pd = py + dy.len() as int + 1;
    assert forall|k: int| 1 <= k < py implies is_coord_char(#[trigger] l[k]) by {
        assert(l[k] == dx[k - 1]);
    }
    lemma_run_end(l, 1, py);
    lemma_find_first(l, 'X', 0);
    assert(l.subrange(1, py) =~= dx);
    assert forall|k: int| 0 <= k < py implies #[trigger] l[k] != 'Y' by {
        if k > 0 {
            assert(l[k] == dx[k - 1]);
        }
    }
    lemma_find_first(l, 'Y', py);
    assert forall|k: int| py + 1 <= k < pd implies is_coord_char(#[trigger] l[k]) by {
        assert(l[k] == dy[k - py - 1]);
    }
    lemma_run_end(l, py + 1, pd);
    assert(l.subrange(py + 1, pd) =~= dy);
}

#[verifier::spinoff_prover]
proof fn lemma_xy_trimmed(x: i64, y: i64, op: Seq<char>)
    requires
        op.len() == 5,
        op[0] == 'D',
        op[3] == '*',
        op[4] == '\n',
    ensures
        xy_line(x, y, op).drop_last().len() == dec_int(x as int).len() + dec_int(y as int).len() + 6,
        trim(xy_line(x, y, op)) == xy_line(x, y, op).drop_last(),
        xy_line(x, y, op).drop_last().subrange(
            dec_int(x as int).len() + dec_int(y as int).len() as int + 2,
            dec_int(x as int).len() + dec_int(y as int).len() as int + 5,
        ) == op.subrange(0, 3),
{
    let dx = dec_int(x as int);
    let dy = dec_int(y as int);
    lemma_xy_layout(x, y, op);
    let l = xy_line(x, y, op);
    let pd = dx.len() as int + dy.len() as int + 2;
    let t = l.drop_last();
    assert(is_ws('\n'));
    assert(!is_ws('X'));
    assert(trim_start(l) == l);
    assert(l.last() == '\n');
    assert(t.last() == '*');
    assert(!is_ws('*'));
    assert(trim_end(t) == t);
    assert(t.subrange(pd, pd + 3) =~= op.subrange(0, 3));
}

#[verifier::spinoff_prover]
proof fn lemma_xy_one_d(x: i64, y: i64, op: Seq<char>)
    requires
        op.len() == 5,
        op[0] == 'D',
        forall|k: int| 1 <= k < 5 ==> #[trigger] op[k] != 'D',
    ensures
        forall|k: int| 0 <= k < xy_line(x, y, op).drop_last().len() && k != dec_int(x as int).len() + dec_int(y as int).len() + 2
            ==> #[trigger] xy_line(x, y, op).drop_last()[k] != 'D',
{
    let dx = dec_int(x as int);
    let dy = dec_int(y as int);
    lemma_dec_int_chars(x as int);
    lemma_dec_int_chars(y as int);
    lemma_xy_layout(x, y, op);
    let l = xy_line(x, y, op);
    let py = dx.len() as int + 1;
    let pd = py + dy.len() as int + 1;
    let t = l.drop_last();
    assert forall|k: int| 0 <= k < t.len() && k != pd implies #[trigger] t[k] != 'D' by {
        assert(t[k] == l[k]);
        if 1 <= k < py {
            assert(l[k] == dx[k - 1]);
        } else if py < k < pd {
            assert(l[k] == dy[k - py - 1]);
        } else if k > pd {
            assert(l[k] == op[k - pd]);
        }
    }
}

proof fn lemma_has_at(t: Seq<char>, p: int, code: Seq<char>)
    requires
        0 <= p,
        p + code.len() <= t.len(),
        t.subrange(p, p + code.len()) == code,
    ensures
        has(t, code),
{
}

#[verifier::spinoff_prover]
proof fn lemma_draw(t: Seq<char>, pd: int)
    requires
        0 <= pd,
        pd + 3 <= t.len(),
        t.subrange(pd, pd + 3) == "D01"@,
    ensures
        action_of(t) == GerberAction::Draw,
{
    reveal_strlit("D01");
    lemma_has_at(t, pd, "D01"@);
}

#[verifier::spinoff_prover]
proof fn lemma_move(t: Seq<char>, pd: int)
    requires
        0 <= pd,
        pd + 3 <= t.len(),
        forall|k: int| 0 <= k < t.len() && k != pd ==> #[trigger] t[k] != 'D',
        t.subrange(pd, pd + 3) == "D02"@,
    ensures
        action_of(t) == GerberAction::Move,
{
    reveal_strlit("D01");
    reveal_strlit("D02");
    assert(t.subrange(pd, pd + 3) != "D01"@) by {
        assert(t.subrange(pd, pd + 3)[2] == '2');
        assert("D01"@[2] == '1');
    }
    lemma_code_absent(t, pd, "D01"@);
    lemma_has_at(t, pd, "D02"@);
}

#[verifier::spinoff_prover]
proof fn lemma_flash(t: Seq<char>, pd: int)
    requires
        0 <= pd,
        pd + 3 <= t.len(),
        forall|k: int| 0 <= k < t.len() && k != pd ==> #[trigger] t[k] != 'D',
        t.subrange(pd, pd + 3) == "D03"@,
    ensures
        action_of(t) == GerberAction::Flash,
{
    reveal_strlit("D01");
    reveal_strlit("D02");
    reveal_strlit("D03");
    assert(t.subrange(pd, pd + 3) != "D01"@) by {
        assert(t.subrange(pd, pd + 3)[2] == '3');
        assert("D01"@[2] == '1');
    }
    assert(t.subrange(pd, pd + 3) != "D02"@) by {
        assert(t.subrange(pd, pd + 3)[2] == '3');
        assert("D02"@[2] == '2');
    }
    lemma_code_absent(t, pd, "D01"@);
    lemma_code_absent(t, pd, "D02"@);
    lemma_has_at(t, pd, "D03"@);
}

proof fn lemma_xy_draw_of(x: i64, y: i64, op: Seq<char>)
    requires
        op.len() == 5,
        op[0] == 'D',
        op[3] == '*',
        op[4] == '\n',
        op.subrange(0, 3) == "D01"@,
    ensures
        action_of(xy_line(x, y, op).drop_last()) == GerberAction::Draw,
{
    lemma_xy_trimmed(x, y, op);
    lemma_draw(xy_line(x, y, op).drop_last(), dec_int(x as int).len() + dec_int(y as int).len() as int + 2);
}

proof fn lemma_code_text(op: Seq<char>, code: Seq<char>)
    requires
        (op == "D01*\n"@ && code == "D01"@) || (op == "D02*\n"@ && code == "D02"@) || (op == "D03*\n"@ && code == "D03"@),
    ensures
        op.len() == 5,
        op[0] == 'D',
        op[3] == '*',
        op[4] == '\n',
        op.subrange(0, 3) == code,
        code.len() == 3,
        code[0] == 'D',
        forall|k: int| 1 <= k < 5 ==> #[trigger] op[k] != 'D',
{
    reveal_strlit("D01*\n");
    reveal_strlit("D02*\n");
    reveal_strlit("D03*\n");
    reveal_strlit("D01");
    reveal_strlit("D02");
    reveal_strlit("D03");
    assert(op.subrange(0, 3) =~= code);
}

proof fn lemma_move_of(x: i64, y: i64, op: Seq<char>)
    requires
        op.len() == 5,
        op[0] == 'D',
        op[3] == '*',
        op[4] == '\n',
        forall|k: int| 1 <= k < 5 ==> #[trigger] op[k] != 'D',
        op.subrange(0, 3) == "D02"@,
    ensures
        action_of(xy_line(x, y, op).drop_last()) == GerberAction::Move,
{
    lemma_xy_trimmed(x, y, op);
    lemma_xy_one_d(x, y, op);
    lemma_move(xy_line(x, y, op).drop_last(), dec_int(x as int).len() + dec_int(y as int).len() as int + 2);
}

proof fn lemma_flash_of(x: i64, y: i64, op: Seq<char>)
    requires
        op.len() == 5,
        op[0] == 'D',
        op[3] == '*',
        op[4] == '\n',
        forall|k: int| 1 <= k < 5 ==> #[trigger] op[k] != 'D',
        op.subrange(0, 3) == "D03"@,
    ensures
        action_of(xy_line(x, y, op).drop_last()) == GerberAction::Flash,
{
    lemma_xy_trimmed(x, y, op);
    lemma_xy_one_d(x, y, op);
    lemma_flash(xy_line(x, y, op).drop_last(), dec_int(x as int).len() + dec_int(y as int).len() as int + 2);
}

/// A coordinate line the writer wrote for a draw, a move or a flash gives
/// back, read, the text of its x and y values; the reader trims only its
/// line feed, and the trimmed line reads as that action.
pub proof fn lemma_xy_line_roundtrip(x: i64, y: i64, a: GerberAction)
    requires
        a != GerberAction::Nothing,
    ensures
        coord_text_after(xy_line(x, y, op_code(a)), 'X') == Some(dec_int(x as int)),
        coord_text_after(xy_line(x, y, op_code(a)), 'Y') == Some(dec_int(y as int)),
        trim(xy_line(x, y, op_code(a))) == xy_line(x, y, op_code(a)).drop_last(),
        action_of(xy_line(x, y, op_code(a)).drop_last()) == a,
{
    match a {
        GerberAction::Draw => {
            lemma_code_text(op_code(a), "D01"@);
            lemma_xy_draw_of(x, y, op_code(a));
        },
        GerberAction::Move => {
            lemma_code_text(op_code(a), "D02"@);
            lemma_move_of(x, y, op_code(a));
        },
        _ => {
            lemma_code_text(op_code(a), "D03"@);
            lemma_flash_of(x, y, op_code(a));
        },
    }
    lemma_xy_texts(x, y, op_code(a));
    lemma_xy_trimmed(x, y, op_code(a));
}

} // verus!

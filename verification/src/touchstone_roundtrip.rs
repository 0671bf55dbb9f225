//! What the Touchstone reader gives back of what the writer wrote: the
//! comments with the writer's own comment after them, the words of the
//! option line, and every point's frequency and value texts in order.
use vstd::prelude::*;
use crate::strs::{is_ws, trim, trim_start, trim_end, words, words_fold};
use crate::dxf::{join_lines, trimmed_lines, lemma_join_add};
use crate::dxf_roundtrip::{no_line_feed, lemma_trimmed_join};
use crate::touchstone::{
    TouchstoneView, OptionSettings, touchstone_read, touchstone_text, comment_lines, option_line, cells_text,
    data_lines, ts_fold, ts_step, empty_reading, default_settings, options_fold, impedance_words, unit_word,
    param_word, format_word,
};

verus! {

// ---------------------------------------------------------------------------
// Words
// ---------------------------------------------------------------------------

/// A non-empty text without whitespace.
pub open spec fn is_word(w: Seq<char>) -> bool {
    w.len() > 0 && forall|k: int| 0 <= k < w.len() ==> !is_ws(#[trigger] w[k])
}

/// A non-empty text of whitespace only.
pub open spec fn is_gap(w: Seq<char>) -> bool {
    w.len() > 0 && forall|k: int| 0 <= k < w.len() ==> is_ws(#[trigger] w[k])
}

proof fn lemma_fold_word(w: Seq<char>)
    requires
        forall|k: int| 0 <= k < w.len() ==> !is_ws(#[trigger] w[k]),
    ensures
        words_fold(w) == (Seq::<Seq<char>>::empty(), w),
    decreases w.len(),
{
    if w.len() > 0 {
        lemma_fold_word(w.drop_last());
        assert(w.drop_last().push(w.last()) =~= w);
    }
}

/// After a gap nothing is being read, and the words are those before it.
pub proof fn lemma_fold_gap(s: Seq<char>, g: Seq<char>)
    requires
        is_gap(g),
    ensures
        words_fold(s + g) == (words(s), Seq::<char>::empty()),
    decreases g.len(),
{
    assert((s + g).drop_last() =~= s + g.drop_last());
    assert((s + g).last() == g.last());
    assert(is_ws(g[g.len() - 1]));
    if g.len() == 1 {
        assert(s + g.drop_last() =~= s);
    } else {
        assert(is_gap(g.drop_last())) by {
            assert forall|k: int| 0 <= k < g.drop_last().len() implies is_ws(#[trigger] g.drop_last()[k]) by {
                assert(g.drop_last()[k] == g[k]);
            }
        }
        lemma_fold_gap(s, g.drop_last());
    }
}

/// Reading on from a point where no word is being read.
pub proof fn lemma_fold_append(s: Seq<char>, t: Seq<char>)
    requires
        words_fold(s).1.len() == 0,
    ensures
        words_fold(s + t) == (words_fold(s).0 + words_fold(t).0, words_fold(t).1),
    decreases t.len(),
{
    if t.len() == 0 {
        assert(s + t =~= s);
        assert(words_fold(s).0 + words_fold(t).0 =~= words_fold(s).0);
        assert(words_fold(s).1 =~= Seq::<char>::empty());
    } else {
        lemma_fold_append(s, t.drop_last());
        assert((s + t).drop_last() =~= s + t.drop_last());
        assert((s + t).last() == t.last());
        let (a, cur) = words_fold(t.drop_last());
        let w0 = words_fold(s).0;
        if is_ws(t.last()) {
            if cur.len() > 0 {
                assert((w0 + a).push(cur) =~= w0 + a.push(cur));
            }
        }
    }
}

/// A word after a gap is the next word.
pub proof fn lemma_words_gap_word(s: Seq<char>, g: Seq<char>, w: Seq<char>)
    requires
        is_gap(g),
        is_word(w),
    ensures
        words(s + g + w) == words(s).push(w),
{
    lemma_fold_gap(s, g);
    lemma_fold_append(s + g, w);
    lemma_fold_word(w);
    assert(words(s) + Seq::<Seq<char>>::empty() =~= words(s));
}

/// A word alone is one word.
pub proof fn lemma_words_word(w: Seq<char>)
    requires
        is_word(w),
    ensures
        words(w) == seq![w],
{
    lemma_fold_word(w);
    assert(Seq::<Seq<char>>::empty().push(w) =~= seq![w]);
}

// ---------------------------------------------------------------------------
// Trimming
// ---------------------------------------------------------------------------

/// A text that begins and ends with a character other than whitespace is
/// its own trim.
pub proof fn lemma_trim_fixed(s: Seq<char>)
    requires
        s.len() > 0,
        !is_ws(s[0]),
        !is_ws(s.last()),
    ensures
        trim(s) == s,
{
    assert(trim_start(s) == s);
    assert(trim_end(s) == s);
}

/// A leading space is trimmed away.
pub proof fn lemma_trim_space(s: Seq<char>)
    ensures
        trim(seq![' '] + s) == trim(s),
{
    let t = seq![' '] + s;
    assert(is_ws(' '));
    assert(t[0] == ' ');
    assert(t.drop_first() =~= s);
}


// ---------------------------------------------------------------------------
// The lines the writer writes
// ---------------------------------------------------------------------------

/// A text without a line feed.
pub open spec fn one_line(s: Seq<char>) -> bool {
    forall|k: int| 0 <= k < s.len() ==> #[trigger] s[k] != '\n'
}

pub proof fn lemma_one_line_add(a: Seq<char>, b: Seq<char>)
    requires
        one_line(a),
        one_line(b),
    ensures
        one_line(a + b),
{
    assert forall|k: int| 0 <= k < (a + b).len() implies #[trigger] (a + b)[k] != '\n' by {
        if k < a.len() {
            assert((a + b)[k] == a[k]);
        } else {
            assert((a + b)[k] == b[k - a.len()]);
        }
    }
}

pub proof fn lemma_word_one_line(w: Seq<char>)
    requires
        is_word(w),
    ensures
        one_line(w),
{
    assert forall|k: int| 0 <= k < w.len() implies #[trigger] w[k] != '\n' by {
        assert(!is_ws(w[k]));
        assert(is_ws('\n'));
    }
}

/// The comment lines as written, without their line feeds.
pub open spec fn comment_line_texts(cs: Seq<Seq<char>>) -> Seq<Seq<char>> {
    cs.map_values(|c: Seq<char>| "! "@ + c)
}

/// The option line without its line feed.
pub open spec fn option_text(o: OptionSettings, z0: Seq<char>) -> Seq<char> {
    "# "@ + unit_word(o.unit) + " "@ + param_word(o.param_type) + " "@ + format_word(o.format) + " R "@ + z0
}

/// A data line without its line feed.
pub open spec fn point_line(p: (Seq<char>, Seq<(Seq<char>, Seq<char>)>)) -> Seq<char> {
    p.0 + cells_text(p.1)
}

/// The data lines without their line feeds.
pub open spec fn point_line_texts(pts: Seq<(Seq<char>, Seq<(Seq<char>, Seq<char>)>)>) -> Seq<Seq<char>> {
    pts.map_values(|p: (Seq<char>, Seq<(Seq<char>, Seq<char>)>)| point_line(p))
}

/// The writer's closing comment line.
pub open spec fn closing_comment() -> Seq<char> {
    "! Generated by OpenIE"@
}

/// The lines the writer writes.
pub open spec fn written_lines(
    cs: Seq<Seq<char>>,
    o: OptionSettings,
    z0: Seq<char>,
    pts: Seq<(Seq<char>, Seq<(Seq<char>, Seq<char>)>)>,
) -> Seq<Seq<char>> {
    comment_line_texts(cs) + seq![closing_comment(), option_text(o, z0)] + point_line_texts(pts)
}

proof fn lemma_comment_join(cs: Seq<Seq<char>>)
    ensures
        comment_lines(cs) == join_lines(comment_line_texts(cs)),
    decreases cs.len(),
{
    if cs.len() > 0 {
        lemma_comment_join(cs.drop_last());
        assert(comment_line_texts(cs).drop_last() =~= comment_line_texts(cs.drop_last()));
        reveal_strlit("\n");
        assert(comment_lines(cs) =~= join_lines(comment_line_texts(cs)));
    }
}

proof fn lemma_data_join(pts: Seq<(Seq<char>, Seq<(Seq<char>, Seq<char>)>)>)
    ensures
        data_lines(pts) == join_lines(point_line_texts(pts)),
    decreases pts.len(),
{
    if pts.len() > 0 {
        lemma_data_join(pts.drop_last());
        assert(point_line_texts(pts).drop_last() =~= point_line_texts(pts.drop_last()));
        reveal_strlit("\n");
        assert(data_lines(pts) =~= join_lines(point_line_texts(pts)));
    }
}

/// The written text is the written lines, each ended by a line feed.
proof fn lemma_text_is_lines(
    cs: Seq<Seq<char>>,
    o: OptionSettings,
    z0: Seq<char>,
    pts: Seq<(Seq<char>, Seq<(Seq<char>, Seq<char>)>)>,
)
    ensures
        touchstone_text(cs, o, z0, pts) == join_lines(written_lines(cs, o, z0, pts)),
{
    let a = comment_line_texts(cs);
    let m = seq![closing_comment(), option_text(o, z0)];
    let b = point_line_texts(pts);
    lemma_join_add(a + m, b);
    lemma_join_add(a, m);
    lemma_comment_join(cs);
    lemma_data_join(pts);
    assert(m.drop_last() =~= seq![closing_comment()]);
    assert(seq![closing_comment()].drop_last() =~= Seq::<Seq<char>>::empty());
    reveal_strlit("\n");
    reveal_strlit("! Generated by OpenIE");
    reveal_strlit("! Generated by OpenIE\n");
    let one = seq![closing_comment()];
    assert(one.drop_last() =~= Seq::<Seq<char>>::empty());
    assert(join_lines(one.drop_last()) == Seq::<char>::empty());
    assert(join_lines(one) == join_lines(one.drop_last()) + one.last() + seq!['\n']);
    assert(join_lines(one) =~= closing_comment() + seq!['\n']);
    assert(join_lines(m) == join_lines(seq![closing_comment()]) + option_text(o, z0) + seq!['\n']);
    assert(join_lines(m) =~= "! Generated by OpenIE\n"@ + option_line(o, z0));
    assert(touchstone_text(cs, o, z0, pts) =~= join_lines(a) + join_lines(m) + join_lines(b));
}


// ---------------------------------------------------------------------------
// Each written line as the reader sees it
// ---------------------------------------------------------------------------

/// A comment the writer can write so that it reads back: one line, empty
/// or beginning and ending with a character other than whitespace.
pub open spec fn plain_comment(c: Seq<char>) -> bool {
    one_line(c) && (c.len() == 0 || (!is_ws(c[0]) && !is_ws(c.last())))
}

/// A comment line, trimmed, is a `!` line whose rest trims to the comment.
proof fn lemma_comment_read(c: Seq<char>)
    requires
        plain_comment(c),
    ensures
        trim("! "@ + c).len() > 0,
        trim("! "@ + c)[0] == '!',
        trim(trim("! "@ + c).drop_first()) == c,
{
    reveal_strlit("! ");
    let l = "! "@ + c;
    assert(l[0] == '!');
    assert(!is_ws('!'));
    if c.len() == 0 {
        assert(l =~= "! "@);
        assert(trim_start(l) == l);
        assert(is_ws(l.last()));
        assert(l.drop_last() =~= seq!['!']);
        assert(trim_end(seq!['!']) == seq!['!']);
        assert(trim(l) == seq!['!']);
        assert(seq!['!'].drop_first() =~= Seq::<char>::empty());
        assert(trim_start(Seq::<char>::empty()) == Seq::<char>::empty());
        assert(trim_end(Seq::<char>::empty()) == Seq::<char>::empty());
    } else {
        assert(l.last() == c.last());
        lemma_trim_fixed(l);
        assert(l.drop_first() =~= seq![' '] + c);
        lemma_trim_space(c);
        lemma_trim_fixed(c);
    }
}

/// The closing comment reads back as `Generated by OpenIE`.
proof fn lemma_closing_read()
    ensures
        trim(closing_comment()).len() > 0,
        trim(closing_comment())[0] == '!',
        trim(trim(closing_comment()).drop_first()) == "Generated by OpenIE"@,
{
    reveal_strlit("! Generated by OpenIE");
    reveal_strlit("Generated by OpenIE");
    let l = closing_comment();
    assert(!is_ws(l[0]));
    assert(!is_ws(l.last()));
    lemma_trim_fixed(l);
    let g = "Generated by OpenIE"@;
    assert(l.drop_first() =~= seq![' '] + g);
    lemma_trim_space(g);
    assert(!is_ws(g[0]));
    assert(!is_ws(g.last()));
    lemma_trim_fixed(g);
}

/// The words the writer puts on the option line.
pub open spec fn option_words(o: OptionSettings, z0: Seq<char>) -> Seq<Seq<char>> {
    seq![unit_word(o.unit), param_word(o.param_type), format_word(o.format), "R"@, z0]
}

proof fn lemma_option_literals(o: OptionSettings)
    ensures
        is_word(unit_word(o.unit)),
        is_word(param_word(o.param_type)),
        is_word(format_word(o.format)),
        is_word("R"@),
        is_gap(" "@),
        "# "@ == seq!['#'] + " "@,
        " R "@ == " "@ + "R"@ + " "@,
{
    reveal_strlit("HZ");
    reveal_strlit("KHZ");
    reveal_strlit("MHZ");
    reveal_strlit("GHZ");
    reveal_strlit("S");
    reveal_strlit("Y");
    reveal_strlit("Z");
    reveal_strlit("H");
    reveal_strlit("G");
    reveal_strlit("MA");
    reveal_strlit("DB");
    reveal_strlit("RI");
    reveal_strlit("R");
    reveal_strlit(" ");
    reveal_strlit("# ");
    reveal_strlit(" R ");
    assert("# "@ =~= seq!['#'] + " "@);
    assert(" R "@ =~= " "@ + "R"@ + " "@);
}

/// The option line, trimmed, is a `#` line whose rest holds the option words.
proof fn lemma_option_read(o: OptionSettings, z0: Seq<char>)
    requires
        is_word(z0),
    ensures
        trim(option_text(o, z0)).len() > 0,
        trim(option_text(o, z0))[0] == '#',
        words(trim(option_text(o, z0)).drop_first()) == option_words(o, z0),
{
    lemma_option_literals(o);
    let u = unit_word(o.unit);
    let p = param_word(o.param_type);
    let f = format_word(o.format);
    let sp = " "@;
    let l = option_text(o, z0);
    assert(l =~= seq!['#'] + sp + u + sp + p + sp + f + sp + "R"@ + sp + z0);
    assert(!is_ws('#'));
    assert(l.last() == z0.last());
    lemma_trim_fixed(l);
    let e = Seq::<char>::empty();
    assert(l.drop_first() =~= e + sp + u + sp + p + sp + f + sp + "R"@ + sp + z0);
    assert(words(e) =~= Seq::<Seq<char>>::empty());
    lemma_words_gap_word(e, sp, u);
    lemma_words_gap_word(e + sp + u, sp, p);
    lemma_words_gap_word(e + sp + u + sp + p, sp, f);
    lemma_words_gap_word(e + sp + u + sp + p + sp + f, sp, "R"@);
    lemma_words_gap_word(e + sp + u + sp + p + sp + f + sp + "R"@, sp, z0);
    assert(words(l.drop_first()) =~= option_words(o, z0));
}

/// The words of a written point: its frequency, then each pair's two values.
pub open spec fn cell_words(cells: Seq<(Seq<char>, Seq<char>)>) -> Seq<Seq<char>>
    decreases cells.len(),
{
    if cells.len() == 0 {
        Seq::empty()
    } else {
        cell_words(cells.drop_last()).push(cells.last().0).push(cells.last().1)
    }
}

pub open spec fn point_words(p: (Seq<char>, Seq<(Seq<char>, Seq<char>)>)) -> Seq<Seq<char>> {
    seq![p.0] + cell_words(p.1)
}

/// A point the writer can write so that it reads back: every text a word,
/// the frequency not beginning with `!` or `#`.
pub open spec fn plain_point(p: (Seq<char>, Seq<(Seq<char>, Seq<char>)>)) -> bool {
    &&& is_word(p.0)
    &&& p.0[0] != '!'
    &&& p.0[0] != '#'
    &&& forall|j: int| 0 <= j < p.1.len() ==> is_word((#[trigger] p.1[j]).0) && is_word(p.1[j].1)
}

proof fn lemma_cells_read(f: Seq<char>, cells: Seq<(Seq<char>, Seq<char>)>)
    requires
        is_word(f),
        forall|j: int| 0 <= j < cells.len() ==> is_word((#[trigger] cells[j]).0) && is_word(cells[j].1),
    ensures
        one_line(f + cells_text(cells)),
        (f + cells_text(cells))[0] == f[0],
        !is_ws((f + cells_text(cells)).last()),
        words(f + cells_text(cells)) == seq![f] + cell_words(cells),
    decreases cells.len(),
{
    reveal_strlit("  ");
    let sp2 = "  "@;
    assert(is_gap(sp2));
    assert(one_line(sp2));
    if cells.len() == 0 {
        assert(f + cells_text(cells) =~= f);
        lemma_word_one_line(f);
        lemma_words_word(f);
        assert(seq![f] + cell_words(cells) =~= seq![f]);
    } else {
        let d = cells.drop_last();
        assert forall|j: int| 0 <= j < d.len() implies is_word((#[trigger] d[j]).0) && is_word(d[j].1) by {
            assert(d[j] == cells[j]);
        }
        lemma_cells_read(f, d);
        let x = f + cells_text(d);
        let a = cells.last().0;
        let b = cells.last().1;
        assert(is_word(cells[cells.len() - 1].0) && is_word(cells[cells.len() - 1].1));
        assert(f + cells_text(cells) =~= x + sp2 + a + sp2 + b);
        lemma_words_gap_word(x, sp2, a);
        lemma_words_gap_word(x + sp2 + a, sp2, b);
        assert(words(f + cells_text(cells)) =~= seq![f] + cell_words(cells));
        lemma_word_one_line(a);
        lemma_word_one_line(b);
        lemma_one_line_add(x, sp2);
        lemma_one_line_add(x + sp2, a);
        lemma_one_line_add(x + sp2 + a, sp2);
        lemma_one_line_add(x + sp2 + a + sp2, b);
        assert((x + sp2 + a + sp2 + b).last() == b.last());
        assert(!is_ws(b[b.len() - 1]));
        assert((x + sp2 + a + sp2 + b)[0] == x[0]);
    }
}

/// A data line, trimmed, is itself, and holds the point's words.
proof fn lemma_point_read(p: (Seq<char>, Seq<(Seq<char>, Seq<char>)>))
    requires
        plain_point(p),
    ensures
        one_line(point_line(p)),
        trim(point_line(p)) == point_line(p),
        point_line(p).len() > 0,
        point_line(p)[0] != '!',
        point_line(p)[0] != '#',
        words(point_line(p)) == point_words(p),
{
    lemma_cells_read(p.0, p.1);
    assert(!is_ws(p.0[0]));
    lemma_trim_fixed(point_line(p));
}


// ---------------------------------------------------------------------------
// Reading the written lines
// ---------------------------------------------------------------------------

proof fn lemma_fold_push(ls: Seq<Seq<char>>, l: Seq<char>)
    ensures
        ts_fold(ls.push(l)) == ts_step(ts_fold(ls), l),
{
    assert(ls.push(l).drop_last() =~= ls);
}

proof fn lemma_fold_comments(cs: Seq<Seq<char>>)
    requires
        forall|i: int| 0 <= i < cs.len() ==> plain_comment(#[trigger] cs[i]),
    ensures
        ts_fold(comment_line_texts(cs).map_values(|l: Seq<char>| trim(l)))
            == (TouchstoneView { comments: cs, ..empty_reading() }),
    decreases cs.len(),
{
    let m = comment_line_texts(cs).map_values(|l: Seq<char>| trim(l));
    if cs.len() == 0 {
        assert(m =~= Seq::<Seq<char>>::empty());
        assert((TouchstoneView { comments: cs, ..empty_reading() }) =~= empty_reading());
    } else {
        let d = cs.drop_last();
        assert forall|i: int| 0 <= i < d.len() implies plain_comment(#[trigger] d[i]) by {
            assert(d[i] == cs[i]);
        }
        lemma_fold_comments(d);
        let md = comment_line_texts(d).map_values(|l: Seq<char>| trim(l));
        assert(m =~= md.push(trim("! "@ + cs.last())));
        lemma_fold_push(md, trim("! "@ + cs.last()));
        assert(plain_comment(cs[cs.len() - 1]));
        lemma_comment_read(cs.last());
        assert(d.push(cs.last()) =~= cs);
    }
}

proof fn lemma_fold_points(pre: Seq<Seq<char>>, pts: Seq<(Seq<char>, Seq<(Seq<char>, Seq<char>)>)>)
    requires
        forall|i: int| 0 <= i < pts.len() ==> plain_point(#[trigger] pts[i]),
    ensures
        ts_fold(pre + point_line_texts(pts)) == (TouchstoneView {
            data: ts_fold(pre).data + pts.map_values(|p: (Seq<char>, Seq<(Seq<char>, Seq<char>)>)| point_words(p)),
            ..ts_fold(pre)
        }),
    decreases pts.len(),
{
    let v = ts_fold(pre);
    if pts.len() == 0 {
        assert(pre + point_line_texts(pts) =~= pre);
        assert((TouchstoneView {
            data: v.data + pts.map_values(|p: (Seq<char>, Seq<(Seq<char>, Seq<char>)>)| point_words(p)),
            ..v
        }) =~= v);
    } else {
        let d = pts.drop_last();
        assert forall|i: int| 0 <= i < d.len() implies plain_point(#[trigger] d[i]) by {
            assert(d[i] == pts[i]);
        }
        lemma_fold_points(pre, d);
        let q = pts.last();
        assert(plain_point(pts[pts.len() - 1]));
        lemma_point_read(q);
        assert(pre + point_line_texts(pts) =~= (pre + point_line_texts(d)).push(point_line(q)));
        lemma_fold_push(pre + point_line_texts(d), point_line(q));
        assert(v.data + pts.map_values(|p: (Seq<char>, Seq<(Seq<char>, Seq<char>)>)| point_words(p))
            =~= (v.data + d.map_values(|p: (Seq<char>, Seq<(Seq<char>, Seq<char>)>)| point_words(p))).push(point_words(q)));
    }
}

proof fn lemma_written_one_line(
    cs: Seq<Seq<char>>,
    o: OptionSettings,
    z0: Seq<char>,
    pts: Seq<(Seq<char>, Seq<(Seq<char>, Seq<char>)>)>,
)
    requires
        forall|i: int| 0 <= i < cs.len() ==> plain_comment(#[trigger] cs[i]),
        is_word(z0),
        forall|i: int| 0 <= i < pts.len() ==> plain_point(#[trigger] pts[i]),
    ensures
        no_line_feed(written_lines(cs, o, z0, pts)),
{
    let ls = written_lines(cs, o, z0, pts);
    let nc = cs.len();
    reveal_strlit("! ");
    reveal_strlit("! Generated by OpenIE");
    assert(one_line("! "@));
    assert(one_line(closing_comment()));
    lemma_option_literals(o);
    let sp = " "@;
    reveal_strlit(" ");
    assert(one_line(sp));
    assert(one_line(seq!['#']));
    lemma_word_one_line(unit_word(o.unit));
    lemma_word_one_line(param_word(o.param_type));
    lemma_word_one_line(format_word(o.format));
    lemma_word_one_line("R"@);
    lemma_word_one_line(z0);
    let u = unit_word(o.unit);
    let p = param_word(o.param_type);
    let f = format_word(o.format);
    lemma_one_line_add(seq!['#'], sp);
    lemma_one_line_add(seq!['#'] + sp, u);
    lemma_one_line_add(seq!['#'] + sp + u, sp);
    lemma_one_line_add(seq!['#'] + sp + u + sp, p);
    lemma_one_line_add(seq!['#'] + sp + u + sp + p, sp);
    lemma_one_line_add(seq!['#'] + sp + u + sp + p + sp, f);
    lemma_one_line_add(seq!['#'] + sp + u + sp + p + sp + f, sp);
    lemma_one_line_add(seq!['#'] + sp + u + sp + p + sp + f + sp, "R"@);
    lemma_one_line_add(seq!['#'] + sp + u + sp + p + sp + f + sp + "R"@, sp);
    lemma_one_line_add(seq!['#'] + sp + u + sp + p + sp + f + sp + "R"@ + sp, z0);
    assert(option_text(o, z0) =~= seq!['#'] + sp + u + sp + p + sp + f + sp + "R"@ + sp + z0);
    assert forall|i: int, k: int| 0 <= i < ls.len() && 0 <= k < ls[i].len() implies #[trigger] ls[i][k] != '\n' by {
        if i < nc {
            assert(ls[i] == "! "@ + cs[i]);
            assert(plain_comment(cs[i]));
            lemma_one_line_add("! "@, cs[i]);
        } else if i == nc {
            assert(ls[i] == closing_comment());
        } else if i == nc + 1 {
            assert(ls[i] == option_text(o, z0));
        } else {
            assert(ls[i] == point_line(pts[i - nc - 2]));
            assert(plain_point(pts[i - nc - 2]));
            lemma_point_read(pts[i - nc - 2]);
        }
    }
}

/// Reading back a written file gives the comments that were written with
/// the writer's own comment after them, the settings and impedance
/// candidates that the option line's words give, and each point's
/// frequency and value texts in order, provided each comment is one line
/// that begins and ends with a non-whitespace character (or is empty),
/// the impedance and every number text is a single word, and no frequency
/// begins with `!` or `#`.
pub proof fn lemma_touchstone_roundtrip(
    cs: Seq<Seq<char>>,
    o: OptionSettings,
    z0: Seq<char>,
    pts: Seq<(Seq<char>, Seq<(Seq<char>, Seq<char>)>)>,
)
    requires
        forall|i: int| 0 <= i < cs.len() ==> plain_comment(#[trigger] cs[i]),
        is_word(z0),
        forall|i: int| 0 <= i < pts.len() ==> plain_point(#[trigger] pts[i]),
    ensures
        touchstone_read(touchstone_text(cs, o, z0, pts)) == (TouchstoneView {
            comments: cs.push("Generated by OpenIE"@),
            options: options_fold(default_settings(), option_words(o, z0)),
            impedances: impedance_words(option_words(o, z0)),
            data: pts.map_values(|p: (Seq<char>, Seq<(Seq<char>, Seq<char>)>)| point_words(p)),
        }),
{
    let ls = written_lines(cs, o, z0, pts);
    lemma_text_is_lines(cs, o, z0, pts);
    lemma_written_one_line(cs, o, z0, pts);
    lemma_trimmed_join(ls);
    let t = trimmed_lines(touchstone_text(cs, o, z0, pts));
    assert(t == ls.map_values(|l: Seq<char>| trim(l)));
    let c = comment_line_texts(cs).map_values(|l: Seq<char>| trim(l));
    let x = trim(closing_comment());
    let y = trim(option_text(o, z0));
    let pl = point_line_texts(pts);
    assert forall|i: int| 0 <= i < pl.len() implies trim(#[trigger] pl[i]) == pl[i] by {
        assert(plain_point(pts[i]));
        lemma_point_read(pts[i]);
    }
    assert(t =~= c.push(x).push(y) + pl);
    lemma_fold_comments(cs);
    lemma_fold_push(c, x);
    lemma_closing_read();
    lemma_fold_push(c.push(x), y);
    lemma_option_read(o, z0);
    lemma_fold_points(c.push(x).push(y), pts);
    assert(Seq::<Seq<char>>::empty() + impedance_words(option_words(o, z0)) =~= impedance_words(option_words(o, z0)));
    assert(Seq::<Seq<Seq<char>>>::empty() + pts.map_values(|p: (Seq<char>, Seq<(Seq<char>, Seq<char>)>)| point_words(p))
        =~= pts.map_values(|p: (Seq<char>, Seq<(Seq<char>, Seq<char>)>)| point_words(p)));
}

} // verus!

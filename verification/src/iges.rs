//! IGES 5.3 writer core: entity bookkeeping (directory and parameter
//! sections with their sequence numbers) and the fixed-column file layout.
use vstd::prelude::*;
use vstd::utf8::encode_utf8;
use vstd::string::StringSliceAdditionalSpecFns;
use crate::text::{
    chars_of, dec, dec_int, pad_left, pad_right, push_char, push_dec, push_dec_i64,
    push_dec_pad_left, push_pad_left, push_pad_right, zero_pad,
    push_zero_pad,
};

verus! {

/// Every character is ASCII.
pub open spec fn is_ascii_text(s: Seq<char>) -> bool {
    forall|i: int| 0 <= i < s.len() ==> (#[trigger] s[i] as u32) < 128
}

/// `s` cut into pieces of `w` characters (the last may be shorter).
pub open spec fn chunks(s: Seq<char>, w: nat) -> Seq<Seq<char>>
    recommends
        w > 0,
    decreases s.len(),
{
    if s.len() == 0 || w == 0 {
        Seq::empty()
    } else if s.len() <= w {
        seq![s]
    } else {
        seq![s.take(w as int)] + chunks(s.skip(w as int), w)
    }
}

/// The parameter-data lines of `s`: its chunks, or one empty line when `s` is empty.
pub open spec fn param_chunks(s: Seq<char>, w: nat) -> Seq<Seq<char>> {
    if s.len() == 0 { seq![Seq::empty()] } else { chunks(s, w) }
}

/// The views of a vector of strings.
pub open spec fn views(v: Seq<String>) -> Seq<Seq<char>> {
    v.map_values(|x: String| x@)
}

fn push_range(out: &mut String, cs: &Vec<char>, a: usize, b: usize)
    requires
        a <= b <= cs@.len(),
    ensures
        final(out)@ == old(out)@ + cs@.subrange(a as int, b as int),
{
    let mut i = a;
    while i < b
        invariant
            a <= i <= b,
            b <= cs@.len(),
            out@ == old(out)@ + cs@.subrange(a as int, i as int),
        decreases b - i,
    {
        push_char(out, cs[i]);
        i = i + 1;
        assert(out@ =~= old(out)@ + cs@.subrange(a as int, i as int));
    }
}

proof fn lemma_chunks_step(s: Seq<char>, pos: int, w: nat)
    requires
        w > 0,
        0 <= pos < s.len(),
    ensures
        chunks(s.skip(pos), w) == seq![s.subrange(pos, if pos + w < s.len() { pos + w } else { s.len() as int })]
            + chunks(s.skip(if pos + w < s.len() { pos + w } else { s.len() as int }), w),
{
    let t = s.skip(pos);
    if pos + w < s.len() {
        assert(t.take(w as int) =~= s.subrange(pos, pos + w));
        assert(t.skip(w as int) =~= s.skip(pos + w));
    } else {
        assert(t =~= s.subrange(pos, s.len() as int));
        assert(s.skip(s.len() as int) =~= Seq::<char>::empty());
        assert(chunks(Seq::<char>::empty(), w) =~= Seq::<Seq<char>>::empty());
        assert(seq![t] + Seq::<Seq<char>>::empty() =~= seq![t]);
    }
}

/// Splits text into chunks of `width` characters; empty text gives one empty line.
pub fn split_param_data(data: &str, width: usize) -> (r: Vec<String>)
    requires
        width > 0,
    ensures
        views(r@) == param_chunks(data@, width as nat),
{
    let cs = chars_of(data);
    let mut lines: Vec<String> = Vec::new();
    let mut pos: usize = 0;
    assert(cs@.skip(0) =~= cs@);
    while pos < cs.len()
        invariant
            width > 0,
            cs@ == data@,
            pos <= cs@.len(),
            views(lines@) + chunks(cs@.skip(pos as int), width as nat) == chunks(cs@, width as nat),
        decreases cs.len() - pos,
    {
        let end = if cs.len() - pos > width { pos + width } else { cs.len() };
        let mut line = String::new();
        push_range(&mut line, &cs, pos, end);
        proof {
            lemma_chunks_step(cs@, pos as int, width as nat);
            assert(line@ =~= cs@.subrange(pos as int, end as int));
        }
        let ghost before = lines@;
        lines.push(line);
        assert(views(lines@) =~= views(before) + seq![cs@.subrange(pos as int, end as int)]);
        pos = end;
    }
    assert(cs@.skip(cs@.len() as int) =~= Seq::<char>::empty());
    assert(views(lines@) =~= chunks(cs@, width as nat));
    if lines.len() == 0 {
        lines.push(String::new());
        assert(views(lines@) =~= seq![Seq::<char>::empty()]);
    }
    lines
}

/// One section line: the text left-aligned in 72 columns, the section
/// letter, and the sequence number right-aligned in 7 columns.
pub open spec fn section_line(text: Seq<char>, section: Seq<char>, seq_no: nat) -> Seq<char> {
    pad_right(text, 72) + section + pad_left(dec(seq_no), 7)
}

/// The section lines of chunks, numbered from `first`.
pub open spec fn section_lines(cs: Seq<Seq<char>>, section: Seq<char>, first: nat) -> Seq<Seq<char>>
    decreases cs.len(),
{
    if cs.len() == 0 {
        Seq::empty()
    } else {
        seq![section_line(cs[0], section, first)] + section_lines(cs.drop_first(), section, first + 1)
    }
}

/// The lines of a global-style section: 72-column chunks numbered from 1, or
/// one blank line numbered 1 when the text is empty.
pub open spec fn iges_lines(data: Seq<char>, section: Seq<char>) -> Seq<Seq<char>> {
    if data.len() == 0 {
        seq![section_line(Seq::empty(), section, 1)]
    } else {
        section_lines(chunks(data, 72), section, 1)
    }
}

proof fn lemma_section_lines_append(cs: Seq<Seq<char>>, c: Seq<char>, section: Seq<char>, first: nat)
    ensures
        section_lines(cs.push(c), section, first)
            == section_lines(cs, section, first) + seq![section_line(c, section, first + cs.len())],
    decreases cs.len(),
{
    if cs.len() == 0 {
        assert(cs.push(c).drop_first() =~= Seq::<Seq<char>>::empty());
        assert(cs.push(c)[0] == c);
        assert(section_lines(Seq::<Seq<char>>::empty(), section, first + 1) =~= Seq::<Seq<char>>::empty());
        assert(section_lines(cs.push(c), section, first) =~= seq![section_line(c, section, first)]);
    } else {
        lemma_section_lines_append(cs.drop_first(), c, section, first + 1);
        assert(cs.push(c).drop_first() =~= cs.drop_first().push(c));
        assert(section_lines(cs.push(c), section, first) =~= seq![section_line(cs[0], section, first)]
            + section_lines(cs.drop_first().push(c), section, first + 1));
    }
}

fn section_line_exec(text: &str, section: &str, seq_no: usize) -> (r: String)
    ensures
        r@ == section_line(text@, section@, seq_no as nat),
{
    let mut line = String::new();
    push_pad_right(&mut line, text, 72);
    line.append(section);
    push_dec_pad_left(&mut line, seq_no as u64, 7);
    assert(line@ =~= section_line(text@, section@, seq_no as nat));
    line
}

/// Splits global-section data into numbered 72-column IGES lines.
pub fn split_iges_lines(data: &str, section: &str) -> (r: Vec<String>)
    ensures
        views(r@) == iges_lines(data@, section@),
{
    let chunks_v = split_param_data(data, 72);
    let mut lines: Vec<String> = Vec::new();
    if data.is_empty() {
        let l = section_line_exec("", section, 1);
        lines.push(l);
        assert(""@.len() == 0) by { reveal_strlit(""); }
        assert(""@ =~= Seq::<char>::empty());
        assert(views(lines@) =~= iges_lines(data@, section@));
        return lines;
    }
    let ghost cs = chunks(data@, 72);
    assert(views(chunks_v@) == cs);
    let mut k: usize = 0;
    while k < chunks_v.len()
        invariant
            k <= chunks_v@.len(),
            views(chunks_v@) == cs,
            views(lines@) == section_lines(cs.take(k as int), section@, 1),
        decreases chunks_v.len() - k,
    {
        let l = section_line_exec(chunks_v[k].as_str(), section, k + 1);
        proof {
            lemma_section_lines_append(cs.take(k as int), cs[k as int], section@, 1);
            assert(cs.take(k as int).push(cs[k as int]) =~= cs.take(k + 1));
            assert(chunks_v@[k as int]@ == cs[k as int]);
        }
        let ghost before = lines@;
        lines.push(l);
        assert(views(lines@) =~= views(before) + seq![section_line(cs[k as int], section@, (k + 1) as nat)]);
        k = k + 1;
    }
    assert(cs.take(cs.len() as int) =~= cs);
    lines
}


// ---------------------------------------------------------------------------
// Writer
// ---------------------------------------------------------------------------

/// A directory entry: one entity.
pub struct DirEntry {
    pub entity_type: i32,
    pub param_start: usize,
    pub param_count: usize,
    pub status: u32,
    pub form: i32,
    pub label: String,
}

/// IGES file writer: directory entries, parameter lines and the next
/// sequence numbers of both sections.
pub struct IgesWriter {
    pub directory: Vec<DirEntry>,
    pub params: Vec<String>,
    pub de_seq: usize,
    pub pd_seq: usize,
}

/// One parameter-section line: 64 columns of data, the owning directory
/// number in 8 columns, `P`, and the line's sequence number in 7 columns.
pub open spec fn pd_line(text: Seq<char>, de_num: nat, seq_no: nat) -> Seq<char> {
    pad_right(text, 64) + pad_left(dec(de_num), 8) + "P"@ + pad_left(dec(seq_no), 7)
}

/// The parameter lines of chunks owned by `de_num`, numbered from `first`.
pub open spec fn pd_lines(cs: Seq<Seq<char>>, de_num: nat, first: nat) -> Seq<Seq<char>>
    decreases cs.len(),
{
    if cs.len() == 0 {
        Seq::empty()
    } else {
        pd_lines(cs.drop_last(), de_num, first) + seq![pd_line(cs.last(), de_num, (first + cs.len() - 1) as nat)]
    }
}

impl IgesWriter {
    /// Sequence numbers follow the entries: directory entries come in pairs of
    /// lines, so the next directory number is odd.
    pub open spec fn wf(&self) -> bool {
        &&& self.de_seq == 2 * self.directory@.len() + 1
        &&& self.pd_seq == self.params@.len() + 1
    }

    /// An empty writer; both sections start at sequence number 1.
    pub fn new() -> (r: Self)
        ensures
            r.wf(),
            r.directory@.len() == 0,
            r.params@.len() == 0,
    {
        IgesWriter { directory: Vec::new(), params: Vec::new(), de_seq: 1, pd_seq: 1 }
    }

    /// Adds an entity whose parameter data is `param_data` (a `;` is appended),
    /// split into 64-column lines. Returns the entity's directory number.
    pub fn add_entity(&mut self, entity_type: i32, form: i32, label: &str, param_data: &str) -> (r: usize)
        requires
            old(self).wf(),
            old(self).de_seq + 2 <= usize::MAX,
            old(self).pd_seq + param_data@.len() + 2 <= usize::MAX,
        ensures
            final(self).wf(),
            r == old(self).de_seq,
            views(final(self).params@) == views(old(self).params@)
                + pd_lines(param_chunks(param_data@.push(';'), 64), r as nat, old(self).pd_seq as nat),
            final(self).directory@.len() == old(self).directory@.len() + 1,
            forall|i: int| 0 <= i < old(self).directory@.len() ==>
                #[trigger] final(self).directory@[i] == old(self).directory@[i],
            final(self).directory@.last().entity_type == entity_type,
            final(self).directory@.last().form == form,
            final(self).directory@.last().status == 0,
            final(self).directory@.last().label@ == label@,
            final(self).directory@.last().param_start == old(self).pd_seq,
            final(self).directory@.last().param_count
                == param_chunks(param_data@.push(';'), 64).len(),
    {
        let de_num = self.de_seq;
        let pd_start = self.pd_seq;
        let mut full = String::from_str(param_data);
        push_char(&mut full, ';');
        let lines = split_param_data(full.as_str(), 64);
        let ghost cs = param_chunks(param_data@.push(';'), 64);
        proof { lemma_chunks_len(param_data@.push(';'), 64); }
        let ghost p0 = views(self.params@);
        let mut i: usize = 0;
        while i < lines.len()
            invariant
                i <= lines@.len(),
                views(lines@) == cs,
                cs.len() <= param_data@.len() + 1,
                de_num + 2 <= usize::MAX,
                pd_start + param_data@.len() + 2 <= usize::MAX,
                self.pd_seq == pd_start + i,
                views(self.params@) == p0 + pd_lines(cs.take(i as int), de_num as nat, pd_start as nat),
                self.directory == old(self).directory,
                self.de_seq == old(self).de_seq,
                self.params@.len() + 1 == self.pd_seq,
                de_num == old(self).de_seq,
            decreases lines.len() - i,
        {
            let seq_no = self.pd_seq;
            let mut pd = String::new();
            push_pad_right(&mut pd, lines[i].as_str(), 64);
            push_dec_pad_left(&mut pd, de_num as u64, 8);
            pd.append("P");
            push_dec_pad_left(&mut pd, seq_no as u64, 7);
            proof {
                assert(lines@[i as int]@ == cs[i as int]);
                assert(cs.take(i + 1).drop_last() =~= cs.take(i as int));
                assert(pd@ =~= pd_line(cs[i as int], de_num as nat, seq_no as nat));
            }
            let ghost before = self.params@;
            self.params.push(pd);
            assert(views(self.params@) =~= views(before) + seq![pd_line(cs[i as int], de_num as nat, (pd_start + i) as nat)]);
            self.pd_seq = self.pd_seq + 1;
            i = i + 1;
        }
        assert(cs.take(cs.len() as int) =~= cs);
        self.directory.push(DirEntry {
            entity_type,
            param_start: pd_start,
            param_count: lines.len(),
            status: 0,
            form,
            label: String::from_str(label),
        });
        self.de_seq = self.de_seq + 2;
        de_num
    }

    /// Adds a trimmed parametric surface (type 144) bounded by one curve.
    pub fn trimmed_surface(&mut self, surface_de: usize, outer_boundary_de: usize) -> (r: usize)
        requires
            old(self).wf(),
            old(self).de_seq + 2 <= usize::MAX,
            old(self).pd_seq + 100 <= usize::MAX,
        ensures
            final(self).wf(),
            r == old(self).de_seq,
            final(self).directory@.len() == old(self).directory@.len() + 1,
            final(self).directory@.last().entity_type == 144,
            views(final(self).params@) == views(old(self).params@) + pd_lines(
                param_chunks("144,"@ + dec(surface_de as nat) + ",1,0,"@ + dec(outer_boundary_de as nat) + ";"@, 64),
                r as nat,
                old(self).pd_seq as nat,
            ),
    {
        let mut data = String::from_str("144,");
        push_dec(&mut data, surface_de as u64);
        data.append(",1,0,");
        push_dec(&mut data, outer_boundary_de as u64);
        proof {
            crate::text::lemma_dec_len(surface_de as nat);
            crate::text::lemma_dec_len(outer_boundary_de as nat);
            reveal_strlit("144,");
            reveal_strlit(",1,0,");
            reveal_strlit(";");
        }
        assert(data@.push(';') =~= "144,"@ + dec(surface_de as nat) + ",1,0,"@ + dec(outer_boundary_de as nat) + ";"@);
        self.add_entity(144, 0, "TRIMSURF", data.as_str())
    }

    /// Adds a curve on a parametric surface (type 142) given by its 3D curve.
    pub fn curve_on_surface(&mut self, surface_de: usize, curve_3d_de: usize) -> (r: usize)
        requires
            old(self).wf(),
            old(self).de_seq + 2 <= usize::MAX,
            old(self).pd_seq + 100 <= usize::MAX,
        ensures
            final(self).wf(),
            r == old(self).de_seq,
            final(self).directory@.len() == old(self).directory@.len() + 1,
            final(self).directory@.last().entity_type == 142,
            views(final(self).params@) == views(old(self).params@) + pd_lines(
                param_chunks("142,0,"@ + dec(surface_de as nat) + ",0,"@ + dec(curve_3d_de as nat) + ",3;"@, 64),
                r as nat,
                old(self).pd_seq as nat,
            ),
    {
        let mut data = String::from_str("142,0,");
        push_dec(&mut data, surface_de as u64);
        data.append(",0,");
        push_dec(&mut data, curve_3d_de as u64);
        data.append(",3");
        proof {
            crate::text::lemma_dec_len(surface_de as nat);
            crate::text::lemma_dec_len(curve_3d_de as nat);
            reveal_strlit("142,0,");
            reveal_strlit(",0,");
            reveal_strlit(",3");
            reveal_strlit(",3;");
        }
        assert(data@.push(';') =~= "142,0,"@ + dec(surface_de as nat) + ",0,"@ + dec(curve_3d_de as nat) + ",3;"@);
        self.add_entity(142, 0, "CURV_SRF", data.as_str())
    }
}

proof fn lemma_chunks_len(s: Seq<char>, w: nat)
    requires
        w > 0,
    ensures
        chunks(s, w).len() <= s.len(),
        param_chunks(s, w).len() <= s.len() + 1,
    decreases s.len(),
{
    if s.len() > w {
        lemma_chunks_len(s.skip(w as int), w);
    }
}

proof fn lemma_chunks_join(s: Seq<char>, w: nat)
    requires
        w > 0,
    ensures
        chunks(s, w).flatten() == s,
        chunks(s, w).len() == (s.len() + w - 1) / (w as int),
        forall|i: int| 0 <= i < chunks(s, w).len() - 1 ==> (#[trigger] chunks(s, w)[i]).len() == w,
        s.len() > 0 ==> 0 < chunks(s, w).last().len() <= w,
    decreases s.len(),
{
    if s.len() == 0 {
        assert(chunks(s, w) =~= Seq::<Seq<char>>::empty());
        assert(s =~= Seq::<char>::empty());
        assert((s.len() + w - 1) / (w as int) == 0) by (nonlinear_arith)
            requires
                s.len() == 0,
                w > 0,
        ;
    } else if s.len() <= w {
        let c = chunks(s, w);
        assert(c =~= seq![s]);
        assert(c.drop_first() =~= Seq::<Seq<char>>::empty());
        assert(c.drop_first().flatten() =~= Seq::<char>::empty());
        assert(c.flatten() =~= s);
        assert((s.len() + w - 1) / (w as int) == 1) by (nonlinear_arith)
            requires
                0 < s.len() <= w,
        ;
    } else {
        let rest = s.skip(w as int);
        lemma_chunks_join(rest, w);
        let c = chunks(s, w);
        assert(c == seq![s.take(w as int)] + chunks(rest, w));
        assert(c.drop_first() =~= chunks(rest, w));
        assert(c.first() == s.take(w as int));
        assert(s.take(w as int) + rest =~= s);
        assert((s.len() + w - 1) / (w as int) == (rest.len() + w - 1) / (w as int) + 1) by (nonlinear_arith)
            requires
                rest.len() == s.len() - w,
                w > 0,
        {
            assert(s.len() + w - 1 == (rest.len() + w - 1) + w);
        }
        assert forall|i: int| 0 <= i < c.len() - 1 implies (#[trigger] c[i]).len() == w by {
            if i > 0 {
                assert(c[i] == chunks(rest, w)[i - 1]);
            }
        }
    }
}

/// The parameter lines of `s` hold `s` and nothing else: joined in order
/// they give `s` back; there are `⌈len / w⌉` of them (one when `s` is
/// empty); every line but the last has exactly `w` characters, and the last
/// has at most `w`.
pub proof fn lemma_param_chunks_join(s: Seq<char>, w: nat)
    requires
        w > 0,
    ensures
        param_chunks(s, w).flatten() == s,
        param_chunks(s, w).len() == if s.len() == 0 { 1 } else { (s.len() + w - 1) / (w as int) },
        forall|i: int| 0 <= i < param_chunks(s, w).len() - 1 ==> (#[trigger] param_chunks(s, w)[i]).len() == w,
        param_chunks(s, w).last().len() <= w,
{
    lemma_chunks_join(s, w);
    if s.len() == 0 {
        let c = param_chunks(s, w);
        assert(c =~= seq![Seq::<char>::empty()]);
        assert(c.drop_first() =~= Seq::<Seq<char>>::empty());
        assert(c.flatten() =~= s);
    }
}

/// A Hollerith string constant: the byte length of the text, `H`, the text.
pub open spec fn hollerith(t: Seq<char>) -> Seq<char> {
    dec(encode_utf8(t).len()) + "H"@ + t
}

/// The start-section text naming the file.
pub open spec fn s_data(f: Seq<char>) -> Seq<char> {
    "1H,,1H;,"@ + hollerith(f) + ";"@
}

/// The global-section parameter text.
pub open spec fn g_data(f: Seq<char>) -> Seq<char> {
    "1H,,1H;,"@ + hollerith(f) + ","@ + hollerith("physical.openie.dev"@) + ","@ + hollerith(
        "physical-emit-iges"@,
    ) + ",32,38,6,308,15,"@ + hollerith(f) + ",1.0,2,2HMM,1,,15H20260101.000000,0.001,100.0,,,11,0,;"@
}

/// The first eight characters of a label.
pub open spec fn label8(l: Seq<char>) -> Seq<char> {
    if l.len() <= 8 { l } else { l.take(8) }
}

/// An 8-column right-aligned decimal field.
pub open spec fn f8(n: nat) -> Seq<char> {
    pad_left(dec(n), 8)
}

/// The two directory-section lines of an entry numbered `d`.
pub open spec fn d_lines(e: DirEntry, d: nat) -> Seq<char> {
    pad_left(dec_int(e.entity_type as int), 8) + f8(e.param_start as nat) + f8(0) + f8(0) + f8(0)
        + f8(0) + f8(0) + f8(0) + pad_left(zero_pad(e.status as nat, 8), 8) + "D"@
        + pad_left(dec(d), 7) + "\n"@
    + pad_left(dec_int(e.entity_type as int), 8) + f8(0) + f8(0) + f8(e.param_count as nat)
        + pad_left(dec_int(e.form as int), 8) + pad_left(Seq::empty(), 8) + pad_left(Seq::empty(), 8)
        + pad_left(Seq::empty(), 8) + pad_left(pad_left(label8(e.label@), 8), 8) + "D"@
        + pad_left(dec(d + 1), 7) + "\n"@
}

/// The directory section of the first `n` entries.
pub open spec fn d_section(es: Seq<DirEntry>, n: nat) -> Seq<char>
    decreases n,
{
    if n == 0 { Seq::empty() } else { d_section(es, (n - 1) as nat) + d_lines(es[n - 1], (2 * n - 1) as nat) }
}

/// Lines, each followed by a newline.
pub open spec fn joined_lines(ls: Seq<Seq<char>>) -> Seq<char>
    decreases ls.len(),
{
    if ls.len() == 0 { Seq::empty() } else { joined_lines(ls.drop_last()) + ls.last() + "\n"@ }
}

/// The terminate-section line with the line counts of the other sections.
pub open spec fn t_line(s: nat, g: nat, d: nat, p: nat) -> Seq<char> {
    "S"@ + pad_left(dec(s), 7) + "G"@ + pad_left(dec(g), 7) + "D"@ + pad_left(dec(d), 7) + "P"@
        + pad_left(dec(p), 7) + pad_left(Seq::empty(), 40) + "T"@ + pad_left(dec(1), 7) + "\n"@
}

/// The whole IGES file text of a writer's entities.
pub open spec fn iges_text(w: IgesWriter, f: Seq<char>) -> Seq<char> {
    let st = iges_lines(s_data(f), "S"@);
    let g = iges_lines(g_data(f), "G"@);
    joined_lines(st) + joined_lines(g) + d_section(w.directory@, w.directory@.len())
        + joined_lines(views(w.params@))
        + t_line(st.len(), g.len(), 2 * w.directory@.len(), w.params@.len())
}

fn push_lines(out: &mut String, ls: &Vec<String>)
    ensures
        final(out)@ == old(out)@ + joined_lines(views(ls@)),
{
    let mut i: usize = 0;
    while i < ls.len()
        invariant
            i <= ls@.len(),
            out@ == old(out)@ + joined_lines(views(ls@.take(i as int))),
        decreases ls.len() - i,
    {
        out.append(ls[i].as_str());
        out.append("\n");
        assert(views(ls@.take(i + 1)).drop_last() =~= views(ls@.take(i as int)));
        assert(views(ls@.take(i + 1)).last() == ls@[i as int]@);
        i = i + 1;
    }
    assert(ls@.take(ls@.len() as int) =~= ls@);
}

fn push_field_i(out: &mut String, v: i32)
    ensures
        final(out)@ == old(out)@ + pad_left(dec_int(v as int), 8),
{
    let mut t = String::new();
    push_dec_i64(&mut t, v as i64);
    assert(t@ =~= dec_int(v as int));
    push_pad_left(out, t.as_str(), 8);
}

/// The first directory line of an entry numbered `d`.
pub open spec fn d_line1(e: DirEntry, d: nat) -> Seq<char> {
    pad_left(dec_int(e.entity_type as int), 8) + f8(e.param_start as nat) + f8(0) + f8(0) + f8(0)
        + f8(0) + f8(0) + f8(0) + pad_left(zero_pad(e.status as nat, 8), 8) + "D"@
        + pad_left(dec(d), 7) + "\n"@
}

/// The second directory line of an entry numbered `d`.
pub open spec fn d_line2(e: DirEntry, d: nat) -> Seq<char> {
    pad_left(dec_int(e.entity_type as int), 8) + f8(0) + f8(0) + f8(e.param_count as nat)
        + pad_left(dec_int(e.form as int), 8) + pad_left(Seq::empty(), 8) + pad_left(Seq::empty(), 8)
        + pad_left(Seq::empty(), 8) + pad_left(pad_left(label8(e.label@), 8), 8) + "D"@
        + pad_left(dec(d + 1), 7) + "\n"@
}

proof fn lemma_d_lines(e: DirEntry, d: nat)
    ensures
        d_lines(e, d) =~= d_line1(e, d) + d_line2(e, d),
{
}

fn push_zeros6(out: &mut String)
    ensures
        final(out)@ == old(out)@ + f8(0) + f8(0) + f8(0) + f8(0) + f8(0) + f8(0),
{
    push_dec_pad_left(out, 0, 8);
    push_dec_pad_left(out, 0, 8);
    push_dec_pad_left(out, 0, 8);
    push_dec_pad_left(out, 0, 8);
    push_dec_pad_left(out, 0, 8);
    push_dec_pad_left(out, 0, 8);
    assert(final(out)@ =~= old(out)@ + f8(0) + f8(0) + f8(0) + f8(0) + f8(0) + f8(0));
}

fn push_d_line1(out: &mut String, e: &DirEntry, d: usize)
    ensures
        final(out)@ == old(out)@ + d_line1(*e, d as nat),
{
    push_field_i(out, e.entity_type);
    push_dec_pad_left(out, e.param_start as u64, 8);
    push_zeros6(out);
    let mut st = String::new();
    push_zero_pad(&mut st, e.status as u64, 8);
    assert(st@ =~= zero_pad(e.status as nat, 8));
    push_pad_left(out, st.as_str(), 8);
    out.append("D");
    push_dec_pad_left(out, d as u64, 7);
    out.append("\n");
    assert(final(out)@ =~= old(out)@ + d_line1(*e, d as nat));
}

fn label_field(label: &String) -> (r: String)
    ensures
        r@ == pad_left(pad_left(label8(label@), 8), 8),
{
    let lc = chars_of(label.as_str());
    let mut lab = String::new();
    let n = if lc.len() <= 8 { lc.len() } else { 8 };
    let mut i: usize = 0;
    while i < n
        invariant
            i <= n,
            n <= lc@.len(),
            lab@ == lc@.take(i as int),
        decreases n - i,
    {
        push_char(&mut lab, lc[i]);
        i = i + 1;
        assert(lab@ =~= lc@.take(i as int));
    }
    assert(lab@ =~= label8(label@));
    let mut lab8 = String::new();
    push_pad_left(&mut lab8, lab.as_str(), 8);
    let mut r = String::new();
    push_pad_left(&mut r, lab8.as_str(), 8);
    assert(r@ =~= pad_left(pad_left(label8(label@), 8), 8));
    r
}

fn push_blank8(out: &mut String)
    ensures
        final(out)@ == old(out)@ + pad_left(Seq::empty(), 8),
{
    push_pad_left(out, "", 8);
    proof { reveal_strlit(""); }
    assert(""@ =~= Seq::<char>::empty());
}

fn push_d_line2(out: &mut String, e: &DirEntry, d: usize)
    requires
        d + 1 <= usize::MAX,
    ensures
        final(out)@ == old(out)@ + d_line2(*e, d as nat),
{
    push_field_i(out, e.entity_type);
    push_dec_pad_left(out, 0, 8);
    push_dec_pad_left(out, 0, 8);
    push_dec_pad_left(out, e.param_count as u64, 8);
    push_field_i(out, e.form);
    push_blank8(out);
    push_blank8(out);
    push_blank8(out);
    let lab = label_field(&e.label);
    out.append(lab.as_str());
    out.append("D");
    push_dec_pad_left(out, (d + 1) as u64, 7);
    out.append("\n");
    assert(final(out)@ =~= old(out)@ + d_line2(*e, d as nat));
}

fn push_dir_entry(out: &mut String, e: &DirEntry, d: usize)
    requires
        d + 1 <= usize::MAX,
    ensures
        final(out)@ == old(out)@ + d_lines(*e, d as nat),
{
    push_d_line1(out, e, d);
    push_d_line2(out, e, d);
    proof { lemma_d_lines(*e, d as nat); }
    assert(final(out)@ =~= old(out)@ + d_lines(*e, d as nat));
}

fn push_hollerith(out: &mut String, t: &str)
    ensures
        final(out)@ == old(out)@ + hollerith(t@),
{
    let n = t.as_bytes().len();
    assert(n as nat == encode_utf8(t@).len());
    let ghost o = out@;
    push_dec(out, n as u64);
    let ghost o2 = out@;
    out.append("H");
    out.append(t);
    proof { reveal_strlit("H"); }
    assert(o2 == o + dec(n as nat));
    assert(out@ =~= o + hollerith(t@));
}

fn s_data_exec(filename: &str) -> (r: String)
    ensures
        r@ == s_data(filename@),
{
    let mut t = String::from_str("1H,,1H;,");
    push_hollerith(&mut t, filename);
    t.append(";");
    assert(t@ =~= s_data(filename@));
    t
}

fn g_data_exec(filename: &str) -> (r: String)
    ensures
        r@ == g_data(filename@),
{
    let mut g = String::from_str("1H,,1H;,");
    push_hollerith(&mut g, filename);
    g.append(",");
    push_hollerith(&mut g, "physical.openie.dev");
    g.append(",");
    push_hollerith(&mut g, "physical-emit-iges");
    g.append(",32,38,6,308,15,");
    push_hollerith(&mut g, filename);
    g.append(",1.0,2,2HMM,1,,15H20260101.000000,0.001,100.0,,,11,0,;");
    assert(g@ =~= g_data(filename@));
    g
}

#[verifier::rlimit(40)]
fn push_t_line(out: &mut String, st: usize, g: usize, d: usize, p: usize)
    ensures
        final(out)@ == old(out)@ + t_line(st as nat, g as nat, d as nat, p as nat),
{
    out.append("S");
    push_dec_pad_left(out, st as u64, 7);
    out.append("G");
    push_dec_pad_left(out, g as u64, 7);
    out.append("D");
    push_dec_pad_left(out, d as u64, 7);
    out.append("P");
    push_dec_pad_left(out, p as u64, 7);
    push_pad_left(out, "", 40);
    out.append("T");
    push_dec_pad_left(out, 1, 7);
    out.append("\n");
    proof { reveal_strlit(""); }
    assert(""@ =~= Seq::<char>::empty());
    assert(final(out)@ =~= old(out)@ + t_line(st as nat, g as nat, d as nat, p as nat));
}

impl IgesWriter {
    /// Builds the complete IGES file text: start, global, directory,
    /// parameter and terminate sections.
    #[verifier::rlimit(60)]
    pub fn to_string(&self, filename: &str) -> (r: String)
        requires
            self.wf(),
            self.de_seq + 2 <= usize::MAX,
        ensures
            r@ == iges_text(*self, filename@),
    {
        let st = s_data_exec(filename);
        let s_lines = split_iges_lines(st.as_str(), "S");
        let mut out = String::new();
        push_lines(&mut out, &s_lines);
        let g = g_data_exec(filename);
        let g_lines = split_iges_lines(g.as_str(), "G");
        push_lines(&mut out, &g_lines);
        let ghost before_d = out@;
        let mut k: usize = 0;
        while k < self.directory.len()
            invariant
                self.wf(),
                self.de_seq + 2 <= usize::MAX,
                k <= self.directory@.len(),
                out@ == before_d + d_section(self.directory@, k as nat),
            decreases self.directory.len() - k,
        {
            push_dir_entry(&mut out, &self.directory[k], 2 * k + 1);
            k = k + 1;
        }
        push_lines(&mut out, &self.params);
        push_t_line(&mut out, s_lines.len(), g_lines.len(), self.directory.len() * 2, self.params.len());
        assert(g_lines@.len() == views(g_lines@).len());
        assert(s_lines@.len() == views(s_lines@).len());
        assert(out@ =~= iges_text(*self, filename@));
        out
    }
}

} // verus!

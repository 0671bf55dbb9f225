//! Parametric modelling document: a feature tree with undo and redo,
//! suppression, reordering, insertion and removal, and the selection of the
//! features a rebuild replays. The operation type is a parameter: the tree
//! does not look inside it.
use vstd::prelude::*;

verus! {

/// A named feature of the tree.
pub struct Feature<O> {
    /// Human-readable feature name.
    pub name: String,
    /// The modelling operation.
    pub op: O,
    /// Whether the feature is skipped during rebuild.
    pub suppressed: bool,
}

impl<O> Feature<O> {
    /// A feature that is not suppressed.
    pub fn new(name: &str, op: O) -> (r: Self)
        ensures
            r.name@ == name@,
            r.op == op,
            !r.suppressed,
    {
        Feature { name: String::from_str(name), op, suppressed: false }
    }
}

/// The tree and the redo stack after an undo, and whether it undid
/// anything: the last feature moves to the redo stack.
pub open spec fn after_undo<O>(f: Seq<Feature<O>>, r: Seq<Feature<O>>) -> (Seq<Feature<O>>, Seq<Feature<O>>, bool) {
    if f.len() == 0 { (f, r, false) } else { (f.drop_last(), r.push(f.last()), true) }
}

/// The tree and the redo stack after a redo, and whether it redid
/// anything: the top of the redo stack returns to the tree.
pub open spec fn after_redo<O>(f: Seq<Feature<O>>, r: Seq<Feature<O>>) -> (Seq<Feature<O>>, Seq<Feature<O>>, bool) {
    if r.len() == 0 { (f, r, false) } else { (f.push(r.last()), r.drop_last(), true) }
}

/// The tree after moving the feature at `from` to `to`; unchanged unless
/// both are positions of the tree.
pub open spec fn after_reorder<O>(f: Seq<Feature<O>>, from: int, to: int) -> Seq<Feature<O>> {
    if 0 <= from < f.len() && 0 <= to < f.len() { f.remove(from).insert(to, f[from]) } else { f }
}

/// The position at which `insert_at(index, ..)` inserts: `index`, at most
/// the length of the tree.
pub open spec fn insert_position(len: nat, index: int) -> int {
    if index < len { index } else { len as int }
}

/// The ops of the features of `f` that are not suppressed, in order.
pub open spec fn active_ops_of<O>(f: Seq<Feature<O>>) -> Seq<O>
    decreases f.len(),
{
    if f.len() == 0 {
        Seq::empty()
    } else {
        let rest = active_ops_of(f.drop_last());
        if f.last().suppressed { rest } else { rest.push(f.last().op) }
    }
}

/// A parametric model document: a name, the feature tree, and the stack of
/// undone features.
pub struct ModelDocument<O> {
    /// Document name.
    pub name: String,
    /// Current active features.
    pub features: Vec<Feature<O>>,
    /// Features removed by undo, the most recent last.
    redo_stack: Vec<Feature<O>>,
}

impl<O> ModelDocument<O> {
    /// The features that `redo` would bring back, the next one last.
    pub closed spec fn pending_redo(&self) -> Seq<Feature<O>> {
        self.redo_stack@
    }

    /// The feature tree, in order.
    pub closed spec fn tree(&self) -> Seq<Feature<O>> {
        self.features@
    }

    /// The document name.
    pub closed spec fn title(&self) -> Seq<char> {
        self.name@
    }

    /// An empty document.
    pub fn new(name: &str) -> (r: Self)
        ensures
            r.title() == name@,
            r.tree().len() == 0,
            r.pending_redo().len() == 0,
    {
        ModelDocument { name: String::from_str(name), features: Vec::new(), redo_stack: Vec::new() }
    }

    /// Number of features in the tree.
    pub fn feature_count(&self) -> (r: usize)
        ensures
            r == self.tree().len(),
    {
        self.features.len()
    }

    /// Appends a feature; the redo stack is cleared.
    pub fn add(&mut self, name: &str, op: O)
        ensures
            final(self).title() == old(self).title(),
            final(self).tree() == old(self).tree().push(final(self).tree().last()),
            final(self).tree().last().name@ == name@,
            final(self).tree().last().op == op,
            !final(self).tree().last().suppressed,
            final(self).pending_redo() == Seq::<Feature<O>>::empty(),
    {
        let f = Feature::new(name, op);
        self.features.push(f);
        self.redo_stack = Vec::new();
    }

    /// Undoes the last feature: it moves to the redo stack. `false` when the
    /// tree is empty.
    pub fn undo(&mut self) -> (r: bool)
        ensures
            final(self).title() == old(self).title(),
            (final(self).tree(), final(self).pending_redo(), r)
                == after_undo(old(self).tree(), old(self).pending_redo()),
    {
        match self.features.pop() {
            Some(f) => {
                self.redo_stack.push(f);
                true
            },
            None => false,
        }
    }

    /// Redoes the last undone feature. `false` when nothing was undone.
    pub fn redo(&mut self) -> (r: bool)
        ensures
            final(self).title() == old(self).title(),
            (final(self).tree(), final(self).pending_redo(), r)
                == after_redo(old(self).tree(), old(self).pending_redo()),
    {
        match self.redo_stack.pop() {
            Some(f) => {
                self.features.push(f);
                true
            },
            None => false,
        }
    }

    /// Suppresses or un-suppresses the feature at `index`; nothing happens
    /// for an index past the end.
    pub fn set_suppressed(&mut self, index: usize, suppressed: bool)
        ensures
            final(self).title() == old(self).title(),
            final(self).pending_redo() == old(self).pending_redo(),
            index < old(self).tree().len() ==> final(self).tree() == old(self).tree().update(
                index as int,
                Feature {
                    name: old(self).tree()[index as int].name,
                    op: old(self).tree()[index as int].op,
                    suppressed,
                },
            ),
            index >= old(self).tree().len() ==> final(self).tree() == old(self).tree(),
    {
        if index < self.features.len() {
            let mut f = self.features.remove(index);
            f.suppressed = suppressed;
            self.features.insert(index, f);
        }
    }

    /// Moves the feature at `from_index` to `to_index`; nothing happens
    /// unless both are positions of the tree.
    pub fn reorder(&mut self, from_index: usize, to_index: usize)
        ensures
            final(self).title() == old(self).title(),
            final(self).pending_redo() == old(self).pending_redo(),
            final(self).tree() == after_reorder(old(self).tree(), from_index as int, to_index as int),
    {
        if from_index < self.features.len() && to_index < self.features.len() {
            let feature = self.features.remove(from_index);
            self.features.insert(to_index, feature);
        }
    }

    /// Inserts a feature at `index` (at the end when `index` is past it);
    /// the redo stack is cleared.
    pub fn insert_at(&mut self, index: usize, name: &str, op: O)
        ensures
            final(self).title() == old(self).title(),
            final(self).pending_redo() == Seq::<Feature<O>>::empty(),
            ({
                let p = insert_position(old(self).tree().len(), index as int);
                &&& final(self).tree() == old(self).tree().insert(p, final(self).tree()[p])
                &&& final(self).tree()[p].name@ == name@
                &&& final(self).tree()[p].op == op
                &&& !final(self).tree()[p].suppressed
            }),
    {
        let clamped = if index < self.features.len() { index } else { self.features.len() };
        self.features.insert(clamped, Feature::new(name, op));
        self.redo_stack = Vec::new();
    }

    /// Removes and returns the feature at `index`; `None` past the end.
    pub fn remove_at(&mut self, index: usize) -> (r: Option<Feature<O>>)
        ensures
            final(self).title() == old(self).title(),
            final(self).pending_redo() == old(self).pending_redo(),
            index < old(self).tree().len() ==> r == Some(old(self).tree()[index as int])
                && final(self).tree() == old(self).tree().remove(index as int),
            index >= old(self).tree().len() ==> r is None && final(self).tree() == old(self).tree(),
    {
        if index < self.features.len() {
            Some(self.features.remove(index))
        } else {
            None
        }
    }

    /// The feature names, in tree order.
    pub fn feature_names(&self) -> (r: Vec<&str>)
        ensures
            r@.len() == self.tree().len(),
            forall|i: int| 0 <= i < r@.len() ==> (#[trigger] r@[i])@ == self.tree()[i].name@,
    {
        let mut r: Vec<&str> = Vec::new();
        let mut i: usize = 0;
        while i < self.features.len()
            invariant
                i <= self.features@.len(),
                r@.len() == i,
                forall|j: int| 0 <= j < i ==> (#[trigger] r@[j])@ == self.features@[j].name@,
            decreases self.features.len() - i,
        {
            r.push(self.features[i].name.as_str());
            i = i + 1;
        }
        r
    }

    /// The operations a rebuild replays: those of the features that are
    /// not suppressed, in tree order.
    pub fn active_ops(&self) -> (r: Vec<&O>)
        ensures
            r@.len() == active_ops_of(self.tree()).len(),
            forall|i: int| 0 <= i < r@.len() ==> *(#[trigger] r@[i]) == active_ops_of(self.tree())[i],
    {
        assert(self.features@.take(self.features@.len() as int) =~= self.features@);
        self.active_ops_prefix(self.features.len())
    }

    /// The operations a rebuild up to (and including) `index` replays: those
    /// of the features at positions up to `index` that are not suppressed.
    pub fn active_ops_to(&self, index: usize) -> (r: Vec<&O>)
        requires
            index < usize::MAX,
        ensures
            ({
                let pre = if index + 1 <= self.tree().len() { self.tree().take(index + 1) } else { self.tree() };
                &&& r@.len() == active_ops_of(pre).len()
                &&& forall|i: int| 0 <= i < r@.len() ==> *(#[trigger] r@[i]) == active_ops_of(pre)[i]
            }),
    {
        let n = if index + 1 <= self.features.len() { index + 1 } else { self.features.len() };
        assert(self.features@.take(self.features@.len() as int) =~= self.features@);
        self.active_ops_prefix(n)
    }

    fn active_ops_prefix(&self, n: usize) -> (r: Vec<&O>)
        requires
            n <= self.features@.len(),
        ensures
            r@.len() == active_ops_of(self.features@.take(n as int)).len(),
            forall|i: int| 0 <= i < r@.len() ==> *(#[trigger] r@[i]) == active_ops_of(self.features@.take(n as int))[i],
    {
        let mut r: Vec<&O> = Vec::new();
        let mut k: usize = 0;
        assert(self.features@.take(self.features@.len() as int) =~= self.features@);
        while k < n
            invariant
                k <= n <= self.features@.len(),
                r@.len() == active_ops_of(self.features@.take(k as int)).len(),
                forall|i: int| 0 <= i < r@.len() ==> *(#[trigger] r@[i]) == active_ops_of(self.features@.take(k as int))[i],
            decreases n - k,
        {
            let ghost f = self.features@.take(k + 1);
            assert(f.drop_last() =~= self.features@.take(k as int));
            assert(f.last() == self.features@[k as int]);
            if !self.features[k].suppressed {
                r.push(&self.features[k].op);
            }
            k = k + 1;
        }
        r
    }
}

// ---------------------------------------------------------------------------
// Laws of the history
// ---------------------------------------------------------------------------

/// Undo after redo restores the tree and the redo stack, whenever something
/// was undone.
pub proof fn lemma_redo_undo<O>(f: Seq<Feature<O>>, r: Seq<Feature<O>>)
    requires
        r.len() > 0,
    ensures
        ({
            let (f1, r1, ok1) = after_redo(f, r);
            let (f2, r2, ok2) = after_undo(f1, r1);
            ok1 && ok2 && f2 == f && r2 == r
        }),
{
    assert(f.push(r.last()).drop_last() =~= f);
    assert(r.drop_last().push(r.last()) =~= r);
}

/// Redo after undo restores the tree and the redo stack, whenever the tree
/// was not empty.
pub proof fn lemma_undo_redo<O>(f: Seq<Feature<O>>, r: Seq<Feature<O>>)
    requires
        f.len() > 0,
    ensures
        ({
            let (f1, r1, ok1) = after_undo(f, r);
            let (f2, r2, ok2) = after_redo(f1, r1);
            ok1 && ok2 && f2 == f && r2 == r
        }),
{
    assert(f.drop_last().push(f.last()) =~= f);
    assert(r.push(f.last()).drop_last() =~= r);
}

/// Undo fails exactly on an empty tree, and redo exactly on an empty redo
/// stack; a failed undo or redo changes nothing.
pub proof fn lemma_failed_steps<O>(f: Seq<Feature<O>>, r: Seq<Feature<O>>)
    ensures
        !after_undo(f, r).2 <==> f.len() == 0,
        !after_redo(f, r).2 <==> r.len() == 0,
        !after_undo(f, r).2 ==> after_undo(f, r).0 == f && after_undo(f, r).1 == r,
        !after_redo(f, r).2 ==> after_redo(f, r).0 == f && after_redo(f, r).1 == r,
{
}

/// Adding a feature and undoing it gives back the tree as it was, with the
/// new feature alone on the redo stack; a redo right after an add fails.
pub proof fn lemma_add_then_undo<O>(f: Seq<Feature<O>>, x: Feature<O>)
    ensures
        after_undo(f.push(x), Seq::empty()) == (f, seq![x], true),
        !after_redo(f.push(x), Seq::<Feature<O>>::empty()).2,
{
    assert(f.push(x).drop_last() =~= f);
    assert(Seq::<Feature<O>>::empty().push(x) =~= seq![x]);
}

/// Removing at the position where a feature was inserted takes out that
/// feature and gives back the tree as it was.
pub proof fn lemma_insert_then_remove<O>(f: Seq<Feature<O>>, index: int, x: Feature<O>)
    ensures
        ({
            let p = insert_position(f.len(), index);
            &&& 0 <= p ==> f.insert(p, x).remove(p) == f
            &&& 0 <= p ==> f.insert(p, x)[p] == x
        }),
{
    let p = insert_position(f.len(), index);
    if 0 <= p {
        assert(f.insert(p, x).remove(p) =~= f);
    }
}

/// Moving a feature from `a` to `b` and back from `b` to `a` gives back
/// the tree; a move keeps the tree's length and its features.
pub proof fn lemma_reorder_back<O>(f: Seq<Feature<O>>, a: int, b: int)
    ensures
        after_reorder(after_reorder(f, a, b), b, a) == f,
        after_reorder(f, a, b).len() == f.len(),
        after_reorder(f, a, b).to_multiset() == f.to_multiset(),
{
    if 0 <= a < f.len() && 0 <= b < f.len() {
        let g = f.remove(a).insert(b, f[a]);
        assert(g[b] == f[a]);
        assert(g.remove(b) =~= f.remove(a));
        assert(f.remove(a).insert(a, f[a]) =~= f);
        vstd::seq_lib::to_multiset_remove(f, a);
        vstd::seq_lib::to_multiset_insert(f.remove(a), b, f[a]);
        vstd::seq_lib::to_multiset_contains(f, f[a]);
        broadcast use vstd::multiset::group_multiset_axioms;
        assert(f.to_multiset().remove(f[a]).insert(f[a]) =~= f.to_multiset());
    }
}

} // verus!

use vstd::prelude::*;

verus! {

/// A path in the file tree, as the names of its components from the top.
#[derive(Debug)]
pub struct FilePath {
    pub components: Vec<String>,
}

impl View for FilePath {
    type V = Seq<Seq<char>>;

    open spec fn view(&self) -> Seq<Seq<char>> {
        Seq::new(self.components@.len(), |i: int| self.components@[i]@)
    }
}

/// Whether `path` is `base` or lies under it: `base`'s components are the
/// first of `path`'s.
pub open spec fn is_under(path: Seq<Seq<char>>, base: Seq<Seq<char>>) -> bool {
    base.len() <= path.len() && path.take(base.len() as int) == base
}

/// Whether `path` is one of `excludes` or lies under one of them.
pub open spec fn excluded(path: Seq<Seq<char>>, excludes: Seq<FilePath>) -> bool {
    exists|i: int| 0 <= i < excludes.len() && is_under(path, #[trigger] excludes[i]@)
}

impl FilePath {
    /// The path with the given components.
    pub fn new(components: Vec<String>) -> (r: FilePath)
        ensures
            r.components == components,
    {
        FilePath { components }
    }

    /// Whether the path is `base` or lies under it.
    pub fn is_under(&self, base: &FilePath) -> (r: bool)
        ensures
            r == is_under(self@, base@),
    {
        if base.components.len() > self.components.len() {
            return false;
        }
        let mut i: usize = 0;
        while i < base.components.len()
            invariant
                i <= base.components.len(),
                base.components.len() <= self.components.len(),
                forall|k: int| 0 <= k < i ==> self@[k] == base@[k],
            decreases base.components.len() - i,
        {
            if !(self.components[i] == base.components[i]) {
                assert(self@.take(base@.len() as int)[i as int] != base@[i as int]);
                return false;
            }
            i += 1;
        }
        assert(self@.take(base@.len() as int) =~= base@);
        true
    }

    /// Whether the path is one of `excludes` or lies under one of them.
    pub fn is_excluded(&self, excludes: &Vec<FilePath>) -> (r: bool)
        ensures
            r == excluded(self@, excludes@),
    {
        let mut i: usize = 0;
        while i < excludes.len()
            invariant
                i <= excludes.len(),
                forall|k: int| 0 <= k < i ==> !is_under(self@, #[trigger] excludes@[k]@),
            decreases excludes.len() - i,
        {
            if self.is_under(&excludes[i]) {
                return true;
            }
            i += 1;
        }
        false
    }
}

/// What lies under an excluded path is excluded, however deep.
pub proof fn lemma_excluded_descends(
    path: Seq<Seq<char>>,
    dir: Seq<Seq<char>>,
    excludes: Seq<FilePath>,
)
    requires
        is_under(path, dir),
        excluded(dir, excludes),
    ensures
        excluded(path, excludes),
{
    let i = choose|i: int| 0 <= i < excludes.len() && is_under(dir, #[trigger] excludes[i]@);
    let base = excludes[i]@;
    assert(path.take(base.len() as int) =~= dir.take(base.len() as int)) by {
        assert forall|k: int| 0 <= k < base.len() implies path[k] == dir[k] by {
            assert(path.take(dir.len() as int)[k] == dir[k]);
        }
    }
    assert(is_under(path, excludes[i]@));
}

/// The paths that a walk still has to visit, the next one last, and the
/// paths that it leaves out together with all that lies under them. None
/// of the paths to visit is left out.
pub struct Walk {
    excludes: Vec<FilePath>,
    pending: Vec<FilePath>,
}

/// The entries that are not excluded, the first of them last.
pub open spec fn stacked(entries: Seq<FilePath>, excludes: Seq<FilePath>) -> Seq<FilePath>
    decreases entries.len(),
{
    if entries.len() == 0 {
        Seq::empty()
    } else {
        let rest = stacked(entries.drop_last(), excludes);
        if excluded(entries.last()@, excludes) {
            rest
        } else {
            seq![entries.last()] + rest
        }
    }
}

impl Walk {
    /// Whether none of the paths to visit is left out. Every walk that
    /// `new` has made keeps this through `push_entries` and `next`.
    pub open spec fn wf(&self) -> bool {
        forall|i: int|
            0 <= i < self.pending().len() ==> !excluded(
                (#[trigger] self.pending()[i])@,
                self.excludes(),
            )
    }

    /// The paths that the walk leaves out.
    pub closed spec fn excludes(&self) -> Seq<FilePath> {
        self.excludes@
    }

    /// The paths that the walk still has to visit, the next one last.
    pub closed spec fn pending(&self) -> Seq<FilePath> {
        self.pending@
    }

    /// A walk that leaves out `excludes` and has nothing to visit yet.
    pub fn new(excludes: Vec<FilePath>) -> (r: Walk)
        ensures
            r.wf(),
            r.excludes() == excludes@,
            r.pending() == Seq::<FilePath>::empty(),
    {
        Walk { excludes, pending: Vec::new() }
    }

    /// Takes the entries of a directory: those that are not excluded will be
    /// visited before anything that was pending, in the order given.
    pub fn push_entries(&mut self, entries: Vec<FilePath>)
        requires
            old(self).wf(),
        ensures
            final(self).wf(),
            final(self).excludes() == old(self).excludes(),
            final(self).pending() == old(self).pending() + stacked(entries@, old(self).excludes()),
    {
        let mut entries = entries;
        let ghost all = entries@;
        assert(self.pending@ + Seq::<FilePath>::empty() =~= self.pending@);
        while entries.len() > 0
            invariant
                self.wf(),
                self.excludes == old(self).excludes,
                old(self).pending@ + stacked(all, self.excludes@) == self.pending@ + stacked(
                    entries@,
                    self.excludes@,
                ),
            decreases entries.len(),
        {
            let ghost earlier = *self;
            let ghost before = self.pending@;
            let ghost left = entries@;
            let entry = entries.pop().unwrap();
            assert(entries@ =~= left.drop_last());
            if !entry.is_excluded(&self.excludes) {
                self.pending.push(entry);
                assert forall|i: int| 0 <= i < self.pending().len() implies !excluded(
                    (#[trigger] self.pending()[i])@,
                    self.excludes(),
                ) by {
                    if i < before.len() {
                        assert(self.pending()[i] == earlier.pending()[i]);
                    }
                }
                assert(self.pending@ + stacked(entries@, self.excludes@) =~= before + stacked(
                    left,
                    self.excludes@,
                ));
            }
        }
        assert(self.pending@ + Seq::<FilePath>::empty() =~= self.pending@);
    }

    /// The next path to visit, if any is left. It is never an excluded one,
    /// nor one that lies under an excluded one, however deep: such a path is
    /// neither read and checked nor rewritten.
    pub fn next(&mut self) -> (r: Option<FilePath>)
        requires
            old(self).wf(),
        ensures
            final(self).wf(),
            final(self).excludes() == old(self).excludes(),
            old(self).pending().len() == 0 ==> r is None,
            old(self).pending().len() == 0 ==> final(self).pending() == old(self).pending(),
            old(self).pending().len() > 0 ==> r == Some(old(self).pending().last()),
            old(self).pending().len() > 0 ==> final(self).pending() == old(self).pending().drop_last(),
            r is Some ==> !excluded(r->0@, old(self).excludes()),
            r is Some ==> forall|dir: Seq<Seq<char>>|
                excluded(dir, old(self).excludes()) ==> !#[trigger] is_under(r->0@, dir),
    {
        let r = self.pending.pop();
        proof {
            if r is Some {
                assert forall|dir: Seq<Seq<char>>|
                    excluded(dir, old(self).excludes()) implies !#[trigger] is_under(
                    r->0@,
                    dir,
                ) by {
                    if is_under(r->0@, dir) {
                        lemma_excluded_descends(r->0@, dir, old(self).excludes());
                    }
                }
            }
        }
        assert(old(self).pending@.len() > 0 ==> self.pending@ =~= old(self).pending@.drop_last());
        r
    }
}

/// In every state of a walk, none of the paths that it still has to visit
/// is an excluded one or lies under one, however deep. What a run checks or
/// rewrites is what the walk hands out, so it never touches such a path.
pub proof fn lemma_walk_skips_excluded(walk: Walk, dir: Seq<Seq<char>>, i: int)
    requires
        walk.wf(),
        excluded(dir, walk.excludes()),
        0 <= i < walk.pending().len(),
    ensures
        !is_under(walk.pending()[i]@, dir),
{
    if is_under(walk.pending()[i]@, dir) {
        lemma_excluded_descends(walk.pending()[i]@, dir, walk.excludes());
    }
}

} // verus!

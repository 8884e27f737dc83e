//! The watch table: one entry for each watched path, in the order of the
//! paths.

use crate::content::FileType;
use crate::path::{
    compare, lemma_path_before_irreflexive, lemma_path_before_total,
    lemma_path_before_transitive, path_before, PathOrder,
};
use vstd::prelude::*;

verus! {

/// The time at which a file was last modified, in nanoseconds since the
/// Unix epoch; negative for a time before it.
#[derive(Clone, Copy, Debug, PartialEq, Eq, Structural)]
pub struct Timestamp {
    pub nanos: i128,
}

impl Timestamp {
    /// Whether this time is strictly later than `other`.
    pub fn is_after(self, other: Timestamp) -> (later: bool)
        ensures
            later == (self.nanos > other.nanos),
    {
        self.nanos > other.nanos
    }
}

/// The entry of one watched path.
pub struct Watch<T> {
    /// The watched path.
    pub path: String,
    /// The tokens of the subscribers, in the order in which they registered.
    pub opaque: Vec<T>,
    /// How the file is read.
    pub tp: FileType,
    /// The modification time that the subscribers were last told of.
    pub modified: Timestamp,
}

/// A [`Watch`] as a mathematical value.
pub struct WatchView<T> {
    pub path: Seq<char>,
    pub opaque: Seq<T>,
    pub tp: FileType,
    pub modified: Timestamp,
}

impl<T> View for Watch<T> {
    type V = WatchView<T>;

    open spec fn view(&self) -> WatchView<T> {
        WatchView {
            path: self.path@,
            opaque: self.opaque@,
            tp: self.tp,
            modified: self.modified,
        }
    }
}

/// The entries stand in the strict order of their paths, so no path occurs
/// twice.
pub open spec fn sorted<T>(t: Seq<WatchView<T>>) -> bool {
    forall|i: int, j: int|
        #![trigger t[i], t[j]]
        0 <= i < j < t.len() ==> path_before(t[i].path, t[j].path)
}

/// The table has an entry for `path`.
pub open spec fn watches<T>(t: Seq<WatchView<T>>, path: Seq<char>) -> bool {
    exists|i: int| 0 <= i < t.len() && (#[trigger] t[i]).path == path
}

/// The index of the entry for `path`, where the table has one.
pub open spec fn position<T>(t: Seq<WatchView<T>>, path: Seq<char>) -> int {
    choose|i: int| 0 <= i < t.len() && (#[trigger] t[i]).path == path
}

/// The entry for `path`, where the table has one.
pub open spec fn entry<T>(t: Seq<WatchView<T>>, path: Seq<char>) -> WatchView<T> {
    t[position(t, path)]
}

/// The paths that the table has an entry for.
pub open spec fn paths<T>(t: Seq<WatchView<T>>) -> Set<Seq<char>> {
    Set::new(|path: Seq<char>| watches(t, path))
}

/// `k` splits the table into the entries whose paths come before `path`
/// and the others.
pub open spec fn splits_at<T>(t: Seq<WatchView<T>>, path: Seq<char>, k: int) -> bool {
    &&& 0 <= k <= t.len()
    &&& forall|j: int| 0 <= j < k ==> path_before((#[trigger] t[j]).path, path)
    &&& forall|j: int| k <= j < t.len() ==> !path_before((#[trigger] t[j]).path, path)
}

/// The number of entries whose paths come before `path`: the index at which
/// an entry for `path` belongs.
pub open spec fn rank<T>(t: Seq<WatchView<T>>, path: Seq<char>) -> int {
    choose|k: int| splits_at(t, path, k)
}

/// The table with the entry `w` added where its path belongs.
pub open spec fn with_watch<T>(t: Seq<WatchView<T>>, w: WatchView<T>) -> Seq<WatchView<T>> {
    t.insert(rank(t, w.path), w)
}

/// The table without the entry for `path`, if it has one.
pub open spec fn without<T>(t: Seq<WatchView<T>>, path: Seq<char>) -> Seq<WatchView<T>> {
    if watches(t, path) {
        t.remove(position(t, path))
    } else {
        t
    }
}

/// The table without the entries for the paths in `gone`.
pub open spec fn without_all<T>(t: Seq<WatchView<T>>, gone: Seq<Seq<char>>) -> Seq<WatchView<T>>
    decreases gone.len(),
{
    if gone.len() == 0 {
        t
    } else {
        without(without_all(t, gone.drop_last()), gone.last())
    }
}

/// The table with one more subscriber on its `i`-th entry.
pub open spec fn with_subscriber<T>(t: Seq<WatchView<T>>, i: int, opaque: T) -> Seq<WatchView<T>> {
    t.update(i, WatchView { opaque: t[i].opaque.push(opaque), ..t[i] })
}

/// The table with a new modification time on its `i`-th entry.
pub open spec fn with_modified<T>(t: Seq<WatchView<T>>, i: int, modified: Timestamp) -> Seq<
    WatchView<T>,
> {
    t.update(i, WatchView { modified, ..t[i] })
}

/// In a sorted table the entry for a path is found at one index only.
pub proof fn lemma_position_unique<T>(t: Seq<WatchView<T>>, i: int)
    requires
        sorted(t),
        0 <= i < t.len(),
    ensures
        watches(t, t[i].path),
        position(t, t[i].path) == i,
{
    let j = position(t, t[i].path);
    lemma_path_before_irreflexive(t[i].path);
    if j < i {
        assert(path_before(t[j].path, t[i].path));
    } else if i < j {
        assert(path_before(t[i].path, t[j].path));
    }
}

/// At most one index splits a table at a path.
pub proof fn lemma_rank_unique<T>(t: Seq<WatchView<T>>, path: Seq<char>, k: int)
    requires
        splits_at(t, path, k),
    ensures
        rank(t, path) == k,
{
    let r = rank(t, path);
    if r < k {
        assert(path_before(t[r].path, path));
    } else if k < r {
        assert(path_before(t[k].path, path));
    }
}

/// Adding an entry for a path that the table lacks keeps the table sorted,
/// adds that path and no other, and leaves the other entries as they are.
pub proof fn lemma_with_watch<T>(t: Seq<WatchView<T>>, w: WatchView<T>)
    requires
        sorted(t),
        !watches(t, w.path),
    ensures
        splits_at(t, w.path, rank(t, w.path)),
        sorted(with_watch(t, w)),
        with_watch(t, w)[rank(t, w.path)] == w,
        paths(with_watch(t, w)) == paths(t).insert(w.path),
        entry(with_watch(t, w), w.path) == w,
        forall|p: Seq<char>| watches(t, p) ==> #[trigger] entry(with_watch(t, w), p) == entry(t, p),
{
    lemma_rank_exists(t, w.path);
    let k = rank(t, w.path);
    let u = with_watch(t, w);
    assert forall|i: int, j: int| 0 <= i < j < u.len() implies path_before(
        #[trigger] u[i].path,
        #[trigger] u[j].path,
    ) by {
        if j == k {
            assert(u[i] == t[i]);
        } else if i == k {
            assert(u[j] == t[j - 1]);
            assert(!path_before(t[j - 1].path, w.path));
            lemma_path_before_total(t[j - 1].path, w.path);
        } else {
            let a = if i < k { i } else { i - 1 };
            let b = if j < k { j } else { j - 1 };
            assert(u[i] == t[a] && u[j] == t[b]);
        }
    }
    assert forall|p: Seq<char>| watches(u, p) <==> p == w.path || watches(t, p) by {
        if watches(u, p) {
            let i = position(u, p);
            if i != k {
                let a = if i < k { i } else { i - 1 };
                assert(u[i] == t[a]);
            }
        }
        if p == w.path {
            assert(u[k].path == p);
        }
        if watches(t, p) {
            let a = position(t, p);
            let i = if a < k { a } else { a + 1 };
            assert(u[i] == t[a]);
        }
    }
    assert(paths(u) =~= paths(t).insert(w.path));
    lemma_position_unique(u, k);
    assert forall|p: Seq<char>| watches(t, p) implies #[trigger] entry(u, p) == entry(t, p) by {
        let a = position(t, p);
        let i = if a < k {
            a
        } else {
            a + 1
        };
        assert(u[i] == t[a]);
        lemma_position_unique(u, i);
    }
}

/// Every sorted table is split at every path.
pub proof fn lemma_rank_exists<T>(t: Seq<WatchView<T>>, path: Seq<char>)
    requires
        sorted(t),
    ensures
        splits_at(t, path, rank(t, path)),
    decreases t.len(),
{
    if t.len() == 0 {
        assert(splits_at(t, path, 0));
    } else if path_before(t.last().path, path) {
        assert forall|j: int| 0 <= j < t.len() implies path_before(
            (#[trigger] t[j]).path,
            path,
        ) by {
            if j < t.len() - 1 {
                assert(path_before(t[j].path, t[t.len() - 1].path));
                lemma_path_before_transitive(t[j].path, t.last().path, path);
            }
        }
        assert(splits_at(t, path, t.len() as int));
    } else {
        let head = t.drop_last();
        assert forall|i: int, j: int| 0 <= i < j < head.len() implies path_before(
            #[trigger] head[i].path,
            #[trigger] head[j].path,
        ) by {
            assert(head[i] == t[i] && head[j] == t[j]);
        }
        lemma_rank_exists(head, path);
        let k = rank(head, path);
        assert forall|j: int| 0 <= j < k implies path_before((#[trigger] t[j]).path, path) by {
            assert(head[j] == t[j]);
        }
        assert forall|j: int| k <= j < t.len() implies !path_before(
            (#[trigger] t[j]).path,
            path,
        ) by {
            if j < t.len() - 1 {
                assert(head[j] == t[j]);
            }
        }
        assert(splits_at(t, path, k));
    }
}

/// A new subscriber or a new modification time on an entry leaves the table
/// sorted, its paths as they are, and the other entries as they are.
pub proof fn lemma_update_keeps_paths<T>(t: Seq<WatchView<T>>, i: int, w: WatchView<T>)
    requires
        sorted(t),
        0 <= i < t.len(),
        w.path == t[i].path,
    ensures
        sorted(t.update(i, w)),
        paths(t.update(i, w)) == paths(t),
        forall|p: Seq<char>|
            watches(t, p) ==> #[trigger] entry(t.update(i, w), p) == if p == w.path {
                w
            } else {
                entry(t, p)
            },
{
    let u = t.update(i, w);
    assert forall|a: int, b: int| 0 <= a < b < u.len() implies path_before(
        #[trigger] u[a].path,
        #[trigger] u[b].path,
    ) by {
        assert(u[a].path == t[a].path && u[b].path == t[b].path);
    }
    assert forall|p: Seq<char>| watches(u, p) <==> watches(t, p) by {
        if watches(u, p) {
            let j = position(u, p);
            assert(t[j].path == p);
        }
        if watches(t, p) {
            let j = position(t, p);
            assert(u[j].path == p);
        }
    }
    assert(paths(u) =~= paths(t));
    lemma_position_unique(t, i);
    assert forall|p: Seq<char>| watches(t, p) implies #[trigger] entry(u, p) == if p == w.path {
        w
    } else {
        entry(t, p)
    } by {
        let j = position(t, p);
        assert(u[j].path == p);
        lemma_position_unique(u, j);
    }
}

/// Taking the entry of a path out keeps the table sorted, takes out that
/// path and no other, and leaves the other entries as they are.
pub proof fn lemma_without<T>(t: Seq<WatchView<T>>, path: Seq<char>)
    requires
        sorted(t),
    ensures
        sorted(without(t, path)),
        paths(without(t, path)) == paths(t).remove(path),
        !watches(t, path) ==> without(t, path) == t,
        forall|p: Seq<char>|
            watches(without(t, path), p) ==> #[trigger] entry(without(t, path), p) == entry(t, p),
{
    let u = without(t, path);
    if watches(t, path) {
        let k = position(t, path);
        assert forall|i: int, j: int| 0 <= i < j < u.len() implies path_before(
            #[trigger] u[i].path,
            #[trigger] u[j].path,
        ) by {
            let a = if i < k { i } else { i + 1 };
            let b = if j < k { j } else { j + 1 };
            assert(u[i] == t[a] && u[j] == t[b]);
        }
        assert forall|p: Seq<char>| watches(u, p) <==> p != path && watches(t, p) by {
            if watches(u, p) {
                let i = position(u, p);
                let a = if i < k { i } else { i + 1 };
                assert(u[i] == t[a]);
                lemma_position_unique(t, a);
            }
            if p != path && watches(t, p) {
                let a = position(t, p);
                let i = if a < k { a } else { a - 1 };
                assert(u[i] == t[a]);
            }
        }
        assert(paths(u) =~= paths(t).remove(path));
        assert forall|p: Seq<char>| watches(u, p) implies #[trigger] entry(u, p) == entry(t, p) by {
            let j = position(u, p);
            let a = if j < k {
                j
            } else {
                j + 1
            };
            assert(u[j] == t[a]);
            lemma_position_unique(t, a);
        }
    } else {
        assert(paths(u) =~= paths(t).remove(path));
    }
}

/// Taking the entries of several paths out keeps the table sorted, takes
/// out those paths and no others, and leaves the other entries as they are.
pub proof fn lemma_without_all<T>(t: Seq<WatchView<T>>, gone: Seq<Seq<char>>)
    requires
        sorted(t),
    ensures
        sorted(without_all(t, gone)),
        paths(without_all(t, gone)) == paths(t).difference(gone.to_set()),
        forall|p: Seq<char>|
            watches(without_all(t, gone), p) ==> #[trigger] entry(without_all(t, gone), p)
                == entry(t, p),
    decreases gone.len(),
{
    if gone.len() == 0 {
        assert(paths(t) =~= paths(t).difference(gone.to_set()));
    } else {
        let head = gone.drop_last();
        lemma_without_all(t, head);
        lemma_without(without_all(t, head), gone.last());
        assert forall|p: Seq<char>| gone.to_set().contains(p) <==> p == gone.last()
            || head.to_set().contains(p) by {
            if gone.to_set().contains(p) {
                let i = choose|i: int| 0 <= i < gone.len() && gone[i] == p;
                if i < gone.len() - 1 {
                    assert(head[i] == p);
                }
            }
            if head.to_set().contains(p) {
                let i = choose|i: int| 0 <= i < head.len() && head[i] == p;
                assert(gone[i] == p);
            }
            if p == gone.last() {
                assert(gone[gone.len() - 1] == p);
            }
        }
        assert(paths(without_all(t, gone)) =~= paths(t).difference(gone.to_set()));
        assert forall|p: Seq<char>| watches(without_all(t, gone), p) implies #[trigger] entry(
            without_all(t, gone),
            p,
        ) == entry(t, p) by {
            assert(paths(without_all(t, gone)).contains(p));
            assert(paths(without_all(t, head)).contains(p));
            assert(entry(without_all(t, gone), p) == entry(without_all(t, head), p));
        }
    }
}

/// The watch table.
pub struct WatchTable<T> {
    entries: Vec<Watch<T>>,
}

/// The entries as mathematical values.
pub open spec fn views<T>(entries: Seq<Watch<T>>) -> Seq<WatchView<T>> {
    entries.map_values(|w: Watch<T>| w@)
}

impl<T> View for WatchTable<T> {
    type V = Seq<WatchView<T>>;

    closed spec fn view(&self) -> Seq<WatchView<T>> {
        views(self.entries@)
    }
}

impl<T> WatchTable<T> {
    /// The table is well formed: its entries are sorted by path. This holds
    /// of every table at all times.
    #[verifier::type_invariant]
    pub open spec fn wf(&self) -> bool {
        sorted(self@)
    }

    /// An empty table.
    pub fn new() -> (table: Self)
        ensures
            table@ == Seq::<WatchView<T>>::empty(),
            table.wf(),
    {
        let table = WatchTable { entries: Vec::new() };
        assert(table@ =~= Seq::<WatchView<T>>::empty());
        table
    }

    /// The number of watched paths fits a machine word.
    pub proof fn lemma_len_fits(&self)
        ensures
            self@.len() <= usize::MAX,
    {
        assert(self@.len() == self.entries.len());
    }

    /// The number of watched paths.
    pub fn len(&self) -> (n: usize)
        ensures
            n == self@.len(),
    {
        self.entries.len()
    }

    /// The index of the entry for `path`.
    pub fn find(&self, path: &String) -> (found: Option<usize>)
        ensures
            match found {
                Some(i) => i < self@.len() && self@[i as int].path == path@,
                None => !watches(self@, path@),
            },
            found is Some ==> found->0 == position(self@, path@),
    {
        proof {
            use_type_invariant(self);
        }
        let mut i: usize = 0;
        while i < self.entries.len()
            invariant
                self.wf(),
                i <= self.entries.len(),
                forall|j: int| 0 <= j < i ==> (#[trigger] self@[j]).path != path@,
            decreases self.entries.len() - i,
        {
            if self.entries[i].path == *path {
                proof {
                    lemma_position_unique(self@, i as int);
                }
                return Some(i);
            }
            i += 1;
        }
        None
    }

    /// Whether `path` is watched.
    pub fn contains(&self, path: &String) -> (watched: bool)
        ensures
            watched == watches(self@, path@),
    {
        self.find(path).is_some()
    }

    /// The entry at index `i`, counted in the order of the paths.
    pub fn get(&self, i: usize) -> (watch: Option<&Watch<T>>)
        ensures
            match watch {
                Some(watch) => i < self@.len() && watch@ == self@[i as int],
                None => i >= self@.len(),
            },
    {
        if i < self.entries.len() {
            Some(self.at(i))
        } else {
            None
        }
    }

    /// The entry for `path`.
    pub fn lookup(&self, path: &String) -> (watch: Option<&Watch<T>>)
        ensures
            match watch {
                Some(watch) => watches(self@, path@) && watch@ == self@[position(self@, path@)],
                None => !watches(self@, path@),
            },
    {
        match self.find(path) {
            Some(i) => Some(self.at(i)),
            None => None,
        }
    }

    /// The entry at index `i`.
    pub(crate) fn at(&self, i: usize) -> (watch: &Watch<T>)
        requires
            i < self@.len(),
        ensures
            watch@ == self@[i as int],
    {
        &self.entries[i]
    }

    /// Adds an entry with one subscriber for a path that is not watched yet.
    pub(crate) fn insert(&mut self, path: String, opaque: T, tp: FileType, modified: Timestamp)
        requires
            !watches(old(self)@, path@),
        ensures
            final(self).wf(),
            final(self)@ == with_watch(
                old(self)@,
                WatchView { path: path@, opaque: seq![opaque], tp, modified },
            ),
    {
        proof {
            use_type_invariant(&*self);
        }
        let k = self.rank_of(&path);
        let ghost w = WatchView { path: path@, opaque: seq![opaque], tp, modified };
        proof {
            lemma_with_watch(self@, w);
            let t = self@;
            assert forall|j: int| k <= j < t.len() implies !path_before(
                (#[trigger] t[j]).path,
                path@,
            ) by {
                if j > k && path_before(t[j].path, path@) {
                    assert(path_before(t[k as int].path, t[j].path));
                    lemma_path_before_transitive(t[k as int].path, t[j].path, path@);
                }
            }
            lemma_rank_unique(t, path@, k as int);
        }
        let mut subscribers = Vec::new();
        subscribers.push(opaque);
        let watch = Watch { path, opaque: subscribers, tp, modified };
        assert(watch@ =~= w) by {
            assert(watch.opaque@ =~= seq![opaque]);
        }
        let mut entries = Vec::new();
        core::mem::swap(&mut entries, &mut self.entries);
        entries.insert(k, watch);
        assert(views(entries@) =~= with_watch(old(self)@, w));
        self.entries = entries;
    }

    /// The number of entries whose paths come before `path`.
    fn rank_of(&self, path: &String) -> (k: usize)
        ensures
            k <= self@.len(),
            forall|j: int| 0 <= j < k ==> path_before((#[trigger] self@[j]).path, path@),
            k < self@.len() ==> !path_before(self@[k as int].path, path@),
    {
        let mut k: usize = 0;
        while k < self.entries.len()
            invariant
                k <= self.entries.len(),
                forall|j: int| 0 <= j < k ==> path_before((#[trigger] self@[j]).path, path@),
            decreases self.entries.len() - k,
        {
            if compare(&self.entries[k].path, path) != PathOrder::Before {
                return k;
            }
            k += 1;
        }
        k
    }

    /// Takes out the entry for `path`, if there is one.
    pub(crate) fn remove(&mut self, path: &String)
        ensures
            final(self).wf(),
            final(self)@ == without(old(self)@, path@),
    {
        proof {
            use_type_invariant(&*self);
            lemma_without(self@, path@);
        }
        match self.find(path) {
            Some(i) => {
                let mut entries = Vec::new();
                core::mem::swap(&mut entries, &mut self.entries);
                entries.remove(i);
                assert(views(entries@) =~= without(old(self)@, path@));
                self.entries = entries;
            },
            None => {},
        }
    }

    /// Takes out the entries for the paths in `gone`.
    pub(crate) fn remove_all(&mut self, gone: &Vec<String>)
        ensures
            final(self).wf(),
            final(self)@ == without_all(old(self)@, gone@.map_values(|p: String| p@)),
    {
        proof {
            use_type_invariant(&*self);
        }
        let ghost marked = gone@.map_values(|p: String| p@);
        let mut n: usize = 0;
        while n < gone.len()
            invariant
                n <= gone.len(),
                marked == gone@.map_values(|p: String| p@),
                self.wf(),
                self@ == without_all(old(self)@, marked.take(n as int)),
            decreases gone.len() - n,
        {
            self.remove(&gone[n]);
            proof {
                assert(marked.take(n + 1).drop_last() =~= marked.take(n as int));
            }
            n += 1;
        }
        assert(marked.take(n as int) =~= marked);
    }

    /// Adds a subscriber to the entry at index `i`.
    pub(crate) fn subscribe(&mut self, i: usize, opaque: T)
        requires
            i < old(self)@.len(),
        ensures
            final(self).wf(),
            final(self)@ == with_subscriber(old(self)@, i as int, opaque),
    {
        proof {
            use_type_invariant(&*self);
            lemma_update_keeps_paths(
                self@,
                i as int,
                WatchView { opaque: self@[i as int].opaque.push(opaque), ..self@[i as int] },
            );
        }
        let mut entries = Vec::new();
        core::mem::swap(&mut entries, &mut self.entries);
        entries[i].opaque.push(opaque);
        assert(views(entries@) =~= with_subscriber(old(self)@, i as int, opaque));
        self.entries = entries;
    }

    /// Sets the modification time of the entry at index `i`.
    pub(crate) fn touch(&mut self, i: usize, modified: Timestamp)
        requires
            i < old(self)@.len(),
        ensures
            final(self).wf(),
            final(self)@ == with_modified(old(self)@, i as int, modified),
    {
        proof {
            use_type_invariant(&*self);
            lemma_update_keeps_paths(
                self@,
                i as int,
                WatchView { modified, ..self@[i as int] },
            );
        }
        let mut entries = Vec::new();
        core::mem::swap(&mut entries, &mut self.entries);
        entries[i].modified = modified;
        assert(views(entries@) =~= with_modified(old(self)@, i as int, modified));
        self.entries = entries;
    }
}

} // verus!

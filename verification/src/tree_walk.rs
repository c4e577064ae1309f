//! The depth-first walk of a directory tree that the tree printouts and the
//! recursive delete run: a state machine that asks for one directory listing
//! at a time and says which entry comes next.
//!
//! The program starts a walk with the top listing, then calls `next` until it
//! answers `Finished`. After an `Enter` of a directory it lists that
//! directory and hands the listing to `descend`. `Enter` comes before
//! everything under an entry (the tree line to print, the file to delete),
//! `Leave` after everything under a directory (the directory to delete).

use vstd::prelude::*;
use crate::entry::EntryInfo;

verus! {

/// A listed entry with everything listed under it (for a directory, the
/// nodes of its listing).
pub struct Node {
    pub entry: EntryInfo,
    pub children: Seq<Node>,
}

/// What a walk reports.
pub enum WalkEvent {
    /// An entry is reached, at this depth.
    Enter(EntryInfo, nat),
    /// Everything under the directory with this path has been walked.
    Leave(Seq<char>),
}

/// The events of a depth-first walk of the nodes `ns` at depth `depth`: for
/// each node in listing order, its `Enter`, then for a directory the walk of
/// its children one level deeper and its `Leave`.
pub open spec fn forest_events(ns: Seq<Node>, depth: nat) -> Seq<WalkEvent>
    decreases ns,
{
    if ns.len() == 0 {
        Seq::empty()
    } else {
        let n = ns[ns.len() - 1];
        forest_events(ns.subrange(0, ns.len() - 1), depth)
            + seq![WalkEvent::Enter(n.entry, depth)]
            + if n.entry.kind is Dir {
                forest_events(n.children, depth + 1).push(WalkEvent::Leave(n.entry.path@))
            } else {
                Seq::empty()
            }
    }
}

/// Number of entries that are not directories in `ns` and under its
/// directories.
pub open spec fn non_dir_total(ns: Seq<Node>) -> nat
    decreases ns,
{
    if ns.len() == 0 {
        0
    } else {
        let n = ns[ns.len() - 1];
        non_dir_total(ns.subrange(0, ns.len() - 1))
            + if n.entry.kind is Dir { non_dir_total(n.children) } else { 1 }
    }
}

/// The entries of a list of nodes.
pub open spec fn entries_of(ns: Seq<Node>) -> Seq<EntryInfo> {
    ns.map_values(|n: Node| n.entry)
}

/// The listings of the directories in `ns` and under them, in the order a
/// depth-first walk asks for them.
pub open spec fn dir_listings(ns: Seq<Node>) -> Seq<Seq<EntryInfo>>
    decreases ns,
{
    if ns.len() == 0 {
        Seq::empty()
    } else {
        let n = ns[ns.len() - 1];
        dir_listings(ns.subrange(0, ns.len() - 1))
            + if n.entry.kind is Dir { seq![entries_of(n.children)] + dir_listings(n.children) } else { Seq::empty() }
    }
}

/// The steps a walk takes before `Finished` when it starts from a top listing
/// of `top_len` entries and is handed the listings `answers`: one `Enter` per
/// listed entry and one `Leave` per listing handed in.
pub open spec fn walk_length(top_len: nat, answers: Seq<Seq<EntryInfo>>) -> nat
    decreases answers.len(),
{
    if answers.len() == 0 {
        top_len
    } else {
        walk_length(top_len, answers.drop_last()) + answers.last().len() + 1
    }
}

/// One listing being walked: its entries and the position of the entry
/// that comes next (or whose directory is being walked).
struct Frame {
    entries: Vec<EntryInfo>,
    next: usize,
}

/// What the program does next.
pub enum WalkStep {
    /// Handle this entry at this depth; for a directory, then list it and
    /// call `descend` with the listing.
    Enter { entry: EntryInfo, depth: usize },
    /// Everything under this directory has been walked.
    Leave { path: String },
    /// The whole tree has been walked.
    Finished,
}

/// A depth-first walk in progress.
pub struct Walk {
    frames: Vec<Frame>,
    base: usize,
    awaiting: bool,
    finished: bool,
    files: u64,
    done: Ghost<Seq<Seq<Node>>>,
    events: Ghost<Seq<WalkEvent>>,
    answers: Ghost<Seq<Seq<EntryInfo>>>,
    root: Ghost<Seq<EntryInfo>>,
}

/// The events of the open levels below level `j`: for each, its finished
/// nodes and the `Enter` of the directory being walked.
spec fn open_events(fs: Seq<Frame>, d: Seq<Seq<Node>>, base: nat, j: nat) -> Seq<WalkEvent>
    decreases j,
{
    if j == 0 {
        Seq::empty()
    } else {
        let k = (j - 1) as nat;
        open_events(fs, d, base, k) + forest_events(d[k as int], base + k)
            + seq![WalkEvent::Enter(fs[k as int].entries@[fs[k as int].next as int], base + k)]
    }
}

/// Non-directories among the finished nodes of the levels below `j`.
spec fn open_files(d: Seq<Seq<Node>>, j: nat) -> nat
    decreases j,
{
    if j == 0 { 0 } else { open_files(d, (j - 1) as nat) + non_dir_total(d[j - 1]) }
}

/// The listings handed in for the levels below `j`.
spec fn open_answers(fs: Seq<Frame>, d: Seq<Seq<Node>>, j: nat) -> Seq<Seq<EntryInfo>>
    decreases j,
{
    if j == 0 {
        Seq::empty()
    } else {
        let k = (j - 1) as nat;
        open_answers(fs, d, k) + (if k >= 1 { seq![fs[k as int].entries@] } else { Seq::empty() })
            + dir_listings(d[k as int])
    }
}

/// Entries not yet entered on the levels below `j`, each of which walks the
/// directory at its next position.
spec fn open_pending(fs: Seq<Frame>, j: nat) -> int
    decreases j,
{
    if j == 0 {
        0
    } else {
        let k = (j - 1) as int;
        open_pending(fs, (j - 1) as nat) + fs[k].entries@.len() - fs[k].next - 1
    }
}

/// Each level's finished nodes are its listing's entries before its next
/// position, and every level above the deepest walks a directory.
spec fn shape_ok(fs: Seq<Frame>, d: Seq<Seq<Node>>) -> bool {
    &&& d.len() == fs.len()
    &&& forall|k: int| 0 <= k < fs.len() ==> {
        &&& #[trigger] fs[k].next <= fs[k].entries@.len()
        &&& d[k].len() == fs[k].next
        &&& forall|i: int| 0 <= i < fs[k].next ==> (#[trigger] d[k][i]).entry == fs[k].entries@[i]
    }
    &&& forall|k: int| 0 <= k < fs.len() - 1 ==> #[trigger] fs[k].next < fs[k].entries@.len()
        && fs[k].entries@[fs[k].next as int].kind is Dir
}

/// Entering an entry that is not a directory finishes it as a node.
proof fn lemma_advance(fs0: Seq<Frame>, d0: Seq<Seq<Node>>, fs: Seq<Frame>, nd: Seq<Seq<Node>>, b: nat, top: nat)
    requires
        shape_ok(fs0, d0),
        fs0.len() == top + 1,
        fs.len() == top + 1,
        forall|k: int| 0 <= k < top ==> fs[k] == fs0[k],
        fs[top as int].entries@ == fs0[top as int].entries@,
        fs0[top as int].next < fs0[top as int].entries@.len(),
        fs[top as int].next == fs0[top as int].next + 1,
        !(fs0[top as int].entries@[fs0[top as int].next as int].kind is Dir),
        nd == d0.update(top as int, d0[top as int].push(Node {
            entry: fs0[top as int].entries@[fs0[top as int].next as int],
            children: Seq::empty(),
        })),
    ensures
        shape_ok(fs, nd),
        open_events(fs, nd, b, top) + forest_events(nd[top as int], b + top)
            == (open_events(fs0, d0, b, top) + forest_events(d0[top as int], b + top))
                .push(WalkEvent::Enter(fs0[top as int].entries@[fs0[top as int].next as int], b + top)),
        open_files(nd, top + 1) == open_files(d0, top + 1) + 1,
        open_answers(fs, nd, top + 1) == open_answers(fs0, d0, top + 1),
        open_pending(fs, top) == open_pending(fs0, top),
{
    let e = fs0[top as int].entries@[fs0[top as int].next as int];
    let node = Node { entry: e, children: Seq::empty() };
    lemma_open_same(fs0, d0, fs, nd, b, top);
    lemma_push_node(d0[top as int], node, b + top);
    assert forall|k: int| 0 <= k < fs.len() implies {
        &&& #[trigger] fs[k].next <= fs[k].entries@.len()
        &&& nd[k].len() == fs[k].next
        &&& forall|i: int| 0 <= i < fs[k].next ==> (#[trigger] nd[k][i]).entry == fs[k].entries@[i]
    } by {
        if k < top {
            assert(fs[k] == fs0[k]);
        }
    }
    assert forall|k: int| 0 <= k < fs.len() - 1 implies #[trigger] fs[k].next < fs[k].entries@.len()
        && fs[k].entries@[fs[k].next as int].kind is Dir by {
        assert(fs[k] == fs0[k]);
    }
    assert(open_files(nd, top + 1) == open_files(nd, top) + non_dir_total(nd[top as int]));
    assert(open_files(d0, top + 1) == open_files(d0, top) + non_dir_total(d0[top as int]));
    assert(open_answers(fs, nd, top + 1) == open_answers(fs, nd, top)
        + (if top >= 1 { seq![fs[top as int].entries@] } else { Seq::empty() }) + dir_listings(nd[top as int]));
    assert(open_answers(fs0, d0, top + 1) == open_answers(fs0, d0, top)
        + (if top >= 1 { seq![fs0[top as int].entries@] } else { Seq::empty() }) + dir_listings(d0[top as int]));
    assert(dir_listings(nd[top as int]) =~= dir_listings(d0[top as int]));
    assert(open_answers(fs, nd, top + 1) =~= open_answers(fs0, d0, top + 1));
    assert(forest_events(nd[top as int], b + top) =~= forest_events(d0[top as int], b + top)
        + seq![WalkEvent::Enter(e, b + top)]);
}

/// Finishing the deepest level finishes the directory of the level above.
proof fn lemma_pop(fs0: Seq<Frame>, d0: Seq<Seq<Node>>, fs: Seq<Frame>, nd: Seq<Seq<Node>>, b: nat, top: nat)
    requires
        shape_ok(fs0, d0),
        top >= 1,
        fs0.len() == top + 1,
        fs0[top as int].next == fs0[top as int].entries@.len(),
        fs.len() == top,
        forall|k: int| 0 <= k < top - 1 ==> fs[k] == fs0[k],
        fs[top - 1].entries@ == fs0[top - 1].entries@,
        fs[top - 1].next == fs0[top - 1].next + 1,
        nd == d0.subrange(0, top as int).update(top - 1, d0[top - 1].push(Node {
            entry: fs0[top - 1].entries@[fs0[top - 1].next as int],
            children: d0[top as int],
        })),
    ensures
        shape_ok(fs, nd),
        open_events(fs, nd, b, (top - 1) as nat) + forest_events(nd[top - 1], (b + top - 1) as nat)
            == (open_events(fs0, d0, b, top) + forest_events(d0[top as int], b + top))
                .push(WalkEvent::Leave(fs0[top - 1].entries@[fs0[top - 1].next as int].path@)),
        open_files(nd, top) == open_files(d0, top + 1),
        open_answers(fs, nd, top) == open_answers(fs0, d0, top + 1),
        open_pending(fs, (top - 1) as nat) == open_pending(fs0, (top - 1) as nat),
{
    let p = (top - 1) as nat;
    let dir = fs0[p as int].entries@[fs0[p as int].next as int];
    let node = Node { entry: dir, children: d0[top as int] };
    assert(fs0[p as int].next < fs0[p as int].entries@.len() && dir.kind is Dir);
    lemma_open_same(fs0, d0, fs, nd, b, p);
    lemma_push_node(d0[p as int], node, b + p);
    assert(entries_of(d0[top as int]) =~= fs0[top as int].entries@) by {
        assert(d0[top as int].len() == fs0[top as int].entries@.len());
        assert forall|i: int| 0 <= i < d0[top as int].len() implies
            entries_of(d0[top as int])[i] == fs0[top as int].entries@[i] by {
            assert(d0[top as int][i].entry == fs0[top as int].entries@[i]);
        }
    }
    assert forall|k: int| 0 <= k < fs.len() implies {
        &&& #[trigger] fs[k].next <= fs[k].entries@.len()
        &&& nd[k].len() == fs[k].next
        &&& forall|i: int| 0 <= i < fs[k].next ==> (#[trigger] nd[k][i]).entry == fs[k].entries@[i]
    } by {
        if k < p {
            assert(fs[k] == fs0[k]);
        } else {
            assert(fs0[p as int].next <= fs0[p as int].entries@.len());
            assert forall|i: int| 0 <= i < fs[k].next implies (#[trigger] nd[k][i]).entry == fs[k].entries@[i] by {
                if i < fs0[p as int].next {
                    assert(nd[k][i] == d0[p as int][i]);
                }
            }
        }
    }
    assert forall|k: int| 0 <= k < fs.len() - 1 implies #[trigger] fs[k].next < fs[k].entries@.len()
        && fs[k].entries@[fs[k].next as int].kind is Dir by {
        assert(fs[k] == fs0[k]);
    }
    assert(open_events(fs0, d0, b, top) == open_events(fs0, d0, b, p) + forest_events(d0[p as int], b + p)
        + seq![WalkEvent::Enter(dir, b + p)]);
    assert(open_events(fs, nd, b, p) + forest_events(nd[p as int], b + p)
        =~= (open_events(fs0, d0, b, top) + forest_events(d0[top as int], b + top))
            .push(WalkEvent::Leave(dir.path@)));
    assert(open_files(d0, top + 1) == open_files(d0, top) + non_dir_total(d0[top as int]));
    assert(open_files(d0, top) == open_files(d0, p) + non_dir_total(d0[p as int]));
    assert(open_files(nd, top) == open_files(nd, p) + non_dir_total(nd[p as int]));
    assert(open_answers(fs0, d0, top + 1) == open_answers(fs0, d0, top) + seq![fs0[top as int].entries@]
        + dir_listings(d0[top as int]));
    assert(open_answers(fs0, d0, top) == open_answers(fs0, d0, p)
        + (if p >= 1 { seq![fs0[p as int].entries@] } else { Seq::empty() }) + dir_listings(d0[p as int]));
    assert(open_answers(fs, nd, top) == open_answers(fs, nd, p)
        + (if p >= 1 { seq![fs[p as int].entries@] } else { Seq::empty() }) + dir_listings(nd[p as int]));
    assert(open_answers(fs, nd, top) =~= open_answers(fs0, d0, top + 1));
}

/// Handing in a listing opens a new, deepest level.
proof fn lemma_descend(fs0: Seq<Frame>, d0: Seq<Seq<Node>>, fs: Seq<Frame>, nd: Seq<Seq<Node>>, b: nat, l: Seq<EntryInfo>)
    requires
        shape_ok(fs0, d0),
        fs0.len() >= 1,
        fs0[fs0.len() - 1].next < fs0[fs0.len() - 1].entries@.len(),
        fs0[fs0.len() - 1].entries@[fs0[fs0.len() - 1].next as int].kind is Dir,
        fs.len() == fs0.len() + 1,
        forall|k: int| 0 <= k < fs0.len() ==> fs[k] == fs0[k],
        fs[fs0.len() as int].entries@ == l,
        fs[fs0.len() as int].next == 0,
        nd == d0.push(Seq::empty()),
    ensures
        shape_ok(fs, nd),
        open_events(fs, nd, b, fs0.len()) + forest_events(nd[fs0.len() as int], b + fs0.len())
            == open_events(fs0, d0, b, fs0.len()),
        open_files(nd, fs.len()) == open_files(d0, fs0.len()),
        open_answers(fs, nd, fs.len()) == open_answers(fs0, d0, fs0.len()).push(l),
        open_pending(fs, fs0.len()) == open_pending(fs0, fs0.len()),
{
    let k0 = fs0.len() as nat;
    lemma_open_same(fs0, d0, fs, nd, b, k0);
    assert(nd[k0 as int] =~= Seq::<Node>::empty());
    assert(forest_events(nd[k0 as int], b + k0) =~= Seq::empty());
    assert(non_dir_total(nd[k0 as int]) == 0);
    assert(dir_listings(nd[k0 as int]) =~= Seq::empty());
    assert forall|k: int| 0 <= k < fs.len() implies {
        &&& #[trigger] fs[k].next <= fs[k].entries@.len()
        &&& nd[k].len() == fs[k].next
        &&& forall|i: int| 0 <= i < fs[k].next ==> (#[trigger] nd[k][i]).entry == fs[k].entries@[i]
    } by {
        if k < k0 {
            assert(fs[k] == fs0[k]);
            assert(nd[k] == d0[k]);
        }
    }
    assert forall|k: int| 0 <= k < fs.len() - 1 implies #[trigger] fs[k].next < fs[k].entries@.len()
        && fs[k].entries@[fs[k].next as int].kind is Dir by {
        assert(fs[k] == fs0[k]);
    }
    assert(open_files(nd, fs.len()) == open_files(nd, k0) + non_dir_total(nd[k0 as int]));
    assert(open_answers(fs, nd, fs.len()) =~= open_answers(fs, nd, k0) + seq![l] + dir_listings(nd[k0 as int]));
}

proof fn lemma_open_same(fs1: Seq<Frame>, d1: Seq<Seq<Node>>, fs2: Seq<Frame>, d2: Seq<Seq<Node>>, base: nat, j: nat)
    requires
        j <= fs1.len(),
        j <= fs2.len(),
        j <= d1.len(),
        j <= d2.len(),
        forall|k: int| 0 <= k < j ==> fs1[k] == fs2[k] && d1[k] == d2[k],
    ensures
        open_events(fs1, d1, base, j) == open_events(fs2, d2, base, j),
        open_files(d1, j) == open_files(d2, j),
        open_answers(fs1, d1, j) == open_answers(fs2, d2, j),
        open_pending(fs1, j) == open_pending(fs2, j),
    decreases j,
{
    if j > 0 {
        lemma_open_same(fs1, d1, fs2, d2, base, (j - 1) as nat);
    }
}

/// Levels that each walk a directory leave a nonnegative count behind.
proof fn lemma_pending_nonneg(fs: Seq<Frame>, j: nat)
    requires
        j <= fs.len(),
        forall|k: int| 0 <= k < j ==> #[trigger] fs[k].next < fs[k].entries@.len(),
    ensures
        open_pending(fs, j) >= 0,
    decreases j,
{
    if j > 0 {
        lemma_pending_nonneg(fs, (j - 1) as nat);
        assert(fs[j - 1].next < fs[j - 1].entries@.len());
    }
}

proof fn lemma_push_node(ns: Seq<Node>, n: Node, depth: nat)
    ensures
        forest_events(ns.push(n), depth) == forest_events(ns, depth) + seq![WalkEvent::Enter(n.entry, depth)]
            + if n.entry.kind is Dir {
                forest_events(n.children, depth + 1).push(WalkEvent::Leave(n.entry.path@))
            } else {
                Seq::empty()
            },
        non_dir_total(ns.push(n)) == non_dir_total(ns) + if n.entry.kind is Dir { non_dir_total(n.children) } else { 1 },
        dir_listings(ns.push(n)) == dir_listings(ns)
            + if n.entry.kind is Dir { seq![entries_of(n.children)] + dir_listings(n.children) } else { Seq::empty() },
{
    assert(ns.push(n).subrange(0, ns.len() as int) =~= ns);
    assert(ns.push(n)[ns.len() as int] == n);
}

impl Walk {
    /// The events reported so far.
    pub closed spec fn events(&self) -> Seq<WalkEvent> {
        self.events@
    }

    /// The listings handed to `descend` so far.
    pub closed spec fn answers(&self) -> Seq<Seq<EntryInfo>> {
        self.answers@
    }

    /// The top listing the walk started from.
    pub closed spec fn root(&self) -> Seq<EntryInfo> {
        self.root@
    }

    /// The depth of the top listing.
    pub closed spec fn base(&self) -> nat {
        self.base as nat
    }

    /// Whether the walk waits for the listing of the directory it entered last.
    pub closed spec fn awaiting(&self) -> bool {
        self.awaiting
    }

    /// Whether the whole tree has been walked.
    pub closed spec fn finished(&self) -> bool {
        self.finished
    }

    /// How many entries that are not directories have been entered.
    pub closed spec fn files(&self) -> nat {
        self.files as nat
    }

    /// The tree walked so far below the top listing (all of it once finished).
    pub closed spec fn tree(&self) -> Seq<Node> {
        self.done@[0]
    }

    /// How many steps of `next` remain before `Finished`, as far as the
    /// listings handed in so far reach: the entries not yet entered, and a
    /// `Leave` for every directory level below the top one.
    pub closed spec fn pending(&self) -> nat {
        let fs = self.frames@;
        let top = (fs.len() - 1) as nat;
        (open_pending(fs, top) + fs[top as int].entries@.len() - fs[top as int].next
            - (if self.awaiting { 1int } else { 0int }) + top) as nat
    }

    /// Whether one more level fits below the deepest level being walked.
    pub closed spec fn has_room(&self) -> bool {
        self.base + self.frames@.len() < usize::MAX
    }

    /// The consistency of a walk.
    pub closed spec fn wf(&self) -> bool {
        let fs = self.frames@;
        let d = self.done@;
        let top = (fs.len() - 1) as nat;
        &&& fs.len() >= 1
        &&& shape_ok(fs, d)
        &&& self.base + fs.len() <= usize::MAX
        &&& self.awaiting ==> fs[top as int].next < fs[top as int].entries@.len()
            && fs[top as int].entries@[fs[top as int].next as int].kind is Dir
        &&& self.finished ==> !self.awaiting && fs.len() == 1 && fs[0].next == fs[0].entries@.len()
        &&& self.events@ == if self.awaiting {
                open_events(fs, d, self.base as nat, fs.len())
            } else {
                open_events(fs, d, self.base as nat, top) + forest_events(d[top as int], (self.base + top) as nat)
            }
        &&& self.files == open_files(d, fs.len())
        &&& self.answers@ == open_answers(fs, d, fs.len())
        &&& self.root@ == fs[0].entries@
        &&& self.events@.len() + self.pending() == walk_length(self.root@.len(), self.answers@)
    }

    /// A walk of the tree below `root`, whose entries are at depth `indent`.
    pub fn start(root: Vec<EntryInfo>, indent: usize) -> (w: Walk)
        requires
            indent < usize::MAX,
        ensures
            w.wf(),
            w.events() == Seq::<WalkEvent>::empty(),
            w.answers() == Seq::<Seq<EntryInfo>>::empty(),
            w.root() == root@,
            w.base() == indent,
            w.files() == 0,
            !w.awaiting(),
            !w.finished(),
    {
        let ghost r = root@;
        let ghost d0: Seq<Seq<Node>> = Seq::empty().push(Seq::empty());
        let mut frames: Vec<Frame> = Vec::new();
        frames.push(Frame { entries: root, next: 0 });
        let w = Walk {
            frames,
            base: indent,
            awaiting: false,
            finished: false,
            files: 0,
            done: Ghost(d0),
            events: Ghost(Seq::empty()),
            answers: Ghost(Seq::empty()),
            root: Ghost(r),
        };
        proof {
            let fs = w.frames@;
            let d = w.done@;
            assert(forest_events(d[0], indent as nat) =~= Seq::empty());
            assert(non_dir_total(d[0]) == 0);
            assert(open_files(d, 1) == open_files(d, 0) + non_dir_total(d[0]));
            assert(d[0] =~= Seq::<Node>::empty());
            assert(dir_listings(d[0]) =~= Seq::empty());
            assert(open_answers(fs, d, 0) =~= Seq::empty());
            assert(open_answers(fs, d, 1) =~= open_answers(fs, d, 0) + dir_listings(d[0]));
            assert(w.pending() == r.len());
        }
        w
    }

    /// Whether the walk waits for a listing.
    pub fn awaiting_listing(&self) -> (b: bool)
        ensures
            b == self.awaiting(),
    {
        self.awaiting
    }

    /// Whether the whole tree has been walked.
    pub fn is_finished(&self) -> (b: bool)
        ensures
            b == self.finished(),
    {
        self.finished
    }

    /// How many entries that are not directories have been entered.
    pub fn files_entered(&self) -> (n: u64)
        ensures
            n == self.files(),
    {
        self.files
    }

    /// Whether one more level fits below the deepest level being walked.
    pub fn room_to_descend(&self) -> (b: bool)
        requires
            self.wf(),
        ensures
            b == self.has_room(),
    {
        self.frames.len() < usize::MAX - self.base
    }

    /// The next step of the walk.
    pub fn next(&mut self) -> (step: WalkStep)
        requires
            old(self).wf(),
            !old(self).awaiting(),
            !old(self).finished(),
            old(self).files() < u64::MAX,
        ensures
            final(self).wf(),
            final(self).root() == old(self).root(),
            final(self).base() == old(self).base(),
            final(self).answers() == old(self).answers(),
            step is Finished <==> old(self).pending() == 0,
            !(step is Finished) ==> final(self).pending() + 1 == old(self).pending(),
            step is Finished ==> final(self).pending() == 0,
            match step {
                WalkStep::Enter { entry, depth } => {
                    &&& final(self).events() == old(self).events().push(WalkEvent::Enter(entry, depth as nat))
                    &&& final(self).awaiting() == (entry.kind is Dir)
                    &&& !final(self).finished()
                    &&& final(self).files() == old(self).files() + if entry.kind is Dir { 0nat } else { 1nat }
                },
                WalkStep::Leave { path } => {
                    &&& final(self).events() == old(self).events().push(WalkEvent::Leave(path@))
                    &&& !final(self).awaiting()
                    &&& !final(self).finished()
                    &&& final(self).files() == old(self).files()
                },
                WalkStep::Finished => {
                    &&& final(self).events() == old(self).events()
                    &&& final(self).finished()
                    &&& final(self).files() == old(self).files()
                },
            },
    {
        let ghost fs0 = self.frames@;
        let ghost d0 = self.done@;
        let ghost b = self.base as nat;
        let top = self.frames.len() - 1;
        let n = self.frames[top].next;
        let len = self.frames[top].entries.len();
        proof {
            assert(fs0[top as int].next <= fs0[top as int].entries@.len());
            lemma_pending_nonneg(fs0, top as nat);
        }
        if n < len {
            let entry = self.frames[top].entries[n].duplicate();
            let depth = self.base + top;
            if entry.kind.is_dir() {
                self.awaiting = true;
                proof {
                    self.events@ = self.events@.push(WalkEvent::Enter(entry, depth as nat));
                    assert(open_events(fs0, d0, b, (top + 1) as nat) == open_events(fs0, d0, b, top as nat)
                        + forest_events(d0[top as int], (b + top) as nat)
                        + seq![WalkEvent::Enter(fs0[top as int].entries@[fs0[top as int].next as int], (b + top) as nat)]);
                    assert(self.events@ =~= open_events(fs0, d0, b, fs0.len()));
                }
                WalkStep::Enter { entry, depth }
            } else {
                let mut f = self.frames.pop().unwrap();
                f.next = n + 1;
                self.frames.push(f);
                self.files = self.files + 1;
                proof {
                    let node = Node { entry: entry, children: Seq::empty() };
                    let nd = d0.update(top as int, d0[top as int].push(node));
                    self.done@ = nd;
                    self.events@ = self.events@.push(WalkEvent::Enter(entry, depth as nat));
                    lemma_advance(fs0, d0, self.frames@, nd, b, top as nat);
                }
                WalkStep::Enter { entry, depth }
            }
        } else if top == 0 {
            self.finished = true;
            WalkStep::Finished
        } else {
            let _deepest = self.frames.pop();
            let mut parent = self.frames.pop().unwrap();
            proof {
                assert(parent == fs0[top - 1]);
                assert(parent.next < parent.entries@.len());
            }
            let plen = parent.entries.len();
            let path = parent.entries[parent.next].path.clone();
            proof {
                let node = Node { entry: parent.entries@[parent.next as int], children: d0[top as int] };
                self.done@ = d0.subrange(0, top as int).update(top - 1, d0[top - 1].push(node));
            }
            assert(parent.next < plen);
            parent.next = parent.next + 1;
            self.frames.push(parent);
            proof {
                self.events@ = self.events@.push(WalkEvent::Leave(path@));
                lemma_pop(fs0, d0, self.frames@, self.done@, b, top as nat);
                assert(open_pending(fs0, top as nat) == open_pending(fs0, (top - 1) as nat)
                    + fs0[top - 1].entries@.len() - fs0[top - 1].next - 1);
            }
            WalkStep::Leave { path }
        }
    }

    /// Hands in the listing of the directory entered last.
    pub fn descend(&mut self, listing: Vec<EntryInfo>)
        requires
            old(self).wf(),
            old(self).awaiting(),
            old(self).has_room(),
        ensures
            final(self).wf(),
            !final(self).awaiting(),
            !final(self).finished(),
            final(self).events() == old(self).events(),
            final(self).answers() == old(self).answers().push(listing@),
            final(self).files() == old(self).files(),
            final(self).root() == old(self).root(),
            final(self).base() == old(self).base(),
            final(self).pending() == old(self).pending() + listing@.len() + 1,
    {
        let ghost fs0 = self.frames@;
        let ghost d0 = self.done@;
        let ghost l = listing@;
        self.frames.push(Frame { entries: listing, next: 0 });
        self.awaiting = false;
        proof {
            self.done@ = d0.push(Seq::empty());
            self.answers@ = self.answers@.push(l);
            lemma_descend(fs0, d0, self.frames@, self.done@, self.base as nat, l);
            let top = (fs0.len() - 1) as nat;
            assert(open_pending(fs0, fs0.len()) == open_pending(fs0, top)
                + fs0[top as int].entries@.len() - fs0[top as int].next - 1);
            lemma_pending_nonneg(fs0, top);
            assert(self.answers@.drop_last() =~= old(self).answers@);
        }
    }
}

/// A finished walk has reported exactly the depth-first events of the tree it
/// walked, counted its entries that are not directories, and that tree is
/// the top listing with, under each directory, the listing handed in for it
/// (in the order the directories were entered).
pub proof fn finished_walk(w: &Walk)
    requires
        w.wf(),
        w.finished(),
    ensures
        w.events() == forest_events(w.tree(), w.base()),
        w.files() == non_dir_total(w.tree()),
        entries_of(w.tree()) == w.root(),
        dir_listings(w.tree()) == w.answers(),
{
    let fs = w.frames@;
    let d = w.done@;
    assert(open_events(fs, d, w.base as nat, 0) =~= Seq::empty());
    assert(open_files(d, 1) == open_files(d, 0) + non_dir_total(d[0]));
    assert(open_answers(fs, d, 1) =~= open_answers(fs, d, 0) + dir_listings(d[0]));
    assert(entries_of(d[0]) =~= fs[0].entries@);
}

/// Every step of a walk is accounted for: the steps reported so far and the
/// steps still pending make one `Enter` per entry of the top listing and of
/// each listing handed in, and one `Leave` per listing handed in. As each
/// step but `Finished` lowers `pending` by one and a listing raises it only
/// by its own length and the `Leave` it owes, a walk over a finite tree
/// reaches `Finished`, after one listing per directory entered.
pub proof fn walk_steps(w: &Walk)
    requires
        w.wf(),
    ensures
        w.events().len() + w.pending() == walk_length(w.root().len(), w.answers()),
        w.finished() ==> w.pending() == 0 && w.events().len() == walk_length(w.root().len(), w.answers()),
{
}

/// The events of a walk of `a` followed by `b` are the walk of `a` followed
/// by the walk of `b`.
pub proof fn events_of_concat(a: Seq<Node>, b: Seq<Node>, depth: nat)
    ensures
        forest_events(a + b, depth) == forest_events(a, depth) + forest_events(b, depth),
    decreases b.len(),
{
    if b.len() == 0 {
        assert(a + b =~= a);
        assert(forest_events(b, depth) =~= Seq::empty());
        assert(forest_events(a, depth) + forest_events(b, depth) =~= forest_events(a, depth));
    } else {
        let bl = b.subrange(0, b.len() - 1);
        events_of_concat(a, bl, depth);
        assert((a + b).subrange(0, (a + b).len() - 1) =~= a + bl);
        assert((a + b)[(a + b).len() - 1] == b[b.len() - 1]);
        let n = b[b.len() - 1];
        let tail = seq![WalkEvent::Enter(n.entry, depth)] + if n.entry.kind is Dir {
            forest_events(n.children, depth + 1).push(WalkEvent::Leave(n.entry.path@))
        } else {
            Seq::empty()
        };
        assert(forest_events(a + b, depth) == forest_events(a + bl, depth) + tail);
        assert(forest_events(b, depth) == forest_events(bl, depth) + tail);
        assert(forest_events(a + b, depth) =~= forest_events(a, depth) + forest_events(b, depth));
    }
}

/// The walk of a listing passes each of its entries in turn: the walk of the
/// entries before it, the entry's `Enter`, for a directory everything under
/// it one level deeper and then its `Leave`, and the walk of the entries
/// after it. So a directory is entered before and left after everything
/// under it, and each entry is reached once.
pub proof fn entry_walked_in_place(ns: Seq<Node>, i: int, depth: nat)
    requires
        0 <= i < ns.len(),
    ensures
        forest_events(ns, depth) == forest_events(ns.take(i), depth)
            + seq![WalkEvent::Enter(ns[i].entry, depth)]
            + (if ns[i].entry.kind is Dir {
                forest_events(ns[i].children, depth + 1).push(WalkEvent::Leave(ns[i].entry.path@))
            } else {
                Seq::empty()
            })
            + forest_events(ns.skip(i + 1), depth),
{
    let one = seq![ns[i]];
    assert(ns =~= ns.take(i) + one + ns.skip(i + 1));
    events_of_concat(ns.take(i) + one, ns.skip(i + 1), depth);
    events_of_concat(ns.take(i), one, depth);
    assert(one.subrange(0, 0) =~= Seq::<Node>::empty());
    assert(forest_events(Seq::<Node>::empty(), depth) =~= Seq::empty());
    assert(forest_events(one, depth) =~= seq![WalkEvent::Enter(ns[i].entry, depth)]
        + (if ns[i].entry.kind is Dir {
            forest_events(ns[i].children, depth + 1).push(WalkEvent::Leave(ns[i].entry.path@))
        } else {
            Seq::empty()
        }));
}

} // verus!

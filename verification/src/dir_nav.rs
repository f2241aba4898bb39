//! Depth-first directory navigation.
//!
//! The walker runs over an in-memory snapshot of a directory tree
//! ([`FsNode`]): the caller reads the filesystem once into such a value
//! and the walk itself is pure.  For each directory the walker announces
//! the directory to its event sink, hands over every file of that
//! directory whose extension passes the pattern filter, and only then
//! descends into the subdirectories.  The exact event order, together
//! with the file and directory counters, is given by [`dir_trace`].

use vstd::prelude::*;
use vstd::string::StrSliceExecFns;
use vstd::string::StringExecFns;

verus! {

/// A snapshot of one node of the filesystem: a file with its readable
/// contents (`None` when opening or reading the file failed), or a
/// directory with its entries.  The root node's name is the path the
/// walk was asked to start at; every other name is a bare entry name.
pub enum FsNode {
    File { name: String, contents: Option<String> },
    Dir { name: String, entries: Vec<FsNode> },
}

/// The walk failed because the root is not a directory.
#[derive(Debug, PartialEq, Eq, Clone, Copy)]
pub enum WalkError {
    NotADirectory,
}

/// One notification handed to a walker's event sink.
pub enum WalkEvent {
    Dir { path: Seq<char> },
    File { name: Seq<char>, contents: Option<Seq<char>> },
}

/// The characters of an optional file-contents value.
pub open spec fn contents_view(c: Option<String>) -> Option<Seq<char>> {
    match c {
        Some(s) => Some(s@),
        None => None,
    }
}

/// The extension of a file name: the characters after the last `.`,
/// or nothing when the name holds no `.` at all.
pub open spec fn ext_of(name: Seq<char>) -> Option<Seq<char>>
    decreases name.len(),
{
    if name.len() == 0 {
        None
    } else if name.last() == '.' {
        Some(Seq::empty())
    } else {
        match ext_of(name.drop_last()) {
            Some(e) => Some(e.push(name.last())),
            None => None,
        }
    }
}

/// Whether the name's extension is one of the patterns.
pub open spec fn ext_in(pats: Seq<Seq<char>>, name: Seq<char>) -> bool {
    match ext_of(name) {
        Some(e) => pats.contains(e),
        None => false,
    }
}

/// The filter policy of the walker: an empty pattern set accepts every
/// file, a nonempty one exactly the files whose extension it holds.
pub open spec fn accepts(pats: Seq<Seq<char>>, name: Seq<char>) -> bool {
    pats.len() == 0 || ext_in(pats, name)
}

/// An empty pattern set accepts every name; a nonempty one accepts
/// exactly the names whose extension is a member of the set.
pub proof fn lemma_accepts(pats: Seq<Seq<char>>, name: Seq<char>)
    ensures
        pats.len() == 0 ==> accepts(pats, name),
        pats.len() > 0 ==> accepts(pats, name) == ext_in(pats, name),
{
}

/// A directory path joined with an entry name.
pub open spec fn join_path(dir: Seq<char>, name: Seq<char>) -> Seq<char> {
    dir + "/"@ + name
}

/// What one walk does: the events its sink receives, in order, and how
/// far the two counters move.
pub struct WalkTrace {
    pub events: Seq<WalkEvent>,
    pub files: nat,
    pub dirs: nat,
}

/// The trace of a walk that does nothing.
pub open spec fn empty_trace() -> WalkTrace {
    WalkTrace { events: Seq::empty(), files: 0, dirs: 0 }
}

/// The trace of the file pass over `entries[i..]`: every file entry is
/// counted, and the accepted ones are announced in entry order.
pub open spec fn files_trace(entries: Seq<FsNode>, pats: Seq<Seq<char>>, i: int) -> WalkTrace
    decreases entries.len() - i,
{
    if i < 0 || i >= entries.len() {
        empty_trace()
    } else {
        let rest = files_trace(entries, pats, i + 1);
        match entries[i] {
            FsNode::File { name, contents } => WalkTrace {
                events: if accepts(pats, name@) {
                    seq![(WalkEvent::File { name: name@, contents: contents_view(contents) })]
                        + rest.events
                } else {
                    rest.events
                },
                files: rest.files + 1,
                dirs: rest.dirs,
            },
            FsNode::Dir { .. } => rest,
        }
    }
}

/// The trace of walking one directory: announce it, hand over its files,
/// then (when recursion is on) walk each subdirectory in entry order.
pub open spec fn dir_trace(
    path: Seq<char>,
    entries: Seq<FsNode>,
    pats: Seq<Seq<char>>,
    recurse: bool,
) -> WalkTrace
    decreases entries, 1int, 0int,
{
    let ft = files_trace(entries, pats, 0);
    let st = if recurse {
        subs_trace(entries, path, pats, recurse, 0)
    } else {
        empty_trace()
    };
    WalkTrace {
        events: seq![(WalkEvent::Dir { path })] + ft.events + st.events,
        files: ft.files + st.files,
        dirs: 1 + st.dirs,
    }
}

/// The trace of recursing into the subdirectories among `entries[i..]`.
pub open spec fn subs_trace(
    entries: Seq<FsNode>,
    path: Seq<char>,
    pats: Seq<Seq<char>>,
    recurse: bool,
    i: int,
) -> WalkTrace
    decreases entries, 0int, entries.len() - i,
{
    if i < 0 || i >= entries.len() {
        empty_trace()
    } else {
        let rest = subs_trace(entries, path, pats, recurse, i + 1);
        match entries[i] {
            FsNode::Dir { name, entries: sub } => {
                let child = dir_trace(join_path(path, name@), sub@, pats, recurse);
                WalkTrace {
                    events: child.events + rest.events,
                    files: child.files + rest.files,
                    dirs: child.dirs + rest.dirs,
                }
            },
            FsNode::File { .. } => rest,
        }
    }
}

/// The trace of a whole walk from `root`: nothing at all when the root
/// is not a directory.
pub open spec fn walk_trace(root: FsNode, pats: Seq<Seq<char>>, recurse: bool) -> WalkTrace {
    match root {
        FsNode::Dir { name, entries } => dir_trace(name@, entries@, pats, recurse),
        FsNode::File { .. } => empty_trace(),
    }
}

/// The capability a walker's consumer implements: it is told of each
/// directory entered and each accepted file, and its `events` view
/// records exactly the notifications received, in order.
pub trait DirEvent: Sized {
    /// The notifications this sink has received so far, oldest first.
    spec fn events(&self) -> Seq<WalkEvent>;

    /// What else, in the implementer's own terms, one delivered event
    /// changes about the sink.  The walker passes this guarantee on for
    /// every event it delivers, so a walk's effect on a concrete sink
    /// can be read off its event trace.
    spec fn step(pre: Self, post: Self, ev: WalkEvent) -> bool;

    /// A fresh sink that has seen nothing.
    fn new() -> (r: Self)
        ensures
            r.events() == Seq::<WalkEvent>::empty(),
    ;

    /// The walker entered the directory at `dir`.
    fn do_dir(&mut self, dir: &String)
        ensures
            final(self).events() == old(self).events().push((WalkEvent::Dir { path: dir@ })),
            Self::step(*old(self), *final(self), (WalkEvent::Dir { path: dir@ })),
    ;

    /// The walker found the accepted file `name` in the directory it
    /// last announced; `contents` is what could be read from it.
    fn do_file(&mut self, name: &String, contents: &Option<String>)
        ensures
            final(self).events() == old(self).events().push(
                (WalkEvent::File { name: name@, contents: contents_view(*contents) }),
            ),
            Self::step(
                *old(self),
                *final(self),
                (WalkEvent::File { name: name@, contents: contents_view(*contents) }),
            ),
    ;
}

/// The sink moved from `pre` to `post` by taking exactly the events
/// `evs`, each step as [`DirEvent::step`] describes it.
pub open spec fn steps<App: DirEvent>(pre: App, post: App, evs: Seq<WalkEvent>) -> bool
    decreases evs.len(),
{
    if evs.len() == 0 {
        post == pre
    } else {
        exists|mid: App| steps(pre, mid, evs.drop_last()) && #[trigger] App::step(
            mid,
            post,
            evs.last(),
        )
    }
}

/// A nonempty chain of steps ends in one step from some midpoint.
pub proof fn lemma_steps_unsnoc<App: DirEvent>(pre: App, post: App, evs: Seq<WalkEvent>) -> (mid:
    App)
    requires
        steps(pre, post, evs),
        evs.len() > 0,
    ensures
        steps(pre, mid, evs.drop_last()),
        App::step(mid, post, evs.last()),
{
    choose|m: App| steps(pre, m, evs.drop_last()) && #[trigger] App::step(m, post, evs.last())
}

/// Concatenation on the left cancels.
proof fn lemma_concat_cancel(x: Seq<WalkEvent>, a: Seq<WalkEvent>, b: Seq<WalkEvent>)
    requires
        x + a == x + b,
    ensures
        a == b,
{
    assert(a.len() == b.len()) by {
        assert((x + a).len() == x.len() + a.len());
        assert((x + b).len() == x.len() + b.len());
    }
    assert(a =~= b) by {
        assert forall|k: int| 0 <= k < a.len() implies a[k] == b[k] by {
            assert(a[k] == (x + a)[x.len() + k]);
            assert(b[k] == (x + b)[x.len() + k]);
        }
    }
}

/// One more step extends a chain of steps.
pub proof fn lemma_steps_snoc<App: DirEvent>(pre: App, mid: App, post: App, evs: Seq<WalkEvent>, ev: WalkEvent)
    requires
        steps(pre, mid, evs),
        App::step(mid, post, ev),
    ensures
        steps(pre, post, evs.push(ev)),
{
    assert(evs.push(ev).drop_last() =~= evs);
    assert(evs.push(ev).last() == ev);
}

/// Chains of steps compose.
pub proof fn lemma_steps_concat<App: DirEvent>(pre: App, mid: App, post: App, e1: Seq<WalkEvent>, e2: Seq<WalkEvent>)
    requires
        steps(pre, mid, e1),
        steps(mid, post, e2),
    ensures
        steps(pre, post, e1 + e2),
    decreases e2.len(),
{
    if e2.len() == 0 {
        assert(e1 + e2 =~= e1);
    } else {
        let m2 = lemma_steps_unsnoc(mid, post, e2);
        lemma_steps_concat(pre, mid, m2, e1, e2.drop_last());
        lemma_steps_snoc(pre, m2, post, e1 + e2.drop_last(), e2.last());
        assert((e1 + e2.drop_last()).push(e2.last()) =~= e1 + e2);
    }
}

/// Depth-first directory navigator.  `App` is the event sink that
/// consumes what the walk finds.
pub struct DirNav<App: DirEvent> {
    /// file extensions that mark a file as a search target
    pub pats: Vec<String>,
    /// the sink that consumes directory and file events
    pub app: App,
    /// number of files seen
    pub num_file: usize,
    /// number of directories entered
    pub num_dir: usize,
    /// descend into subdirectories?
    pub recurse: bool,
}

impl<App: DirEvent> DirNav<App> {
    /// Everything a caller can observe of the walker's state.
    pub open spec fn state_view(self) -> (Seq<Seq<char>>, nat, nat, bool, Seq<WalkEvent>) {
        (
            self.pats.deep_view(),
            self.num_file as nat,
            self.num_dir as nat,
            self.recurse,
            self.app.events(),
        )
    }

    /// The state a fresh or cleared walker is in.
    pub open spec fn is_reset(self) -> bool {
        self.state_view() == (
            Seq::<Seq<char>>::empty(),
            0nat,
            0nat,
            true,
            Seq::<WalkEvent>::empty(),
        )
    }

    pub fn new() -> (r: Self)
        ensures
            r.is_reset(),
    {
        let r = DirNav {
            pats: Vec::new(),
            app: App::new(),
            num_file: 0,
            num_dir: 0,
            recurse: true,
        };
        proof {
            assert(r.pats.deep_view() =~= Seq::<Seq<char>>::empty());
        }
        r
    }

    /// Reset to the state of a freshly constructed walker: no patterns,
    /// zero counters, recursion on, and a sink that has seen nothing.
    pub fn clear(&mut self)
        ensures
            final(self).is_reset(),
    {
        self.pats = Vec::new();
        self.num_dir = 0;
        self.num_file = 0;
        self.app = App::new();
        self.recurse = true;
        proof {
            assert(self.pats.deep_view() =~= Seq::<Seq<char>>::empty());
        }
    }

    /// Turn recursion into subdirectories on or off.
    pub fn recurse(&mut self, p: bool)
        ensures
            final(self).recurse == p,
            final(self).pats == old(self).pats,
            final(self).app == old(self).app,
            final(self).num_file == old(self).num_file,
            final(self).num_dir == old(self).num_dir,
    {
        self.recurse = p;
    }

    /// The sink, to configure it or to collect its results.
    pub fn get_app(&mut self) -> (r: &mut App)
        ensures
            *r == old(self).app,
            final(self).app == *final(r),
            final(self).pats == old(self).pats,
            final(self).num_file == old(self).num_file,
            final(self).num_dir == old(self).num_dir,
            final(self).recurse == old(self).recurse,
    {
        &mut self.app
    }

    /// Number of directories entered so far.
    pub fn get_dirs(&self) -> (r: usize)
        ensures
            r == self.num_dir,
    {
        self.num_dir
    }

    /// Number of files seen so far.
    pub fn get_files(&self) -> (r: usize)
        ensures
            r == self.num_file,
    {
        self.num_file
    }

    /// The extensions a file must carry to be handed to the sink.
    pub fn get_patts(&self) -> (r: &Vec<String>)
        ensures
            r.deep_view() == self.pats.deep_view(),
    {
        &self.pats
    }

    /// Add one extension to the pattern set; returns the walker itself
    /// so that additions can be chained.
    pub fn add_patt(&mut self, p: &str) -> (r: &mut Self)
        ensures
            (*r).pats.deep_view() == old(self).pats.deep_view().push(p@),
            (*r).app == old(self).app,
            (*r).num_file == old(self).num_file,
            (*r).num_dir == old(self).num_dir,
            (*r).recurse == old(self).recurse,
            *final(self) == *final(r),
    {
        self.pats.push(p.to_owned());
        proof {
            assert(self.pats.deep_view() =~= old(self).pats.deep_view().push(p@));
        }
        self
    }

    /// The display form of a path value.
    pub fn path_to_string(path: &String) -> (r: String)
        ensures
            r@ == path@,
    {
        path.clone()
    }

    /// Is the name's extension one of the stored patterns?  (The
    /// walker's accept-all policy for an empty set is the caller's
    /// business: this is pure membership.)
    pub fn in_patterns(&self, name: &String) -> (r: bool)
        ensures
            r == ext_in(self.pats.deep_view(), name@),
    {
        match extension_of(name) {
            Some(e) => {
                let mut i: usize = 0;
                while i < self.pats.len()
                    invariant
                        i <= self.pats@.len(),
                        forall|j: int| 0 <= j < i ==> self.pats.deep_view()[j] != e@,
                        ext_of(name@) == Some(e@),
                    decreases self.pats@.len() - i,
                {
                    if self.pats[i] == e {
                        proof {
                            assert(self.pats.deep_view()[i as int] == e@);
                        }
                        return true;
                    }
                    i = i + 1;
                }
                proof {
                    assert(!self.pats.deep_view().contains(e@));
                }
                false
            },
            None => false,
        }
    }
}

impl<App: DirEvent> DirNav<App> {
    /// Walk the directory whose full path is `path` and whose entries
    /// are `entries`: announce it, hand its accepted files to the sink,
    /// then descend into its subdirectories when recursion is on.
    fn visit_dir(&mut self, path: &String, entries: &Vec<FsNode>)
        requires
            old(self).num_file + dir_trace(
                path@,
                entries@,
                old(self).pats.deep_view(),
                old(self).recurse,
            ).files <= usize::MAX,
            old(self).num_dir + dir_trace(
                path@,
                entries@,
                old(self).pats.deep_view(),
                old(self).recurse,
            ).dirs <= usize::MAX,
        ensures
            ({
                let t = dir_trace(path@, entries@, old(self).pats.deep_view(), old(self).recurse);
                &&& final(self).app.events() == old(self).app.events() + t.events
                &&& final(self).num_file == old(self).num_file + t.files
                &&& final(self).num_dir == old(self).num_dir + t.dirs
                &&& final(self).pats == old(self).pats
                &&& final(self).recurse == old(self).recurse
                &&& steps(old(self).app, final(self).app, t.events)
            }),
        decreases entries@,
    {
        let ghost pats_v = self.pats.deep_view();
        let ghost rec = self.recurse;
        let ghost t = dir_trace(path@, entries@, pats_v, rec);
        let ghost ft = files_trace(entries@, pats_v, 0);
        let ghost st = if rec {
            subs_trace(entries@, path@, pats_v, rec, 0)
        } else {
            empty_trace()
        };
        proof {
            assert(t.files == ft.files + st.files);
            assert(t.dirs == 1 + st.dirs);
        }
        self.app.do_dir(path);
        self.num_dir = self.num_dir + 1;
        let ghost ev0 = old(self).app.events() + seq![(WalkEvent::Dir { path: path@ })];
        let ghost mut delta: Seq<WalkEvent> = seq![(WalkEvent::Dir { path: path@ })];
        proof {
            assert(self.app.events() =~= ev0);
            assert(steps(old(self).app, old(self).app, Seq::<WalkEvent>::empty()));
            lemma_steps_snoc(
                old(self).app,
                old(self).app,
                self.app,
                Seq::empty(),
                (WalkEvent::Dir { path: path@ }),
            );
            assert(Seq::empty().push((WalkEvent::Dir { path: path@ })) =~= delta);
        }
        let mut i: usize = 0;
        while i < entries.len()
            invariant
                i <= entries@.len(),
                self.pats == old(self).pats,
                self.pats.deep_view() == pats_v,
                self.recurse == rec,
                self.num_dir == old(self).num_dir + 1,
                old(self).num_file + ft.files + st.files <= usize::MAX,
                self.num_file + files_trace(entries@, pats_v, i as int).files == old(self).num_file
                    + ft.files,
                self.app.events() + files_trace(entries@, pats_v, i as int).events == ev0
                    + ft.events,
                self.app.events() == old(self).app.events() + delta,
                steps(old(self).app, self.app, delta),
            decreases entries@.len() - i,
        {
            let ghost fti = files_trace(entries@, pats_v, i as int);
            let ghost pre_ev = self.app.events();
            let ghost pre_app = self.app;
            match &entries[i] {
                FsNode::File { name, contents } => {
                    proof {
                        assert(fti.files == files_trace(entries@, pats_v, i + 1).files + 1);
                    }
                    self.num_file = self.num_file + 1;
                    let accept = self.in_patterns(name) || self.pats.is_empty();
                    proof {
                        assert(accept == accepts(pats_v, name@));
                    }
                    if accept {
                        self.app.do_file(name, contents);
                        proof {
                            assert(self.app.events() + files_trace(entries@, pats_v, i + 1).events
                                =~= pre_ev + fti.events);
                            let ev = (WalkEvent::File {
                                name: name@,
                                contents: contents_view(*contents),
                            });
                            lemma_steps_snoc(old(self).app, pre_app, self.app, delta, ev);
                            delta = delta.push(ev);
                            assert(self.app.events() =~= old(self).app.events() + delta);
                        }
                    } else {
                        proof {
                            assert(fti.events == files_trace(entries@, pats_v, i + 1).events);
                        }
                    }
                },
                FsNode::Dir { .. } => {
                    proof {
                        assert(fti == files_trace(entries@, pats_v, i + 1));
                    }
                },
            }
            i = i + 1;
        }
        proof {
            assert(files_trace(entries@, pats_v, entries@.len() as int) == empty_trace());
            assert(self.app.events() =~= ev0 + ft.events);
            assert(ev0 + ft.events =~= old(self).app.events() + (seq![
                (WalkEvent::Dir { path: path@ }),
            ] + ft.events));
            lemma_concat_cancel(
                old(self).app.events(),
                delta,
                seq![(WalkEvent::Dir { path: path@ })] + ft.events,
            );
        }
        if self.recurse {
            let ghost ev1 = ev0 + ft.events;
            let mut i: usize = 0;
            while i < entries.len()
                invariant
                    rec,
                    i <= entries@.len(),
                    self.pats == old(self).pats,
                    self.pats.deep_view() == pats_v,
                    self.recurse == rec,
                    old(self).num_file + ft.files + st.files <= usize::MAX,
                    old(self).num_dir + 1 + st.dirs <= usize::MAX,
                    self.num_file + subs_trace(entries@, path@, pats_v, rec, i as int).files == old(
                        self,
                    ).num_file + ft.files + st.files,
                    self.num_dir + subs_trace(entries@, path@, pats_v, rec, i as int).dirs == old(
                        self,
                    ).num_dir + 1 + st.dirs,
                    self.app.events() + subs_trace(entries@, path@, pats_v, rec, i as int).events
                        == ev1 + st.events,
                    self.app.events() == old(self).app.events() + delta,
                    steps(old(self).app, self.app, delta),
                decreases entries@.len() - i,
            {
                let ghost sti = subs_trace(entries@, path@, pats_v, rec, i as int);
                let ghost pre_ev = self.app.events();
                let ghost pre_app = self.app;
                match &entries[i] {
                    FsNode::Dir { name, entries: sub } => {
                        let child_path = join_path_exec(path, name);
                        let ghost child = dir_trace(join_path(path@, name@), sub@, pats_v, rec);
                        proof {
                            assert(sti.files == child.files + subs_trace(
                                entries@,
                                path@,
                                pats_v,
                                rec,
                                i + 1,
                            ).files);
                            assert(sti.dirs == child.dirs + subs_trace(
                                entries@,
                                path@,
                                pats_v,
                                rec,
                                i + 1,
                            ).dirs);
                            assert(decreases_to!(entries@ => entries@[i as int]));
                            assert(entries@[i as int]->entries == *sub);
                            assert(decreases_to!(entries@[i as int] => entries@[i as int]->entries));
                            assert(decreases_to!(entries@[i as int]->entries => sub@));
                        }
                        self.visit_dir(&child_path, sub);
                        proof {
                            assert(self.app.events() + subs_trace(
                                entries@,
                                path@,
                                pats_v,
                                rec,
                                i + 1,
                            ).events =~= pre_ev + sti.events);
                            lemma_steps_concat(
                                old(self).app,
                                pre_app,
                                self.app,
                                delta,
                                child.events,
                            );
                            delta = delta + child.events;
                            assert(self.app.events() =~= old(self).app.events() + delta);
                        }
                    },
                    FsNode::File { .. } => {
                        proof {
                            assert(sti == subs_trace(entries@, path@, pats_v, rec, i + 1));
                        }
                    },
                }
                i = i + 1;
            }
            proof {
                assert(subs_trace(entries@, path@, pats_v, rec, entries@.len() as int)
                    == empty_trace());
                assert(self.app.events() =~= ev1 + st.events);
                assert(self.app.events() =~= old(self).app.events() + t.events);
                assert(ev1 + st.events =~= old(self).app.events() + t.events);
                lemma_concat_cancel(old(self).app.events(), delta, t.events);
            }
        } else {
            proof {
                assert(st == empty_trace());
                assert(self.app.events() =~= old(self).app.events() + t.events);
                assert(ev0 + ft.events =~= old(self).app.events() + t.events);
                lemma_concat_cancel(old(self).app.events(), delta, t.events);
            }
        }
    }

    /// Depth-first walk from `root`.  Fails, touching nothing, when the
    /// root is not a directory; otherwise the sink receives exactly the
    /// events of [`walk_trace`] and the counters move by its counts.
    pub fn visit(&mut self, root: &FsNode) -> (r: Result<(), WalkError>)
        requires
            old(self).num_file + walk_trace(
                *root,
                old(self).pats.deep_view(),
                old(self).recurse,
            ).files <= usize::MAX,
            old(self).num_dir + walk_trace(
                *root,
                old(self).pats.deep_view(),
                old(self).recurse,
            ).dirs <= usize::MAX,
        ensures
            ({
                let t = walk_trace(*root, old(self).pats.deep_view(), old(self).recurse);
                match r {
                    Ok(_) => {
                        &&& (*root) is Dir
                        &&& final(self).app.events() == old(self).app.events() + t.events
                        &&& final(self).num_file == old(self).num_file + t.files
                        &&& final(self).num_dir == old(self).num_dir + t.dirs
                        &&& final(self).pats == old(self).pats
                        &&& final(self).recurse == old(self).recurse
                        &&& steps(old(self).app, final(self).app, t.events)
                    },
                    Err(e) => {
                        &&& e == WalkError::NotADirectory
                        &&& !((*root) is Dir)
                        &&& *final(self) == *old(self)
                    },
                }
            }),
    {
        match root {
            FsNode::Dir { name, entries } => {
                self.visit_dir(name, entries);
                Ok(())
            },
            FsNode::File { .. } => Err(WalkError::NotADirectory),
        }
    }
}

/// Clearing a walker is idempotent, and what it leaves behind is the
/// state of a freshly constructed walker: every observable part of any
/// two reset walkers agrees, so a second `clear` changes nothing that a
/// single `clear` had not already established.
pub proof fn lemma_clear_is_fresh<App: DirEvent>(
    once: DirNav<App>,
    twice: DirNav<App>,
    fresh: DirNav<App>,
)
    requires
        once.is_reset(),
        twice.is_reset(),
        fresh.is_reset(),
    ensures
        once.state_view() == twice.state_view(),
        once.state_view() == fresh.state_view(),
{
}

/// One record of an [`EventLog`].
#[derive(Debug, PartialEq, Eq, Clone)]
pub enum LogEntry {
    Dir { path: String },
    File { name: String, contents: Option<String> },
}

/// The event a log record stands for.
pub open spec fn log_event(e: LogEntry) -> WalkEvent {
    match e {
        LogEntry::Dir { path } => WalkEvent::Dir { path: path@ },
        LogEntry::File { name, contents } => WalkEvent::File {
            name: name@,
            contents: contents_view(contents),
        },
    }
}

/// An event sink that simply records every notification, in order.
#[derive(Debug, PartialEq, Eq, Clone)]
pub struct EventLog {
    pub entries: Vec<LogEntry>,
}

impl DirEvent for EventLog {
    open spec fn events(&self) -> Seq<WalkEvent> {
        self.entries@.map_values(|e: LogEntry| log_event(e))
    }

    /// The events view already says everything this sink does.
    open spec fn step(pre: Self, post: Self, ev: WalkEvent) -> bool {
        true
    }

    fn new() -> (r: Self) {
        let r = EventLog { entries: Vec::new() };
        proof {
            assert(r.events() =~= Seq::<WalkEvent>::empty());
        }
        r
    }

    fn do_dir(&mut self, dir: &String) {
        self.entries.push(LogEntry::Dir { path: dir.clone() });
        proof {
            assert(final(self).events() =~= old(self).events().push(
                (WalkEvent::Dir { path: dir@ }),
            ));
        }
    }

    fn do_file(&mut self, name: &String, contents: &Option<String>) {
        self.entries.push(LogEntry::File { name: name.clone(), contents: clone_contents(contents) });
        proof {
            assert(final(self).events() =~= old(self).events().push(
                (WalkEvent::File { name: name@, contents: contents_view(*contents) }),
            ));
        }
    }
}

/// A copy of an optional contents value that views the same characters.
fn clone_contents(c: &Option<String>) -> (r: Option<String>)
    ensures
        contents_view(r) == contents_view(*c),
{
    match c {
        Some(s) => Some(s.clone()),
        None => None,
    }
}

/// The extension of `name`: the characters after the last `.`.
pub fn extension_of(name: &String) -> (r: Option<String>)
    ensures
        match r {
            Some(e) => ext_of(name@) == Some(e@),
            None => ext_of(name@) is None,
        },
{
    let s = name.as_str();
    let n = s.unicode_len();
    let mut j: usize = n;
    while j > 0 && s.get_char(j - 1) != '.'
        invariant
            j <= n,
            n == name@.len(),
            s@ == name@,
            forall|t: int| j <= t < n ==> name@[t] != '.',
        decreases j,
    {
        j = j - 1;
    }
    if j == 0 {
        proof {
            lemma_ext_of_none(name@);
        }
        None
    } else {
        let e = s.substring_char(j, n).to_owned();
        proof {
            lemma_ext_of_at(name@, j - 1);
        }
        Some(e)
    }
}

/// A name without a dot has no extension.
proof fn lemma_ext_of_none(name: Seq<char>)
    requires
        forall|t: int| 0 <= t < name.len() ==> name[t] != '.',
    ensures
        ext_of(name) is None,
    decreases name.len(),
{
    if name.len() > 0 {
        assert(forall|t: int| 0 <= t < name.drop_last().len() ==> name.drop_last()[t] == name[t]);
        lemma_ext_of_none(name.drop_last());
    }
}

/// With the last dot of `name` at `j`, the extension is what follows it.
proof fn lemma_ext_of_at(name: Seq<char>, j: int)
    requires
        0 <= j < name.len(),
        name[j] == '.',
        forall|t: int| j < t < name.len() ==> name[t] != '.',
    ensures
        ext_of(name) == Some(name.subrange(j + 1, name.len() as int)),
    decreases name.len(),
{
    if j == name.len() - 1 {
        assert(name.subrange(j + 1, name.len() as int) =~= Seq::<char>::empty());
    } else {
        assert(forall|t: int| 0 <= t < name.drop_last().len() ==> name.drop_last()[t] == name[t]);
        lemma_ext_of_at(name.drop_last(), j);
        assert(name.subrange(j + 1, name.len() as int) =~= name.drop_last().subrange(
            j + 1,
            name.len() - 1,
        ).push(name.last()));
    }
}

/// `dir` and `name` joined with a `/` separator.
pub fn join_path_exec(dir: &String, name: &String) -> (r: String)
    ensures
        r@ == join_path(dir@, name@),
{
    let mut s = dir.clone();
    s.append("/");
    s.append(name.as_str());
    s
}

/// Every `\` of `path` replaced by `/`.
pub open spec fn replace_sep_view(s: Seq<char>) -> Seq<char> {
    Seq::new(s.len(), |i: int| if s[i] == '\\' { '/' } else { s[i] })
}

/// Replace the Windows directory separator with the portable one.
pub fn replace_sep(path: &str) -> (r: String)
    ensures
        r@ == replace_sep_view(path@),
{
    let n = path.unicode_len();
    let mut out = String::new();
    let mut i: usize = 0;
    while i < n
        invariant
            i <= n,
            n == path@.len(),
            out@ == replace_sep_view(path@.subrange(0, i as int)),
        decreases n - i,
    {
        let ghost before = out@;
        if path.get_char(i) == '\\' {
            out.append("/");
            proof {
                reveal_strlit("/");
            }
        } else {
            let piece = path.substring_char(i, i + 1);
            out.append(piece);
        }
        proof {
            assert(out@ =~= replace_sep_view(path@.subrange(0, i + 1)));
        }
        i = i + 1;
    }
    proof {
        assert(path@.subrange(0, n as int) =~= path@);
    }
    out
}

} // verus!

//! Search strategy: decide match or no-match for each file's contents.
//!
//! [`Finder`] consumes the walker's events (it implements
//! [`DirEvent`](crate::dir_nav::DirEvent)): it remembers the directory
//! last entered and, for every file handed over, applies the active
//! [`SearchMode`] to the file's contents and forwards the verdict to its
//! own downstream sink, a [`SearchEvent`].  Literal matching is
//! implemented and verified here; regular-expression matching relies on
//! the `regex` crate through two trusted wrappers.

use vstd::prelude::*;
use vstd::string::StrSliceExecFns;
use crate::dir_nav::DirEvent;
use crate::dir_nav::WalkEvent;
use crate::dir_nav::contents_view;
use crate::dir_nav::steps;
use crate::dir_nav::lemma_steps_unsnoc;

verus! {

/// One notification handed to a search-result sink.
pub enum SearchItem {
    DirChange { path: Seq<char> },
    Found { file: Seq<char>, matched: bool, text: Seq<char> },
}

/// The capability a search consumer implements: it is told of each
/// directory change and each per-file verdict, and its `results` view
/// records exactly the notifications received, in order.
pub trait SearchEvent: Sized {
    /// The notifications this sink has received so far, oldest first.
    spec fn results(&self) -> Seq<SearchItem>;

    /// A fresh sink that has seen nothing.
    fn new() -> (r: Self)
        ensures
            r.results() == Seq::<SearchItem>::empty(),
    ;

    /// The search moved to the directory at `dir`.
    fn set_dir(&mut self, dir: &String)
        ensures
            final(self).results() == old(self).results().push(
                (SearchItem::DirChange { path: dir@ }),
            ),
    ;

    /// The file `rslt.0` was searched with verdict `rslt.1` for the
    /// search text `rslt.2`.
    fn set_file(&mut self, rslt: (&String, bool, &String))
        ensures
            final(self).results() == old(self).results().push(
                (SearchItem::Found { file: rslt.0@, matched: rslt.1, text: rslt.2@ }),
            ),
    ;
}

/// `pat` occurs in `text` starting at position `i`.
pub open spec fn match_at(text: Seq<char>, pat: Seq<char>, i: int) -> bool {
    0 <= i && i + pat.len() <= text.len() && text.subrange(i, i + pat.len() as int) == pat
}

/// `text` contains `pat` as a contiguous substring.
pub open spec fn contains_text(text: Seq<char>, pat: Seq<char>) -> bool {
    exists|i: int| match_at(text, pat, i)
}

/// Case-sensitive substring search.
pub fn contains_substring(text: &str, pat: &str) -> (r: bool)
    ensures
        r == contains_text(text@, pat@),
{
    let n = text.unicode_len();
    let m = pat.unicode_len();
    if m > n {
        proof {
            assert(forall|k: int| !match_at(text@, pat@, k));
        }
        return false;
    }
    if m == 0 {
        proof {
            assert(text@.subrange(0, 0) =~= pat@);
            assert(match_at(text@, pat@, 0));
        }
        return true;
    }
    let mut i: usize = 0;
    while i <= n - m
        invariant
            0 < m <= n,
            i <= n - m + 1,
            n == text@.len(),
            m == pat@.len(),
            forall|k: int| 0 <= k < i ==> !match_at(text@, pat@, k),
        decreases n - m + 1 - i,
    {
        let mut j: usize = 0;
        let mut is_match = true;
        while j < m && is_match
            invariant
                j <= m,
                i + m <= n,
                n == text@.len(),
                m == pat@.len(),
                is_match ==> forall|u: int| 0 <= u < j ==> text@[i + u] == pat@[u],
                !is_match ==> !match_at(text@, pat@, i as int),
            decreases m - j, (if is_match { 1int } else { 0int }),
        {
            if text.get_char(i + j) != pat.get_char(j) {
                proof {
                    assert(text@.subrange(i as int, i + m) == pat@ ==> text@.subrange(
                        i as int,
                        i + m,
                    )[j as int] == pat@[j as int]);
                    assert(text@.subrange(i as int, i + m)[j as int] == text@[i + j]);
                }
                is_match = false;
            } else {
                j = j + 1;
            }
        }
        if is_match {
            proof {
                assert(text@.subrange(i as int, i + m) =~= pat@);
                assert(match_at(text@, pat@, i as int));
            }
            return true;
        }
        i = i + 1;
    }
    proof {
        assert forall|k: int| !match_at(text@, pat@, k) by {
            if 0 <= k && k + pat@.len() <= text@.len() {
                assert(k < i);
            }
        }
    }
    false
}

/// Whether `regex::Regex::new` accepts `pat` as a pattern.
pub uninterp spec fn regex_valid(pat: Seq<char>) -> bool;

/// The verdict of `regex::Regex::is_match` for a valid pattern `pat`
/// against `text`.
pub uninterp spec fn regex_is_match(pat: Seq<char>, text: Seq<char>) -> bool;

/// Relies on regex::Regex::new: whether a pattern compiles is a
/// function of the pattern string alone.
#[verifier::external_body]
fn regex_check(pattern: &str) -> (r: bool)
    ensures
        r == regex_valid(pattern@),
{
    regex::Regex::new(pattern).is_ok()
}

/// Relies on regex::Regex::new and regex::Regex::is_match: compilation
/// succeeds on the pattern alone, and the match verdict of the compiled
/// pattern is a function of the pattern and the haystack alone.
#[verifier::external_body]
fn regex_find(pattern: &str, text: &str) -> (r: Option<bool>)
    ensures
        (r is Some) == regex_valid(pattern@),
        match r {
            Some(b) => b == regex_is_match(pattern@, text@),
            None => true,
        },
{
    match regex::Regex::new(pattern) {
        Ok(re) => Some(re.is_match(text)),
        Err(_) => None,
    }
}

/// The active matching rule: a literal substring, or the source of a
/// regular expression.  Switching the mode replaces the other rule's
/// state entirely.
pub enum SearchMode {
    Literal(String),
    Pattern(String),
}

impl SearchMode {
    /// The search text or pattern source this mode carries.
    pub open spec fn text_view(self) -> Seq<char> {
        match self {
            SearchMode::Literal(t) => t@,
            SearchMode::Pattern(p) => p@,
        }
    }

    /// The search text or pattern source this mode carries.
    pub fn text(&self) -> (r: &String)
        ensures
            r@ == self.text_view(),
    {
        match self {
            SearchMode::Literal(t) => t,
            SearchMode::Pattern(p) => p,
        }
    }
}

/// The rule was rejected when the caller tried to configure it.
#[derive(Debug, PartialEq, Eq, Clone, Copy)]
pub enum SearchError {
    InvalidPattern,
}

/// The verdict the active mode gives for readable contents `text`.
/// A pattern that the regex engine rejects matches nothing; the public
/// interface never stores such a pattern.
pub open spec fn search_matches(mode: SearchMode, text: Seq<char>) -> bool {
    match mode {
        SearchMode::Literal(t) => contains_text(text, t@),
        SearchMode::Pattern(p) => regex_valid(p@) && regex_is_match(p@, text),
    }
}

/// The result forwarded downstream for one file event: unreadable
/// contents are reported as unmatched with a diagnostic in place of the
/// search text; readable contents carry the mode's verdict.
pub open spec fn search_outcome(
    mode: SearchMode,
    name: Seq<char>,
    contents: Option<Seq<char>>,
) -> SearchItem {
    match contents {
        None => SearchItem::Found { file: name, matched: false, text: "can't open file"@ },
        Some(text) => SearchItem::Found {
            file: name,
            matched: search_matches(mode, text),
            text: mode.text_view(),
        },
    }
}

/// The search strategy: a walker sink that searches each file it is
/// handed and forwards the verdict to its own sink `T`.
pub struct Finder<T: SearchEvent> {
    /// the directory the walker last announced
    pub dir: String,
    /// the active matching rule
    pub mode: SearchMode,
    /// the downstream consumer of search results
    pub out: T,
    /// the walker events received so far
    pub hist: Ghost<Seq<WalkEvent>>,
}

/// The result the search strategy forwards for one walker event, under
/// the matching rule `mode`.
pub open spec fn finder_outcome(mode: SearchMode, ev: WalkEvent) -> SearchItem {
    match ev {
        WalkEvent::Dir { path } => SearchItem::DirChange { path },
        WalkEvent::File { name, contents } => search_outcome(mode, name, contents),
    }
}

/// The results the search strategy forwards for a whole event trace,
/// one per event, in order.
pub open spec fn search_results_of(mode: SearchMode, evs: Seq<WalkEvent>) -> Seq<SearchItem>
    decreases evs.len(),
{
    if evs.len() == 0 {
        Seq::empty()
    } else {
        search_results_of(mode, evs.drop_last()).push(finder_outcome(mode, evs.last()))
    }
}

/// A walk that feeds a `Finder` forwards downstream exactly the search
/// results of the walk's events, under the matching rule the finder
/// held when the walk began — the rule itself is never changed by
/// walking.
pub proof fn lemma_finder_steps<T: SearchEvent>(
    pre: Finder<T>,
    post: Finder<T>,
    evs: Seq<WalkEvent>,
)
    requires
        steps(pre, post, evs),
    ensures
        post.mode == pre.mode,
        post.out.results() == pre.out.results() + search_results_of(pre.mode, evs),
    decreases evs.len(),
{
    if evs.len() == 0 {
        assert(pre.out.results() + search_results_of(pre.mode, evs) =~= pre.out.results());
    } else {
        let mid = lemma_steps_unsnoc(pre, post, evs);
        lemma_finder_steps(pre, mid, evs.drop_last());
        assert(pre.out.results() + search_results_of(pre.mode, evs) =~= (pre.out.results()
            + search_results_of(pre.mode, evs.drop_last())).push(
            finder_outcome(pre.mode, evs.last()),
        ));
    }
}

impl<T: SearchEvent> DirEvent for Finder<T> {
    open spec fn events(&self) -> Seq<WalkEvent> {
        self.hist@
    }

    /// One event leaves the matching rule alone and forwards exactly
    /// its outcome downstream.
    open spec fn step(pre: Self, post: Self, ev: WalkEvent) -> bool {
        &&& post.out.results() == pre.out.results().push(finder_outcome(pre.mode, ev))
        &&& post.mode == pre.mode
    }

    fn new() -> (r: Self)
        ensures
            r.results_view() == Seq::<SearchItem>::empty(),
            r.dir@ == "."@,
            r.mode is Literal,
            r.mode.text_view() == Seq::<char>::empty(),
    {
        Finder {
            dir: ".".to_owned(),
            mode: SearchMode::Literal(String::new()),
            out: T::new(),
            hist: Ghost(Seq::empty()),
        }
    }

    fn do_dir(&mut self, dir: &String)
        ensures
            final(self).out.results() == old(self).out.results().push(
                (SearchItem::DirChange { path: dir@ }),
            ),
            final(self).mode == old(self).mode,
            final(self).dir@ == dir@,
    {
        self.dir = dir.clone();
        proof {
            self.hist@ = self.hist@.push((WalkEvent::Dir { path: dir@ }));
        }
        self.out.set_dir(dir);
    }

    fn do_file(&mut self, name: &String, contents: &Option<String>)
        ensures
            final(self).out.results() == old(self).out.results().push(
                search_outcome(old(self).mode, name@, contents_view(*contents)),
            ),
            final(self).mode == old(self).mode,
            final(self).dir == old(self).dir,
    {
        proof {
            self.hist@ = self.hist@.push(
                (WalkEvent::File { name: name@, contents: contents_view(*contents) }),
            );
        }
        match contents {
            Some(text) => {
                let found = match &self.mode {
                    SearchMode::Literal(t) => contains_substring(text.as_str(), t.as_str()),
                    SearchMode::Pattern(p) => match regex_find(p.as_str(), text.as_str()) {
                        Some(b) => b,
                        None => false,
                    },
                };
                self.out.set_file((name, found, self.mode.text()));
            },
            None => {
                let sentinel = "can't open file".to_owned();
                self.out.set_file((name, false, &sentinel));
            },
        }
    }
}

impl<T: SearchEvent> Finder<T> {
    /// What the downstream sink has received.
    pub open spec fn results_view(self) -> Seq<SearchItem> {
        self.out.results()
    }

    /// Search for the literal text `srctxt`, replacing any active rule.
    pub fn set_txt(&mut self, srctxt: &str)
        ensures
            final(self).mode is Literal,
            final(self).mode.text_view() == srctxt@,
            final(self).dir == old(self).dir,
            final(self).out == old(self).out,
            final(self).hist == old(self).hist,
    {
        self.mode = SearchMode::Literal(srctxt.to_owned());
    }

    /// Search with the regular expression `regex`, replacing any active
    /// rule.  A pattern the regex engine rejects is refused here, at
    /// configuration time, and the active rule is left as it was.
    pub fn set_regex(&mut self, regex: &str) -> (r: Result<(), SearchError>)
        ensures
            (r is Ok) == regex_valid(regex@),
            r is Ok ==> {
                &&& final(self).mode is Pattern
                &&& final(self).mode.text_view() == regex@
                &&& final(self).dir == old(self).dir
                &&& final(self).out == old(self).out
                &&& final(self).hist == old(self).hist
            },
            r is Err ==> r == Err::<(), SearchError>(SearchError::InvalidPattern) && *final(self)
                == *old(self),
    {
        if regex_check(regex) {
            self.mode = SearchMode::Pattern(regex.to_owned());
            Ok(())
        } else {
            Err(SearchError::InvalidPattern)
        }
    }

    /// The downstream sink, to configure it or to collect its results.
    pub fn get_app(&mut self) -> (r: &mut T)
        ensures
            *r == old(self).out,
            final(self).out == *final(r),
            final(self).dir == old(self).dir,
            final(self).mode == old(self).mode,
            final(self).hist == old(self).hist,
    {
        &mut self.out
    }
}

} // verus!

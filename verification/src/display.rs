//! Output adapter: turn search results into lines for the user.
//!
//! [`GenOut`] consumes search results (it implements
//! [`SearchEvent`](crate::text_search::SearchEvent)) and applies the
//! display policy: show every result or only matches, and hide
//! directories in which nothing matched.  It decides *which* lines are
//! shown and records them in order; rendering them to a console is the
//! caller's business.

use vstd::prelude::*;
use vstd::string::StrSliceExecFns;
use crate::dir_nav::replace_sep;
use crate::dir_nav::replace_sep_view;
use crate::text_search::SearchEvent;
use crate::text_search::SearchItem;

verus! {

/// One line of output the adapter decided to emit.
#[derive(Debug, PartialEq, Eq, Clone)]
pub enum OutLine {
    Dir { path: String },
    File { name: String, matched: bool, text: String },
}

/// The characters of an output line.
pub enum ShownLine {
    Dir { path: Seq<char> },
    File { name: Seq<char>, matched: bool, text: Seq<char> },
}

pub open spec fn line_view(l: OutLine) -> ShownLine {
    match l {
        OutLine::Dir { path } => ShownLine::Dir { path: path@ },
        OutLine::File { name, matched, text } => ShownLine::File {
            name: name@,
            matched,
            text: text@,
        },
    }
}

pub open spec fn lines_view(s: Seq<OutLine>) -> Seq<ShownLine> {
    s.map_values(|l: OutLine| line_view(l))
}

/// The lines one result makes the adapter emit: nothing unless the
/// result matched or everything is shown; otherwise the directory line
/// first, if it is still owed, and then the file line.
pub open spec fn emitted_lines(
    pre: GenOut,
    name: Seq<char>,
    matched: bool,
    text: Seq<char>,
) -> Seq<ShownLine> {
    if matched || pre.show_all {
        (if !pre.dir_displayed {
            seq![(ShownLine::Dir { path: replace_sep_view(pre.dir@) })]
        } else {
            Seq::empty()
        }) + seq![(ShownLine::File { name, matched, text })]
    } else {
        Seq::empty()
    }
}

/// Generic output adapter: remembers the last result, applies the
/// show-all and hide-unmatched policies, and collects the lines to
/// print.
pub struct GenOut {
    /// the directory the search is currently in
    pub dir: String,
    /// file name of the last result received
    pub file: String,
    /// search text of the last result received
    pub txt: String,
    /// verdict of the last result received
    pub rslt: bool,
    /// show unmatched results too?
    pub show_all: bool,
    /// keep quiet about directories with no matches?
    pub hide_unmatched: bool,
    /// has the current directory's line been emitted?
    pub dir_displayed: bool,
    /// render results with full detail?
    pub debug: bool,
    /// the lines decided upon so far, in order
    pub lines: Vec<OutLine>,
    /// the notifications received so far
    pub hist: Ghost<Seq<SearchItem>>,
}

impl SearchEvent for GenOut {
    open spec fn results(&self) -> Seq<SearchItem> {
        self.hist@
    }

    fn new() -> (r: Self)
        ensures
            r.dir@ == "."@,
            r.file@ == Seq::<char>::empty(),
            r.txt@ == Seq::<char>::empty(),
            !r.rslt,
            !r.show_all,
            r.hide_unmatched,
            !r.dir_displayed,
            !r.debug,
            r.lines@ == Seq::<OutLine>::empty(),
    {
        GenOut {
            dir: ".".to_owned(),
            file: String::new(),
            txt: String::new(),
            rslt: false,
            show_all: false,
            hide_unmatched: true,
            dir_displayed: false,
            debug: false,
            lines: Vec::new(),
            hist: Ghost(Seq::empty()),
        }
    }

    fn set_dir(&mut self, dir: &String)
        ensures
            final(self).dir@ == dir@,
            final(self).dir_displayed == !old(self).hide_unmatched,
            lines_view(final(self).lines@) == lines_view(old(self).lines@) + (if !old(
                self,
            ).hide_unmatched {
                seq![(ShownLine::Dir { path: replace_sep_view(dir@) })]
            } else {
                Seq::<ShownLine>::empty()
            }),
            final(self).file == old(self).file,
            final(self).txt == old(self).txt,
            final(self).rslt == old(self).rslt,
            final(self).show_all == old(self).show_all,
            final(self).hide_unmatched == old(self).hide_unmatched,
            final(self).debug == old(self).debug,
    {
        self.dir = dir.clone();
        self.dir_displayed = false;
        if !self.hide_unmatched {
            let line = OutLine::Dir { path: replace_sep(dir.as_str()) };
            self.lines.push(line);
            self.dir_displayed = true;
        }
        proof {
            self.hist@ = self.hist@.push((SearchItem::DirChange { path: dir@ }));
            assert(lines_view(self.lines@) =~= lines_view(old(self).lines@) + (if !old(
                self,
            ).hide_unmatched {
                seq![(ShownLine::Dir { path: replace_sep_view(dir@) })]
            } else {
                Seq::<ShownLine>::empty()
            }));
        }
    }

    fn set_file(&mut self, rslt: (&String, bool, &String))
        ensures
            final(self).file@ == rslt.0@,
            final(self).rslt == rslt.1,
            final(self).txt@ == rslt.2@,
            final(self).dir_displayed == (old(self).dir_displayed || rslt.1 || old(self).show_all),
            lines_view(final(self).lines@) == lines_view(old(self).lines@) + emitted_lines(
                *old(self),
                rslt.0@,
                rslt.1,
                rslt.2@,
            ),
            final(self).dir == old(self).dir,
            final(self).show_all == old(self).show_all,
            final(self).hide_unmatched == old(self).hide_unmatched,
            final(self).debug == old(self).debug,
    {
        let (name, matched, text) = rslt;
        self.file = name.clone();
        self.txt = text.clone();
        self.rslt = matched;
        if matched || self.show_all {
            if !self.dir_displayed {
                let line = OutLine::Dir { path: replace_sep(self.dir.as_str()) };
                self.lines.push(line);
                self.dir_displayed = true;
            }
            let fline = OutLine::File { name: name.clone(), matched, text: text.clone() };
            self.lines.push(fline);
        }
        proof {
            self.hist@ = self.hist@.push(
                (SearchItem::Found { file: rslt.0@, matched: rslt.1, text: rslt.2@ }),
            );
            assert(lines_view(self.lines@) =~= lines_view(old(self).lines@) + emitted_lines(
                *old(self),
                rslt.0@,
                rslt.1,
                rslt.2@,
            ));
        }
    }
}

impl GenOut {
    /// Keep quiet about directories in which nothing matched?
    pub fn set_hide_unmatched(&mut self, h: bool)
        ensures
            *final(self) == (GenOut { hide_unmatched: h, ..*old(self) }),
    {
        self.hide_unmatched = h;
    }

    /// Show unmatched results beside the matches?
    pub fn show_all(&mut self, a: bool)
        ensures
            *final(self) == (GenOut { show_all: a, ..*old(self) }),
    {
        self.show_all = a;
    }

    /// Render results with full detail?
    pub fn set_debug(&mut self, db: bool)
        ensures
            *final(self) == (GenOut { debug: db, ..*old(self) }),
    {
        self.debug = db;
    }
}

} // verus!

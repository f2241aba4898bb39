//! The executive: builds the processing pipeline, applies command-line
//! options, and starts the walk.
//!
//! The pipeline is a [`DirNav`] walker whose sink is a [`Finder`] whose
//! sink in turn is a [`GenOut`] output adapter.  The executive owns the
//! walker and a [`CmdParser`]; it translates parsed attributes into
//! walker, search and display configuration.  Reading the process
//! arguments and the directory tree, and printing, are the caller's
//! business: the caller hands in the raw tokens and the tree snapshot.

use vstd::prelude::*;
use crate::cmdln_parser::CmdParser;
use crate::cmdln_parser::parse_args;
use crate::cmdln_parser::truified;
use crate::display::GenOut;
use crate::dir_nav::DirEvent;
use crate::dir_nav::DirNav;
use crate::dir_nav::FsNode;
use crate::dir_nav::steps;
use crate::dir_nav::walk_trace;
use crate::text_search::Finder;
use crate::text_search::SearchMode;

verus! {

/// The first value under `k`, or the empty string when `k` is absent or
/// holds no values.
pub open spec fn first_of(m: Map<Seq<char>, Seq<Seq<char>>>, k: Seq<char>) -> Seq<char> {
    if m.contains_key(k) && m[k].len() > 0 {
        m[k][0]
    } else {
        Seq::empty()
    }
}

/// `m` with `k -> [v]` added only when `k` is absent.
pub open spec fn with_default(
    m: Map<Seq<char>, Seq<Seq<char>>>,
    k: Seq<char>,
    v: Seq<char>,
) -> Map<Seq<char>, Seq<Seq<char>>> {
    if m.contains_key(k) {
        m
    } else {
        m.insert(k, seq![v])
    }
}

/// The table after the executive's default attributes are applied.
pub open spec fn with_defaults(m: Map<Seq<char>, Seq<Seq<char>>>) -> Map<
    Seq<char>,
    Seq<Seq<char>>,
> {
    with_default(
        with_default(
            with_default(
                with_default(
                    with_default(with_default(with_default(m, "P"@, "."@), "s"@, "true"@), "H"@, "true"@),
                    "v"@,
                    "true"@,
                ),
                "T"@,
                " "@,
            ),
            "D"@,
            "false"@,
        ),
        "A"@,
        "false"@,
    )
}

/// Builds the pipeline, applies command-line options, starts the walk.
pub struct Executive {
    /// the parsed command line
    pub cp: CmdParser,
    /// the walker, bound to the search strategy and the output adapter
    pub dn: DirNav<Finder<GenOut>>,
}

impl Executive {
    /// The parser's internal validity, which every operation preserves.
    pub open spec fn wf(self) -> bool {
        self.cp.wf()
    }

    pub fn new() -> (r: Executive)
        ensures
            r.wf(),
            r.cp.view_map() == Map::<Seq<char>, Seq<Seq<char>>>::empty(),
            r.cp.args_view() == Seq::<Seq<char>>::empty(),
            r.dn.is_reset(),
    {
        Executive { cp: CmdParser::new(), dn: DirNav::new() }
    }

    /// Number of directories the walk has entered.
    pub fn get_dirs(&self) -> (r: usize)
        ensures
            r == self.dn.num_dir,
    {
        self.dn.get_dirs()
    }

    /// Number of files the walk has seen.
    pub fn get_files(&self) -> (r: usize)
        ensures
            r == self.dn.num_file,
    {
        self.dn.get_files()
    }

    /// The first value of attribute `key`, or the empty string.
    pub fn get_first(&self, key: &str) -> (r: String)
        requires
            self.wf(),
        ensures
            r@ == first_of(self.cp.view_map(), key@),
    {
        match self.cp.get(key) {
            Some(vals) => {
                if vals.len() > 0 {
                    vals[0].clone()
                } else {
                    let r = String::new();
                    proof {
                        assert(r@ =~= first_of(self.cp.view_map(), key@));
                    }
                    r
                }
            },
            None => {
                let r = String::new();
                proof {
                    assert(r@ =~= first_of(self.cp.view_map(), key@));
                }
                r
            },
        }
    }

    pub fn get_cparser(&self) -> (r: &CmdParser)
        ensures
            *r == self.cp,
    {
        &self.cp
    }

    pub fn get_cparser_mut(&mut self) -> (r: &mut CmdParser)
        ensures
            *r == old(self).cp,
            final(self).cp == *final(r),
            final(self).dn == old(self).dn,
    {
        &mut self.cp
    }

    /// Apply the default attributes that `process_cmdln` assumes,
    /// without overwriting anything the command line set.
    pub fn set_defaults(&mut self)
        requires
            old(self).wf(),
        ensures
            final(self).wf(),
            final(self).cp.args_view() == old(self).cp.args_view(),
            final(self).cp.view_map() == with_defaults(old(self).cp.view_map()),
            final(self).dn == old(self).dn,
    {
        self.cp.set_default("P", ".");
        self.cp.set_default("s", "true");
        self.cp.set_default("H", "true");
        self.cp.set_default("v", "true");
        self.cp.set_default("T", " ");
        self.cp.set_default("D", "false");
        self.cp.set_default("A", "false");
    }

    /// Set a default for one attribute; a `p` default also becomes a
    /// walker pattern.
    pub fn set_default(&mut self, attr: &str, val: &str)
        requires
            old(self).wf(),
        ensures
            final(self).wf(),
            final(self).cp.args_view() == old(self).cp.args_view(),
            final(self).cp.view_map() == with_default(old(self).cp.view_map(), attr@, val@),
            final(self).dn.pats.deep_view() == if attr@ == "p"@ {
                old(self).dn.pats.deep_view().push(val@)
            } else {
                old(self).dn.pats.deep_view()
            },
            final(self).dn.app == old(self).dn.app,
            final(self).dn.num_file == old(self).dn.num_file,
            final(self).dn.num_dir == old(self).dn.num_dir,
            final(self).dn.recurse == old(self).dn.recurse,
    {
        self.cp.set_default(attr, val);
        let attr_s = attr.to_owned();
        if attr_s == "p".to_owned() {
            self.dn.add_patt(val);
        }
    }

    /// The help text shown for the `h` attribute.
    pub fn help_msg(&self) -> (r: String)
        ensures
            r@ == help_text(),
    {
        "Sample Command Line Format:\n  /P path /p rs /p h cpp /T text_to_find\n\nAttributes:\n  /P .         => start path is \".\"\n  /p rs h cpp  => patterns are \"rs\", \"h\", \"cpp\"\n  /T abc       => search text is \"abc\"\n  /s true      => recursive search\n  /H true      => hide dirs with no matches\n  /v true      => verbose - show parse\n  /A true      => show all matching files\n  /D true      => show debug output".to_owned()
    }

    /// Parse the handed-over arguments and configure the pipeline from
    /// them.  Returns false when the `h` attribute asks for help only:
    /// the caller then shows [`Self::help_msg`] and does no walk.
    pub fn process_cmdln(&mut self) -> (r: bool)
        requires
            old(self).wf(),
        ensures
            final(self).wf(),
            final(self).cp.args_view() == old(self).cp.args_view(),
            ({
                let m = truified(
                    parse_args(old(self).cp.args_view(), 0, old(self).cp.view_map(), None),
                );
                let run = first_of(m, "h"@) != "true"@;
                &&& r == run
                &&& !run ==> final(self).cp.view_map() == m && final(self).dn == old(self).dn
                &&& run ==> ({
                    let md = with_defaults(m);
                    let pvals = if md.contains_key("p"@) {
                        md["p"@]
                    } else {
                        Seq::<Seq<char>>::empty()
                    };
                    &&& final(self).cp.view_map() == md
                    &&& final(self).dn.pats.deep_view() == old(self).dn.pats.deep_view() + pvals
                    &&& final(self).dn.app.mode is Literal
                    &&& final(self).dn.app.mode.text_view() == first_of(md, "T"@)
                    &&& final(self).dn.recurse == (if first_of(md, "s"@) == "false"@ {
                        false
                    } else {
                        old(self).dn.recurse
                    })
                    &&& final(self).dn.app.out == (GenOut {
                        hide_unmatched: first_of(md, "H"@) == "true"@,
                        show_all: first_of(md, "A"@) == "true"@,
                        debug: first_of(md, "D"@) == "true"@,
                        ..old(self).dn.app.out
                    })
                    &&& final(self).dn.app.dir == old(self).dn.app.dir
                    &&& final(self).dn.app.hist == old(self).dn.app.hist
                    &&& final(self).dn.num_file == old(self).dn.num_file
                    &&& final(self).dn.num_dir == old(self).dn.num_dir
                })
            }),
    {
        self.cp.parse();
        self.cp.empty_values_to_true();
        let hv = self.get_first("h");
        if hv == "true".to_owned() {
            return false;
        }
        self.set_defaults();
        let ghost md = self.cp.view_map();
        let ghost pats0 = self.dn.pats.deep_view();
        let ghost cp_snap = self.cp;

        match self.cp.get("p") {
            Some(pats) => {
                let mut i: usize = 0;
                while i < pats.len()
                    invariant
                        i <= pats@.len(),
                        self.cp == cp_snap,
                        pats.deep_view() == md["p"@],
                        md.contains_key("p"@),
                        self.dn.pats.deep_view() == pats0 + pats.deep_view().subrange(0, i as int),
                        self.dn.app == old(self).dn.app,
                        self.dn.num_file == old(self).dn.num_file,
                        self.dn.num_dir == old(self).dn.num_dir,
                        self.dn.recurse == old(self).dn.recurse,
                    decreases pats@.len() - i,
                {
                    self.dn.add_patt(pats[i].as_str());
                    proof {
                        assert(self.dn.pats.deep_view() =~= pats0 + pats.deep_view().subrange(
                            0,
                            i + 1,
                        ));
                    }
                    i = i + 1;
                }
                proof {
                    assert(pats.deep_view().subrange(0, pats@.len() as int) =~= pats.deep_view());
                }
            },
            None => {
                proof {
                    assert(pats0 + Seq::<Seq<char>>::empty() =~= pats0);
                }
            },
        }

        match self.cp.get("T") {
            Some(txts) => {
                if txts.len() > 0 {
                    self.dn.get_app().set_txt(txts[0].as_str());
                }
            },
            None => {},
        }
        proof {
            assert(md.contains_key("T"@));
            assert(md["T"@].len() > 0);
        }

        match self.cp.get("s") {
            Some(recur) => {
                if recur.len() > 0 {
                    if recur[0] == "false".to_owned() {
                        self.dn.recurse(false);
                    }
                }
            },
            None => {},
        }
        proof {
            assert(md.contains_key("s"@));
            assert(md["s"@].len() > 0);
        }

        let out = self.dn.get_app().get_app();

        match self.cp.get("H") {
            Some(hides) => {
                if hides.len() > 0 {
                    out.set_hide_unmatched(hides[0] == "true".to_owned());
                }
            },
            None => {},
        }
        match self.cp.get("A") {
            Some(alls) => {
                if alls.len() > 0 {
                    out.show_all(alls[0] == "true".to_owned());
                }
            },
            None => {},
        }
        match self.cp.get("D") {
            Some(dbgs) => {
                if dbgs.len() > 0 {
                    out.set_debug(dbgs[0] == "true".to_owned());
                }
            },
            None => {},
        }
        proof {
            assert(md.contains_key("H"@) && md["H"@].len() > 0);
            assert(md.contains_key("A"@) && md["A"@].len() > 0);
            assert(md.contains_key("D"@) && md["D"@].len() > 0);
        }
        true
    }

    /// Add an attribute/value pair after parsing.  A `p` value is also
    /// added as a walker pattern, but never twice.  For any other
    /// attribute, a first value that reads as a bare flag (`"true"` or
    /// `"false"`) is overwritten in place; otherwise the value is
    /// appended.
    pub fn set_attribute_item(&mut self, attr: &str, val: &str)
        requires
            old(self).wf(),
        ensures
            final(self).wf(),
            final(self).cp.args_view() == old(self).cp.args_view(),
            ({
                let m = old(self).cp.view_map();
                if attr@ == "p"@ {
                    let fresh = !(m.contains_key("p"@) && m["p"@].contains(val@));
                    &&& final(self).cp.view_map() == (if !m.contains_key("p"@) {
                        m.insert("p"@, seq![val@])
                    } else if m["p"@].contains(val@) {
                        m
                    } else {
                        m.insert("p"@, m["p"@].push(val@))
                    })
                    &&& final(self).dn.pats.deep_view() == (if fresh {
                        old(self).dn.pats.deep_view().push(val@)
                    } else {
                        old(self).dn.pats.deep_view()
                    })
                    &&& final(self).dn.app == old(self).dn.app
                    &&& final(self).dn.num_file == old(self).dn.num_file
                    &&& final(self).dn.num_dir == old(self).dn.num_dir
                    &&& final(self).dn.recurse == old(self).dn.recurse
                } else {
                    &&& final(self).dn == old(self).dn
                    &&& final(self).cp.view_map() == set_item_table(m, attr@, val@)
                }
            }),
    {
        let attr_s = attr.to_owned();
        let vs = val.to_owned();
        if attr_s == "p".to_owned() {
            if self.cp.contains_key("p") {
                let present = match self.cp.get("p") {
                    Some(v) => vec_has_string(v, &vs),
                    None => false,
                };
                if !present {
                    self.dn.add_patt(val);
                    self.cp.insert("p", val);
                }
            } else {
                self.cp.insert("p", val);
                self.dn.add_patt(val);
            }
        } else {
            if self.cp.contains_key(attr) {
                let ghost m = self.cp.view_map();
                match self.cp.get_mut(attr) {
                    Some(v) => {
                        if v.is_empty() {
                            v.push(vs);
                            proof {
                                assert(final(v).deep_view() =~= m[attr@].push(val@));
                                assert(m[attr@].push(val@) =~= seq![val@]);
                            }
                        } else {
                            let flagged = v[0] == "true".to_owned() || v[0] == "false".to_owned();
                            if flagged {
                                let slot = &mut v[0];
                                *slot = vs;
                                proof {
                                    assert(final(v).deep_view() =~= m[attr@].update(0, val@));
                                }
                            } else {
                                v.push(vs);
                                proof {
                                    assert(final(v).deep_view() =~= m[attr@].push(val@));
                                }
                            }
                        }
                    },
                    None => {},
                }
            } else {
                self.cp.insert(attr, val);
            }
        }
    }

    /// Walk the handed-over tree snapshot.  True exactly when the root
    /// is a directory; the walker's sink and counters then hold the
    /// walk's outcome.
    pub fn start(&mut self, root: &FsNode) -> (r: bool)
        requires
            old(self).dn.num_file + walk_trace(
                *root,
                old(self).dn.pats.deep_view(),
                old(self).dn.recurse,
            ).files <= usize::MAX,
            old(self).dn.num_dir + walk_trace(
                *root,
                old(self).dn.pats.deep_view(),
                old(self).dn.recurse,
            ).dirs <= usize::MAX,
        ensures
            r == ((*root) is Dir),
            final(self).cp == old(self).cp,
            ({
                let t = walk_trace(*root, old(self).dn.pats.deep_view(), old(self).dn.recurse);
                if r {
                    &&& final(self).dn.app.events() == old(self).dn.app.events() + t.events
                    &&& final(self).dn.num_file == old(self).dn.num_file + t.files
                    &&& final(self).dn.num_dir == old(self).dn.num_dir + t.dirs
                    &&& final(self).dn.pats == old(self).dn.pats
                    &&& final(self).dn.recurse == old(self).dn.recurse
                    &&& steps(old(self).dn.app, final(self).dn.app, t.events)
                } else {
                    final(self).dn == old(self).dn
                }
            }),
    {
        match self.dn.visit(root) {
            Ok(_) => true,
            Err(_) => false,
        }
    }
}

/// What `set_attribute_item` makes of the table for an attribute other
/// than `p`: create the entry, fill an empty one, overwrite a first
/// value that reads as a bare flag, or append.
pub open spec fn set_item_table(
    m: Map<Seq<char>, Seq<Seq<char>>>,
    k: Seq<char>,
    v: Seq<char>,
) -> Map<Seq<char>, Seq<Seq<char>>> {
    if !m.contains_key(k) {
        m.insert(k, seq![v])
    } else if m[k].len() == 0 {
        m.insert(k, seq![v])
    } else if m[k][0] == "true"@ || m[k][0] == "false"@ {
        m.insert(k, m[k].update(0, v))
    } else {
        m.insert(k, m[k].push(v))
    }
}

/// Does the vector hold a string with exactly these characters?
fn vec_has_string(v: &Vec<String>, s: &String) -> (r: bool)
    ensures
        r == v.deep_view().contains(s@),
{
    let mut i: usize = 0;
    while i < v.len()
        invariant
            i <= v@.len(),
            forall|j: int| 0 <= j < i ==> v.deep_view()[j] != s@,
        decreases v@.len() - i,
    {
        if v[i] == *s {
            proof {
                assert(v.deep_view()[i as int] == s@);
            }
            return true;
        }
        i = i + 1;
    }
    proof {
        assert(!v.deep_view().contains(s@));
    }
    false
}

/// The help text, word for word.
pub open spec fn help_text() -> Seq<char> {
    "Sample Command Line Format:\n  /P path /p rs /p h cpp /T text_to_find\n\nAttributes:\n  /P .         => start path is \".\"\n  /p rs h cpp  => patterns are \"rs\", \"h\", \"cpp\"\n  /T abc       => search text is \"abc\"\n  /s true      => recursive search\n  /H true      => hide dirs with no matches\n  /v true      => verbose - show parse\n  /A true      => show all matching files\n  /D true      => show debug output"@
}

} // verus!

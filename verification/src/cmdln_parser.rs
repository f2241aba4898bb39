//! Command-line attribute parser.
//!
//! A parsed command line is a table mapping attribute names to ordered
//! lists of value strings.  A token that begins with `/` opens an
//! attribute (the rest of the token is its name); every later token up to
//! the next `/`-token is appended as a value of that attribute.  Tokens
//! seen before the first `/`-token are dropped.
//!
//! The table is stored as an association list with unique keys; its
//! mathematical model is a `Map` from key characters to value sequences.

use vstd::prelude::*;
use vstd::string::StrSliceExecFns;
use vstd::string::StringExecFns;

verus! {

/// One attribute of the table: a key and its ordered values.
pub struct AttrEntry {
    pub key: String,
    pub vals: Vec<String>,
}

/// Command-line parser: raw argument tokens plus the parsed attribute table.
pub struct CmdParser {
    /// parsed key/values pairs, e.g. `P -> ["."]`
    attrib: Vec<AttrEntry>,
    /// raw command-line tokens, e.g. `/P . /p rs`
    args: Vec<String>,
}

/// The map denoted by an association list: a later entry for a key wins,
/// though a well-formed list never repeats a key.
pub open spec fn entries_map(s: Seq<AttrEntry>) -> Map<Seq<char>, Seq<Seq<char>>>
    decreases s.len(),
{
    if s.len() == 0 {
        Map::empty()
    } else {
        entries_map(s.drop_last()).insert(s.last().key@, s.last().vals.deep_view())
    }
}

/// No key occurs twice in the association list.
pub open spec fn unique_keys(s: Seq<AttrEntry>) -> bool {
    forall|i: int, j: int| 0 <= i < j < s.len() ==> s[i].key@ != s[j].key@
}

/// What parsing the tokens `args[i..]` makes of the table `m` when the
/// attribute `cur` (if any) is open: a `/`-token opens the attribute named
/// by its remainder, creating an empty entry for a new name and keeping
/// the values of a name seen before; any other token is appended as a
/// value of the open attribute, or dropped when none is open yet.
pub open spec fn parse_args(
    args: Seq<Seq<char>>,
    i: int,
    m: Map<Seq<char>, Seq<Seq<char>>>,
    cur: Option<Seq<char>>,
) -> Map<Seq<char>, Seq<Seq<char>>>
    decreases args.len() - i,
{
    if i < 0 || i >= args.len() {
        m
    } else {
        let tok = args[i];
        if tok.len() > 0 && tok[0] == '/' {
            let k = tok.subrange(1, tok.len() as int);
            let m2 = if m.contains_key(k) {
                m
            } else {
                m.insert(k, Seq::empty())
            };
            parse_args(args, i + 1, m2, Some(k))
        } else {
            match cur {
                Some(k) => parse_args(args, i + 1, m.insert(k, m[k].push(tok)), cur),
                None => parse_args(args, i + 1, m, cur),
            }
        }
    }
}

/// The table with every empty value list replaced by `["true"]`.
pub open spec fn truified(m: Map<Seq<char>, Seq<Seq<char>>>) -> Map<Seq<char>, Seq<Seq<char>>> {
    Map::new(
        |k: Seq<char>| m.contains_key(k),
        |k: Seq<char>|
            if m[k].len() == 0 {
                seq!["true"@]
            } else {
                m[k]
            },
    )
}

/// The attribute open at `cur` while the parsing loop runs.
spec fn open_attr(cur: Option<usize>, s: Seq<AttrEntry>) -> Option<Seq<char>> {
    match cur {
        Some(ix) => if ix < s.len() {
            Some(s[ix as int].key@)
        } else {
            None
        },
        None => None,
    }
}

/// A key is in the map exactly when some entry of the list carries it.
proof fn lemma_entries_map_dom(s: Seq<AttrEntry>, k: Seq<char>)
    ensures
        entries_map(s).contains_key(k) <==> exists|i: int| 0 <= i < s.len() && s[i].key@ == k,
    decreases s.len(),
{
    if s.len() > 0 {
        lemma_entries_map_dom(s.drop_last(), k);
        if s.last().key@ == k {
            assert(s[s.len() - 1].key@ == k);
        } else {
            if exists|i: int| 0 <= i < s.len() && s[i].key@ == k {
                let i = choose|i: int| 0 <= i < s.len() && s[i].key@ == k;
                assert(s.drop_last()[i] == s[i]);
            }
            if exists|i: int| 0 <= i < s.drop_last().len() && s.drop_last()[i].key@ == k {
                let i = choose|i: int| 0 <= i < s.drop_last().len() && s.drop_last()[i].key@ == k;
                assert(s[i].key@ == k);
            }
        }
    }
}

/// In a well-formed list, the map carries each entry's values under its key.
proof fn lemma_entries_map_get(s: Seq<AttrEntry>, i: int)
    requires
        unique_keys(s),
        0 <= i < s.len(),
    ensures
        entries_map(s).contains_key(s[i].key@),
        entries_map(s)[s[i].key@] == s[i].vals.deep_view(),
    decreases s.len(),
{
    if i == s.len() - 1 {
    } else {
        assert(unique_keys(s.drop_last())) by {
            assert(forall|p: int, q: int|
                0 <= p < q < s.drop_last().len() ==> s.drop_last()[p] == s[p]
                    && s.drop_last()[q] == s[q]);
        }
        assert(s.drop_last()[i] == s[i]);
        lemma_entries_map_get(s.drop_last(), i);
        assert(s[i].key@ != s.last().key@) by {
            assert(s.last() == s[s.len() - 1]);
        }
    }
}

/// Appending an entry with a fresh key inserts it into the map.
proof fn lemma_entries_map_push(s: Seq<AttrEntry>, e: AttrEntry)
    ensures
        entries_map(s.push(e)) == entries_map(s).insert(e.key@, e.vals.deep_view()),
{
    assert(s.push(e).drop_last() =~= s);
    assert(s.push(e).last() == e);
}

/// Replacing the values of entry `i` (same key) updates just that key.
broadcast proof fn lemma_entries_map_update(s: Seq<AttrEntry>, i: int, e: AttrEntry)
    requires
        unique_keys(s),
        0 <= i < s.len(),
        e.key@ == s[i].key@,
    ensures
        #[trigger] entries_map(s.update(i, e)) == entries_map(s).insert(e.key@, e.vals.deep_view()),
        unique_keys(s.update(i, e)),
    decreases s.len(),
{
    assert(unique_keys(s.update(i, e)));
    let t = s.update(i, e);
    if i == s.len() - 1 {
        assert(t.drop_last() =~= s.drop_last());
        assert(t.last() == e);
        assert(entries_map(s.drop_last()).insert(e.key@, e.vals.deep_view()) =~= entries_map(
            s,
        ).insert(e.key@, e.vals.deep_view()));
    } else {
        assert(unique_keys(s.drop_last())) by {
            assert(forall|p: int, q: int|
                0 <= p < q < s.drop_last().len() ==> s.drop_last()[p] == s[p]
                    && s.drop_last()[q] == s[q]);
        }
        assert(s.drop_last()[i] == s[i]);
        lemma_entries_map_update(s.drop_last(), i, e);
        assert(t.drop_last() =~= s.drop_last().update(i, e));
        assert(t.last() == s.last());
        assert(s.last() == s[s.len() - 1]);
        assert(s[i].key@ != s.last().key@);
        // inserting under the last key after the update commutes with the
        // update's own insert, because the keys differ
        assert(entries_map(s.drop_last().update(i, e)).insert(
            s.last().key@,
            s.last().vals.deep_view(),
        ) =~= entries_map(s).insert(e.key@, e.vals.deep_view()));
    }
}

/// Index of the entry that carries `key`, if any.
fn find_entry(v: &Vec<AttrEntry>, key: &String) -> (r: Option<usize>)
    ensures
        match r {
            Some(i) => i < v@.len() && v@[i as int].key@ == key@,
            None => forall|j: int| 0 <= j < v@.len() ==> v@[j].key@ != key@,
        },
{
    let mut i: usize = 0;
    while i < v.len()
        invariant
            i <= v@.len(),
            forall|j: int| 0 <= j < i ==> v@[j].key@ != key@,
        decreases v@.len() - i,
    {
        if v[i].key == *key {
            return Some(i);
        }
        i = i + 1;
    }
    None
}

impl CmdParser {
    /// The attribute table as a mathematical map from key to values.
    pub closed spec fn view_map(self) -> Map<Seq<char>, Seq<Seq<char>>> {
        entries_map(self.attrib@)
    }

    /// The raw argument tokens, as sequences of characters.
    pub closed spec fn args_view(self) -> Seq<Seq<char>> {
        self.args.deep_view()
    }

    /// Internal validity: the association list never stores a key twice.
    pub closed spec fn wf(self) -> bool {
        unique_keys(self.attrib@)
    }

    pub fn new() -> (r: CmdParser)
        ensures
            r.wf(),
            r.view_map() == Map::<Seq<char>, Seq<Seq<char>>>::empty(),
            r.args_view() == Seq::<Seq<char>>::empty(),
    {
        let r = CmdParser { attrib: Vec::new(), args: Vec::new() };
        proof {
            assert(r.args_view() =~= Seq::<Seq<char>>::empty());
        }
        r
    }

    /// Hand the parser the argument tokens it is to parse.
    pub fn set_args(&mut self, a: Vec<String>)
        ensures
            final(self).args_view() == a.deep_view(),
            final(self).view_map() == old(self).view_map(),
            final(self).wf() == old(self).wf(),
    {
        self.args = a;
    }

    pub fn get_args(&self) -> (r: &Vec<String>)
        ensures
            r.deep_view() == self.args_view(),
    {
        &self.args
    }

    /// The order in which the table's entries stand, for display.
    pub closed spec fn entries_view(self) -> Seq<AttrEntry> {
        self.attrib@
    }

    /// The parsed table itself, entry by entry.
    pub fn get_parse(&self) -> (r: &Vec<AttrEntry>)
        ensures
            r@ == self.entries_view(),
            entries_map(r@) == self.view_map(),
            unique_keys(r@) == self.wf(),
    {
        &self.attrib
    }

    /// Collect the argument tokens into the attribute table.
    pub fn parse(&mut self)
        requires
            old(self).wf(),
        ensures
            final(self).wf(),
            final(self).args_view() == old(self).args_view(),
            final(self).view_map() == parse_args(
                old(self).args_view(),
                0,
                old(self).view_map(),
                None,
            ),
    {
        let ghost args_v = self.args.deep_view();
        let ghost orig_map = entries_map(self.attrib@);
        let mut cur: Option<usize> = None;
        let mut i: usize = 0;
        while i < self.args.len()
            invariant
                i <= self.args@.len(),
                self.args@ == old(self).args@,
                args_v == self.args.deep_view(),
                unique_keys(self.attrib@),
                match cur {
                    Some(ix) => ix < self.attrib@.len(),
                    None => true,
                },
                parse_args(args_v, i as int, entries_map(self.attrib@), open_attr(cur, self.attrib@))
                    == parse_args(args_v, 0, orig_map, None),
            decreases self.args@.len() - i,
        {
            let ghost pre = self.attrib@;
            let tok = &self.args[i];
            let tok_len = tok.as_str().unicode_len();
            if tok_len > 0 && tok.as_str().get_char(0) == '/' {
                let name = tok.as_str().substring_char(1, tok_len).to_owned();
                let found = find_entry(&self.attrib, &name);
                proof {
                    lemma_entries_map_dom(self.attrib@, name@);
                }
                match found {
                    Some(ix) => {
                        cur = Some(ix);
                    },
                    None => {
                        let e = AttrEntry { key: name, vals: Vec::new() };
                        proof {
                            lemma_entries_map_push(self.attrib@, e);
                            assert(e.vals.deep_view() =~= Seq::<Seq<char>>::empty());
                            assert(unique_keys(pre.push(e)));
                        }
                        self.attrib.push(e);
                        cur = Some(self.attrib.len() - 1);
                    },
                }
            } else {
                match cur {
                    Some(ix) => {
                        proof {
                            lemma_entries_map_get(self.attrib@, ix as int);
                        }
                        let v = tok.clone();
                        let ghost k = self.attrib@[ix as int].key@;
                        let entry = &mut self.attrib[ix];
                        entry.vals.push(v);
                        proof {
                            lemma_entries_map_update(pre, ix as int, *final(entry));
                            assert((*final(entry)).vals.deep_view() =~= entries_map(pre)[k].push(
                                args_v[i as int],
                            ));
                        }
                    },
                    None => {},
                }
            }
            i = i + 1;
        }
    }

    pub fn contains_key(&self, key: &str) -> (r: bool)
        ensures
            r == self.view_map().contains_key(key@),
    {
        let k = key.to_owned();
        let found = find_entry(&self.attrib, &k);
        proof {
            lemma_entries_map_dom(self.attrib@, key@);
        }
        found.is_some()
    }

    /// The values stored under `key`, if the key is present.
    pub fn get(&self, key: &str) -> (r: Option<&Vec<String>>)
        requires
            self.wf(),
        ensures
            match r {
                Some(v) => self.view_map().contains_key(key@) && v.deep_view()
                    == self.view_map()[key@],
                None => !self.view_map().contains_key(key@),
            },
    {
        let k = key.to_owned();
        let found = find_entry(&self.attrib, &k);
        proof {
            lemma_entries_map_dom(self.attrib@, key@);
        }
        match found {
            Some(i) => {
                proof {
                    lemma_entries_map_get(self.attrib@, i as int);
                }
                Some(&self.attrib[i].vals)
            },
            None => None,
        }
    }

    /// Mutable access to the values stored under `key`.  Whatever the
    /// caller leaves behind the reference becomes that key's values.
    pub fn get_mut(&mut self, key: &str) -> (r: Option<&mut Vec<String>>)
        requires
            old(self).wf(),
        ensures
            final(self).wf(),
            final(self).args_view() == old(self).args_view(),
            match r {
                Some(v) => old(self).view_map().contains_key(key@) && (*v).deep_view() == old(
                    self,
                ).view_map()[key@] && final(self).view_map() == old(self).view_map().insert(
                    key@,
                    final(v).deep_view(),
                ),
                None => !old(self).view_map().contains_key(key@) && *final(self) == *old(self),
            },
    {
        broadcast use lemma_entries_map_update;

        let k = key.to_owned();
        let found = find_entry(&self.attrib, &k);
        proof {
            lemma_entries_map_dom(self.attrib@, key@);
        }
        match found {
            Some(i) => {
                proof {
                    lemma_entries_map_get(self.attrib@, i as int);
                }
                Some(&mut self.attrib[i].vals)
            },
            None => None,
        }
    }

    /// Insert `key -> [value]` only if `key` is absent; never overwrite.
    pub fn set_default(&mut self, key: &str, value: &str)
        requires
            old(self).wf(),
        ensures
            final(self).wf(),
            final(self).args_view() == old(self).args_view(),
            final(self).view_map() == if old(self).view_map().contains_key(key@) {
                old(self).view_map()
            } else {
                old(self).view_map().insert(key@, seq![value@])
            },
    {
        let k = key.to_owned();
        let found = find_entry(&self.attrib, &k);
        proof {
            lemma_entries_map_dom(self.attrib@, key@);
        }
        if found.is_none() {
            let mut vals: Vec<String> = Vec::new();
            vals.push(value.to_owned());
            let e = AttrEntry { key: k, vals };
            proof {
                lemma_entries_map_push(self.attrib@, e);
                assert(e.vals.deep_view() =~= seq![value@]);
            }
            self.attrib.push(e);
        }
    }

    /// Append `v` under `key`, creating the entry if the key is absent.
    pub fn insert(&mut self, key: &str, v: &str)
        requires
            old(self).wf(),
        ensures
            final(self).wf(),
            final(self).args_view() == old(self).args_view(),
            final(self).view_map() == old(self).view_map().insert(
                key@,
                if old(self).view_map().contains_key(key@) {
                    old(self).view_map()[key@].push(v@)
                } else {
                    seq![v@]
                },
            ),
    {
        let k = key.to_owned();
        let vs = v.to_owned();
        let found = find_entry(&self.attrib, &k);
        proof {
            lemma_entries_map_dom(self.attrib@, key@);
        }
        match found {
            Some(i) => {
                proof {
                    lemma_entries_map_get(self.attrib@, i as int);
                }
                let entry = &mut self.attrib[i];
                entry.vals.push(vs);
                proof {
                    lemma_entries_map_update(old(self).attrib@, i as int, *final(entry));
                    assert((*final(entry)).vals.deep_view() =~= old(self).view_map()[key@].push(
                        v@,
                    ));
                    assert(unique_keys(final(self).attrib@));
                }
            },
            None => {
                let mut vals: Vec<String> = Vec::new();
                vals.push(vs);
                let e = AttrEntry { key: k, vals };
                proof {
                    lemma_entries_map_push(self.attrib@, e);
                    assert(e.vals.deep_view() =~= seq![v@]);
                }
                self.attrib.push(e);
            },
        }
    }

    /// Make `[val]` the whole value list of `key`, creating or replacing.
    pub fn replace_value(&mut self, key: &str, val: &str)
        requires
            old(self).wf(),
        ensures
            final(self).wf(),
            final(self).args_view() == old(self).args_view(),
            final(self).view_map() == old(self).view_map().insert(key@, seq![val@]),
    {
        let k = key.to_owned();
        let vs = val.to_owned();
        let found = find_entry(&self.attrib, &k);
        proof {
            lemma_entries_map_dom(self.attrib@, key@);
        }
        match found {
            Some(i) => {
                let entry = &mut self.attrib[i];
                entry.vals.clear();
                entry.vals.push(vs);
                proof {
                    lemma_entries_map_update(old(self).attrib@, i as int, *final(entry));
                    assert((*final(entry)).vals.deep_view() =~= seq![val@]);
                    assert(unique_keys(final(self).attrib@));
                }
            },
            None => {
                let mut vals: Vec<String> = Vec::new();
                vals.push(vs);
                let e = AttrEntry { key: k, vals };
                proof {
                    lemma_entries_map_push(self.attrib@, e);
                    assert(e.vals.deep_view() =~= seq![val@]);
                }
                self.attrib.push(e);
            },
        }
    }

    /// Give every attribute whose value list is empty the single value
    /// `"true"`, so that a bare flag reads as boolean true.
    pub fn empty_values_to_true(&mut self)
        requires
            old(self).wf(),
        ensures
            final(self).wf(),
            final(self).args_view() == old(self).args_view(),
            final(self).view_map() == truified(old(self).view_map()),
    {
        let ghost orig = self.attrib@;
        let mut i: usize = 0;
        while i < self.attrib.len()
            invariant
                i <= self.attrib@.len(),
                self.attrib@.len() == orig.len(),
                self.args@ == old(self).args@,
                forall|j: int| #![auto] 0 <= j < orig.len() ==> self.attrib@[j].key@ == orig[j].key@,
                forall|j: int| #![auto]
                    i <= j < orig.len() ==> self.attrib@[j].vals.deep_view()
                        == orig[j].vals.deep_view(),
                forall|j: int| #![auto]
                    0 <= j < i ==> self.attrib@[j].vals.deep_view() == if orig[j].vals.deep_view().len()
                        == 0 {
                        seq!["true"@]
                    } else {
                        orig[j].vals.deep_view()
                    },
            decreases self.attrib@.len() - i,
        {
            let entry = &mut self.attrib[i];
            if entry.vals.is_empty() {
                entry.vals.push("true".to_owned());
                proof {
                    assert((*final(entry)).vals.deep_view() =~= seq!["true"@]);
                }
            }
            i = i + 1;
        }
        proof {
            lemma_pointwise_entries(orig, self.attrib@);
            assert(unique_keys(self.attrib@));
            assert forall|k: Seq<char>| #[trigger] entries_map(orig).contains_key(k) implies
                entries_map(self.attrib@)[k] == (if entries_map(orig)[k].len() == 0 {
                    seq!["true"@]
                } else {
                    entries_map(orig)[k]
                }) by {
                lemma_entries_map_dom(orig, k);
                let j = choose|j: int| 0 <= j < orig.len() && orig[j].key@ == k;
                assert(entries_map(orig)[k] == orig[j].vals.deep_view());
                assert(entries_map(self.attrib@)[k] == self.attrib@[j].vals.deep_view());
            }
            assert(final(self).view_map().dom() =~= old(self).view_map().dom());
            assert(final(self).view_map() =~= truified(old(self).view_map()));
        }
    }
}

/// The text that lists the tokens `args[i..]`, one per indented line.
pub open spec fn args_text(args: Seq<Seq<char>>, i: int) -> Seq<char>
    decreases args.len() - i,
{
    if i < 0 || i >= args.len() {
        Seq::empty()
    } else {
        "\n    "@ + args[i] + args_text(args, i + 1)
    }
}

/// `s` wrapped in double quotes.
pub open spec fn quoted(s: Seq<char>) -> Seq<char> {
    "\""@ + s + "\""@
}

/// The quoted values `vals[i..]`, separated by commas.
pub open spec fn vals_text(vals: Seq<Seq<char>>, i: int) -> Seq<char>
    decreases vals.len() - i,
{
    if i < 0 || i >= vals.len() {
        Seq::empty()
    } else if i == vals.len() - 1 {
        quoted(vals[i])
    } else {
        quoted(vals[i]) + ", "@ + vals_text(vals, i + 1)
    }
}

/// One table entry rendered as `("key", ["v1", "v2"])`.
pub open spec fn entry_text(key: Seq<char>, vals: Seq<Seq<char>>) -> Seq<char> {
    "(\""@ + key + "\", ["@ + vals_text(vals, 0) + "])"@
}

/// The text that lists the table entries `s[i..]`, one per indented line.
pub open spec fn parse_text(s: Seq<AttrEntry>, i: int) -> Seq<char>
    decreases s.len() - i,
{
    if i < 0 || i >= s.len() {
        Seq::empty()
    } else {
        "\n    "@ + entry_text(s[i].key@, s[i].vals.deep_view()) + parse_text(s, i + 1)
    }
}

/// Render the raw argument tokens, one per line, under a heading.
pub fn show_args(cp: &CmdParser) -> (r: String)
    ensures
        r@ == "\n  cmdln arguments:"@ + args_text(cp.args_view(), 0),
{
    let mut temp = "\n  cmdln arguments:".to_owned();
    let args = cp.get_args();
    let ghost args_v = args.deep_view();
    let mut i: usize = 0;
    while i < args.len()
        invariant
            i <= args_v.len(),
            args_v == args.deep_view(),
            temp@ + args_text(args_v, i as int) == "\n  cmdln arguments:"@ + args_text(args_v, 0),
        decreases args_v.len() - i,
    {
        let ghost before = temp@;
        temp.append("\n    ");
        temp.append(args[i].as_str());
        proof {
            assert(temp@ + args_text(args_v, i + 1) =~= before + args_text(args_v, i as int));
        }
        i = i + 1;
    }
    proof {
        assert(temp@ + args_text(args_v, i as int) =~= temp@);
    }
    temp
}

/// Render the parsed table, one `("key", [values])` entry per line.
pub fn show_parse(cp: &CmdParser) -> (r: String)
    ensures
        r@ == "\n  cmdln parse:"@ + parse_text(cp.entries_view(), 0),
{
    let mut temp = "\n  cmdln parse:".to_owned();
    let entries = cp.get_parse();
    let ghost ent_v = entries@;
    let mut i: usize = 0;
    while i < entries.len()
        invariant
            i <= ent_v.len(),
            ent_v == entries@,
            temp@ + parse_text(ent_v, i as int) == "\n  cmdln parse:"@ + parse_text(ent_v, 0),
        decreases ent_v.len() - i,
    {
        let ghost before = temp@;
        temp.append("\n    ");
        temp.append("(\"");
        temp.append(entries[i].key.as_str());
        temp.append("\", [");
        let vals = &entries[i].vals;
        let ghost vals_v = vals.deep_view();
        let ghost mid = temp@;
        let mut j: usize = 0;
        while j < vals.len()
            invariant
                j <= vals_v.len(),
                vals_v == vals.deep_view(),
                temp@ + vals_text(vals_v, j as int) == mid + vals_text(vals_v, 0),
            decreases vals_v.len() - j,
        {
            let ghost vbefore = temp@;
            temp.append("\"");
            temp.append(vals[j].as_str());
            temp.append("\"");
            if j + 1 < vals.len() {
                temp.append(", ");
            }
            proof {
                assert(temp@ + vals_text(vals_v, j + 1) =~= vbefore + vals_text(vals_v, j as int));
            }
            j = j + 1;
        }
        temp.append("])");
        proof {
            assert(vals_text(vals_v, vals_v.len() as int) =~= Seq::<char>::empty());
            assert(mid + vals_text(vals_v, 0) + "])"@ =~= mid + (vals_text(vals_v, 0) + "])"@));
            assert(temp@ + parse_text(ent_v, i + 1) =~= before + parse_text(ent_v, i as int));
        }
        i = i + 1;
    }
    proof {
        assert(temp@ + parse_text(ent_v, i as int) =~= temp@);
    }
    temp
}

/// A token that opens an attribute: it begins with `/`.
pub open spec fn is_attr_token(t: Seq<char>) -> bool {
    t.len() > 0 && t[0] == '/'
}

/// The attribute name an attribute token carries.
pub open spec fn key_of(t: Seq<char>) -> Seq<char> {
    t.subrange(1, t.len() as int)
}

/// Well-formed `/key value...` structure: the sequence opens with an
/// attribute token, and no two attribute tokens name the same key.
pub open spec fn well_formed_args(args: Seq<Seq<char>>) -> bool {
    &&& args.len() > 0 ==> is_attr_token(args[0])
    &&& forall|i: int, j: int|
        0 <= i < j < args.len() && is_attr_token(#[trigger] args[i]) && is_attr_token(
            #[trigger] args[j],
        ) ==> key_of(args[i]) != key_of(args[j])
}

/// The position of the first attribute token at or after `i`, or the end.
pub open spec fn next_attr(args: Seq<Seq<char>>, i: int) -> int
    decreases args.len() - i,
{
    if i < 0 || i >= args.len() {
        args.len() as int
    } else if is_attr_token(args[i]) {
        i
    } else {
        next_attr(args, i + 1)
    }
}

/// The values that follow the attribute token at `i`: every token up to
/// the next attribute token, or up to the end of the input.
pub open spec fn values_after(args: Seq<Seq<char>>, i: int) -> Seq<Seq<char>> {
    args.subrange(i + 1, next_attr(args, i + 1))
}

proof fn lemma_next_attr_bounds(args: Seq<Seq<char>>, i: int)
    requires
        0 <= i <= args.len(),
    ensures
        i <= next_attr(args, i) <= args.len(),
    decreases args.len() - i,
{
    if i < args.len() && !is_attr_token(args[i]) {
        lemma_next_attr_bounds(args, i + 1);
    }
}

/// Once no remaining attribute token names `k` and no attribute named `k`
/// is open, parsing the rest leaves `k`'s values unchanged.
proof fn lemma_parse_key_stable(
    args: Seq<Seq<char>>,
    q: int,
    m: Map<Seq<char>, Seq<Seq<char>>>,
    cur: Option<Seq<char>>,
    k: Seq<char>,
)
    requires
        0 <= q <= args.len(),
        m.contains_key(k),
        cur != Some(k),
        forall|j: int| q <= j < args.len() && is_attr_token(#[trigger] args[j]) ==> key_of(args[j]) != k,
    ensures
        parse_args(args, q, m, cur).contains_key(k),
        parse_args(args, q, m, cur)[k] == m[k],
    decreases args.len() - q,
{
    if q < args.len() {
        let tok = args[q];
        if is_attr_token(tok) {
            let k2 = key_of(tok);
            let m2 = if m.contains_key(k2) {
                m
            } else {
                m.insert(k2, Seq::empty())
            };
            lemma_parse_key_stable(args, q + 1, m2, Some(k2), k);
        } else {
            match cur {
                Some(kc) => {
                    lemma_parse_key_stable(args, q + 1, m.insert(kc, m[kc].push(tok)), cur, k);
                },
                None => {
                    lemma_parse_key_stable(args, q + 1, m, cur, k);
                },
            }
        }
    }
}

/// While the attribute `k` is open, parsing appends to `k` exactly the
/// tokens up to the next attribute token.
proof fn lemma_parse_accumulates(
    args: Seq<Seq<char>>,
    q: int,
    m: Map<Seq<char>, Seq<Seq<char>>>,
    k: Seq<char>,
)
    requires
        0 <= q <= args.len(),
        m.contains_key(k),
        forall|j: int| q <= j < args.len() && is_attr_token(#[trigger] args[j]) ==> key_of(args[j]) != k,
    ensures
        parse_args(args, q, m, Some(k)).contains_key(k),
        parse_args(args, q, m, Some(k))[k] == m[k] + args.subrange(q, next_attr(args, q)),
    decreases args.len() - q,
{
    if q >= args.len() {
        assert(m[k] + args.subrange(q, next_attr(args, q)) =~= m[k]);
    } else {
        let tok = args[q];
        if is_attr_token(tok) {
            let k2 = key_of(tok);
            assert(k2 != k);
            let m2 = if m.contains_key(k2) {
                m
            } else {
                m.insert(k2, Seq::empty())
            };
            lemma_parse_key_stable(args, q + 1, m2, Some(k2), k);
            assert(m[k] + args.subrange(q, next_attr(args, q)) =~= m[k]);
        } else {
            let m2 = m.insert(k, m[k].push(tok));
            lemma_parse_accumulates(args, q + 1, m2, k);
            lemma_next_attr_bounds(args, q + 1);
            assert(m2[k] + args.subrange(q + 1, next_attr(args, q + 1)) =~= m[k] + args.subrange(
                q,
                next_attr(args, q),
            ));
        }
    }
}

/// Parsing up to the unique attribute token for `k` neither creates nor
/// changes `k`; from there on, `k` collects exactly its following values.
proof fn lemma_parse_reaches(
    args: Seq<Seq<char>>,
    q: int,
    m: Map<Seq<char>, Seq<Seq<char>>>,
    cur: Option<Seq<char>>,
    i: int,
)
    requires
        0 <= q <= i < args.len(),
        is_attr_token(args[i]),
        !m.contains_key(key_of(args[i])),
        cur != Some(key_of(args[i])),
        forall|j: int|
            q <= j < args.len() && j != i && is_attr_token(#[trigger] args[j]) ==> key_of(args[j])
                != key_of(args[i]),
    ensures
        parse_args(args, q, m, cur).contains_key(key_of(args[i])),
        parse_args(args, q, m, cur)[key_of(args[i])] == values_after(args, i),
    decreases i - q,
{
    let k = key_of(args[i]);
    let tok = args[q];
    if q == i {
        let m2 = m.insert(k, Seq::empty());
        lemma_parse_accumulates(args, q + 1, m2, k);
        lemma_next_attr_bounds(args, q + 1);
        assert(m2[k] + args.subrange(q + 1, next_attr(args, q + 1)) =~= values_after(args, i));
    } else {
        if is_attr_token(tok) {
            let k2 = key_of(tok);
            assert(k2 != k);
            let m2 = if m.contains_key(k2) {
                m
            } else {
                m.insert(k2, Seq::empty())
            };
            lemma_parse_reaches(args, q + 1, m2, Some(k2), i);
        } else {
            match cur {
                Some(kc) => {
                    lemma_parse_reaches(args, q + 1, m.insert(kc, m[kc].push(tok)), cur, i);
                },
                None => {
                    lemma_parse_reaches(args, q + 1, m, cur, i);
                },
            }
        }
    }
}

/// For every well-formed argument sequence, parsing from an empty table
/// gives each attribute token's key exactly the values that appear after
/// that token and before the next attribute token or the end of input.
pub proof fn lemma_parse_gets_values(args: Seq<Seq<char>>, i: int)
    requires
        well_formed_args(args),
        0 <= i < args.len(),
        is_attr_token(args[i]),
    ensures
        parse_args(args, 0, Map::empty(), None).contains_key(key_of(args[i])),
        parse_args(args, 0, Map::empty(), None)[key_of(args[i])] == values_after(args, i),
{
    lemma_parse_reaches(args, 0, Map::empty(), None, i);
}

/// Two lists with the same keys in the same order denote maps with the
/// same domain, and each key maps to the corresponding values.
proof fn lemma_pointwise_entries(s: Seq<AttrEntry>, t: Seq<AttrEntry>)
    requires
        s.len() == t.len(),
        forall|j: int| #![auto] 0 <= j < s.len() ==> t[j].key@ == s[j].key@,
        unique_keys(s),
    ensures
        unique_keys(t),
        entries_map(t).dom() == entries_map(s).dom(),
        forall|j: int| #![auto]
            0 <= j < s.len() ==> entries_map(t)[s[j].key@] == t[j].vals.deep_view(),
        forall|j: int| #![auto]
            0 <= j < s.len() ==> entries_map(s)[s[j].key@] == s[j].vals.deep_view(),
{
    assert(unique_keys(t));
    assert forall|j: int| 0 <= j < s.len() implies #[trigger] entries_map(t)[s[j].key@]
        == t[j].vals.deep_view() by {
        lemma_entries_map_get(t, j);
    }
    assert forall|j: int| 0 <= j < s.len() implies #[trigger] entries_map(s)[s[j].key@]
        == s[j].vals.deep_view() by {
        lemma_entries_map_get(s, j);
    }
    assert(entries_map(t).dom() =~= entries_map(s).dom()) by {
        assert forall|k: Seq<char>| entries_map(t).contains_key(k) == entries_map(
            s,
        ).contains_key(k) by {
            lemma_entries_map_dom(t, k);
            lemma_entries_map_dom(s, k);
        }
    }
}

} // verus!

//! An INI-style document: the line format used by `index.theme` manifests.
//!
//! A document is the sequence of its meaningful lines: section headers and
//! `key=value` entries. Blank lines and comment lines (starting with `#` or
//! `;`) carry nothing; any other line that is neither a header nor an entry
//! makes the whole document unreadable.

use vstd::prelude::*;
use vstd::string::*;

use crate::text::{
    find_sep, is_space, lemma_next_sep, lemma_next_sep_is, lemma_next_sep_shift,
    lemma_trim_stable, lemma_trim_stable_ends, next_sep, spec_trim, str_eq, trim,
};

verus! {

/// One meaningful line of an INI document.
pub enum IniItem {
    Section(String),
    Entry(String, String),
}

/// Spec-level counterpart of `IniItem`.
pub enum IniItemV {
    Section(Seq<char>),
    Entry(Seq<char>, Seq<char>),
}

impl View for IniItem {
    type V = IniItemV;

    open spec fn view(&self) -> IniItemV {
        match self {
            IniItem::Section(n) => IniItemV::Section(n@),
            IniItem::Entry(k, v) => IniItemV::Entry(k@, v@),
        }
    }
}

impl DeepView for IniItem {
    type V = IniItemV;

    open spec fn deep_view(&self) -> IniItemV {
        self.view()
    }
}

/// A parsed INI document.
pub struct IniDoc {
    pub items: Vec<IniItem>,
}

impl View for IniDoc {
    type V = Seq<IniItemV>;

    open spec fn view(&self) -> Seq<IniItemV> {
        self.items.deep_view()
    }
}

/// The pieces of `s` between occurrences of `sep`, neither trimmed nor
/// filtered, starting at `i`.
pub open spec fn spec_raw_pieces(s: Seq<char>, sep: char, i: int) -> Seq<Seq<char>>
    decreases s.len() - i,
    when 0 <= i <= s.len()
{
    proof {
        lemma_next_sep(s, sep, i);
    }
    let j = next_sep(s, sep, i);
    if j == s.len() {
        seq![s.subrange(i, j)]
    } else {
        seq![s.subrange(i, j)] + spec_raw_pieces(s, sep, j + 1)
    }
}

/// How one trimmed line reads.
pub enum SpecLine {
    Blank,
    Sec(Seq<char>),
    Ent(Seq<char>, Seq<char>),
    Bad,
}

/// Classification of a trimmed line: empty and comment lines carry
/// nothing, `[name]` opens a section, `key=value` is an entry, and any
/// other line spoils the document.
pub open spec fn spec_classify_line(t: Seq<char>) -> SpecLine {
    if t.len() == 0 {
        SpecLine::Blank
    } else if t[0] == '#' || t[0] == ';' {
        SpecLine::Blank
    } else if t[0] == '[' {
        if t.len() >= 2 && t[t.len() - 1] == ']' {
            SpecLine::Sec(spec_trim(t.subrange(1, t.len() - 1)))
        } else {
            SpecLine::Bad
        }
    } else {
        let e = next_sep(t, '=', 0);
        if e < t.len() {
            SpecLine::Ent(spec_trim(t.subrange(0, e)), spec_trim(t.subrange(e + 1, t.len() as int)))
        } else {
            SpecLine::Bad
        }
    }
}

/// The items of the lines from `i` on, or nothing when some line is bad.
pub open spec fn spec_parse_items(lines: Seq<Seq<char>>, i: int) -> Option<Seq<IniItemV>>
    decreases lines.len() - i,
    when 0 <= i <= lines.len()
{
    if i >= lines.len() {
        Some(Seq::<IniItemV>::empty())
    } else {
        let rest = spec_parse_items(lines, i + 1);
        match spec_classify_line(spec_trim(lines[i])) {
            SpecLine::Blank => rest,
            SpecLine::Sec(n) => match rest {
                Some(r) => Some(seq![IniItemV::Section(n)] + r),
                None => None,
            },
            SpecLine::Ent(k, v) => match rest {
                Some(r) => Some(seq![IniItemV::Entry(k, v)] + r),
                None => None,
            },
            SpecLine::Bad => None,
        }
    }
}

/// The whole document: its lines split on `\n`, classified in order.
pub open spec fn spec_parse_ini(s: Seq<char>) -> Option<Seq<IniItemV>> {
    spec_parse_items(spec_raw_pieces(s, '\n', 0), 0)
}

/// Splits a string into its lines, keeping each piece as found.
fn raw_lines(s: &str) -> (r: Vec<String>)
    ensures
        r.deep_view() == spec_raw_pieces(s@, '\n', 0),
{
    let n = s.unicode_len();
    let mut out: Vec<String> = Vec::new();
    let mut i: usize = 0;
    let mut done = false;
    while !done
        invariant
            0 <= i <= n,
            n == s@.len(),
            !done ==> spec_raw_pieces(s@, '\n', 0) == out.deep_view() + spec_raw_pieces(
                s@,
                '\n',
                i as int,
            ),
            done ==> spec_raw_pieces(s@, '\n', 0) == out.deep_view(),
        decreases n - i + (if done { 0int } else { 1int }),
    {
        let ghost prev = out.deep_view();
        let j = find_sep(s, '\n', i);
        let piece = s.substring_char(i, j);
        proof {
            lemma_next_sep(s@, '\n', i as int);
        }
        out.push(String::from_str(piece));
        proof {
            assert(out.deep_view() =~= prev + seq![piece@]);
        }
        if j == n {
            done = true;
        } else {
            i = j + 1;
        }
    }
    out
}

impl IniDoc {
    /// Reads a whole INI document, or nothing when some line is neither a
    /// section header, an entry, a comment nor blank.
    pub fn parse(s: &str) -> (r: Option<IniDoc>)
        ensures
            match r {
                Some(doc) => spec_parse_ini(s@) == Some(doc@),
                None => spec_parse_ini(s@) is None,
            },
    {
        let lines = raw_lines(s);
        let ghost lv = lines.deep_view();
        let mut items: Vec<IniItem> = Vec::new();
        let nl = lines.len();
        let mut i: usize = 0;
        proof {
            assert(items.deep_view() =~= Seq::<IniItemV>::empty());
            if spec_parse_items(lv, 0) is Some {
                assert(items.deep_view() + spec_parse_items(lv, 0).unwrap() =~= spec_parse_items(
                    lv,
                    0,
                ).unwrap());
            }
        }
        while i < nl
            invariant
                0 <= i <= nl,
                nl == lines.len(),
                lv == lines.deep_view(),
                lv == spec_raw_pieces(s@, '\n', 0),
                spec_parse_ini(s@) == match spec_parse_items(lv, i as int) {
                    Some(r) => Some(items.deep_view() + r),
                    None => None::<Seq<IniItemV>>,
                },
            decreases nl - i,
        {
            let ghost prev = items.deep_view();
            let line: &String = &lines[i];
            assert(line@ == lv[i as int]);
            let t = trim(line.as_str());
            let tn = t.unicode_len();
            if tn == 0 {
                // blank line
            } else {
                let c0 = t.get_char(0);
                if c0 == '#' || c0 == ';' {
                    // comment line
                } else if c0 == '[' {
                    if tn >= 2 && t.get_char(tn - 1) == ']' {
                        let name = trim(t.substring_char(1, tn - 1));
                        items.push(IniItem::Section(String::from_str(name)));
                        proof {
                            assert(items.deep_view() =~= prev + seq![
                                IniItemV::Section(name@),
                            ]);
                        }
                    } else {
                        return None;
                    }
                } else {
                    let e = find_sep(t, '=', 0);
                    proof {
                        lemma_next_sep(t@, '=', 0);
                    }
                    if e < tn {
                        let key = trim(t.substring_char(0, e));
                        let val = trim(t.substring_char(e + 1, tn));
                        items.push(
                            IniItem::Entry(String::from_str(key), String::from_str(val)),
                        );
                        proof {
                            assert(items.deep_view() =~= prev + seq![
                                IniItemV::Entry(key@, val@),
                            ]);
                        }
                    } else {
                        return None;
                    }
                }
            }
            proof {
                if spec_parse_items(lv, i + 1) is Some {
                    assert(items.deep_view() + spec_parse_items(lv, i + 1).unwrap()
                        =~= prev + spec_parse_items(lv, i as int).unwrap());
                }
            }
            i = i + 1;
        }
        proof {
            assert(items.deep_view() + Seq::<IniItemV>::empty() =~= items.deep_view());
        }
        Some(IniDoc { items })
    }
}

/// The value of `key` in section `sec`, read from item `i` on while the
/// items before `i` left the reader inside a matching section iff `cur`.
/// The first matching entry wins; matching is byte-for-byte.
pub open spec fn spec_ini_get_from(
    items: Seq<IniItemV>,
    i: int,
    cur: bool,
    sec: Seq<char>,
    key: Seq<char>,
) -> Option<Seq<char>>
    decreases items.len() - i,
    when 0 <= i <= items.len()
{
    if i >= items.len() {
        None
    } else {
        match items[i] {
            IniItemV::Section(n) => spec_ini_get_from(items, i + 1, n == sec, sec, key),
            IniItemV::Entry(k, v) => if cur && k == key {
                Some(v)
            } else {
                spec_ini_get_from(items, i + 1, cur, sec, key)
            },
        }
    }
}

/// The value of `key` in section `sec`.
pub open spec fn spec_ini_get(items: Seq<IniItemV>, sec: Seq<char>, key: Seq<char>) -> Option<
    Seq<char>,
> {
    spec_ini_get_from(items, 0, false, sec, key)
}

/// Whether a header named `sec` occurs at or after item `i`.
pub open spec fn spec_has_section_from(items: Seq<IniItemV>, i: int, sec: Seq<char>) -> bool
    decreases items.len() - i,
    when 0 <= i <= items.len()
{
    if i >= items.len() {
        false
    } else {
        match items[i] {
            IniItemV::Section(n) => n == sec || spec_has_section_from(items, i + 1, sec),
            IniItemV::Entry(k, v) => spec_has_section_from(items, i + 1, sec),
        }
    }
}

/// Whether the document has a section named `sec`.
pub open spec fn spec_has_section(items: Seq<IniItemV>, sec: Seq<char>) -> bool {
    spec_has_section_from(items, 0, sec)
}

/// An optional string, seen as an optional character sequence.
pub open spec fn opt_str_view(o: Option<String>) -> Option<Seq<char>> {
    match o {
        Some(s) => Some(s@),
        None => None,
    }
}

impl IniDoc {
    /// Looks a key up in a section, byte-for-byte, first match winning.
    pub fn get(&self, sec: &str, key: &str) -> (r: Option<String>)
        ensures
            opt_str_view(r) == spec_ini_get(self@, sec@, key@),
    {
        let n = self.items.len();
        let mut cur = false;
        let mut i: usize = 0;
        while i < n
            invariant
                0 <= i <= n,
                n == self.items.len(),
                spec_ini_get(self@, sec@, key@) == spec_ini_get_from(
                    self@,
                    i as int,
                    cur,
                    sec@,
                    key@,
                ),
            decreases n - i,
        {
            assert(self@[i as int] == self.items[i as int]@);
            match &self.items[i] {
                IniItem::Section(nm) => {
                    cur = str_eq(nm.as_str(), sec);
                },
                IniItem::Entry(k, v) => {
                    if cur && str_eq(k.as_str(), key) {
                        return Some(v.clone());
                    }
                },
            }
            i = i + 1;
        }
        None
    }

    /// Whether the document has a section of this name.
    pub fn has_section(&self, sec: &str) -> (r: bool)
        ensures
            r == spec_has_section(self@, sec@),
    {
        let n = self.items.len();
        let mut i: usize = 0;
        while i < n
            invariant
                0 <= i <= n,
                n == self.items.len(),
                spec_has_section(self@, sec@) == spec_has_section_from(self@, i as int, sec@),
            decreases n - i,
        {
            assert(self@[i as int] == self.items[i as int]@);
            match &self.items[i] {
                IniItem::Section(nm) => {
                    if str_eq(nm.as_str(), sec) {
                        return true;
                    }
                },
                IniItem::Entry(..) => {},
            }
            i = i + 1;
        }
        false
    }
}

/// The text of one item: a bracketed header or a `key=value` line, each
/// closed by a newline.
pub open spec fn spec_render_item(it: IniItemV) -> Seq<char> {
    match it {
        IniItemV::Section(n) => seq!['['] + n + seq![']'] + seq!['\n'],
        IniItemV::Entry(k, v) => k + seq!['='] + v + seq!['\n'],
    }
}

/// The text of the items from `i` on.
pub open spec fn spec_render_items(items: Seq<IniItemV>, i: int) -> Seq<char>
    decreases items.len() - i,
    when 0 <= i <= items.len()
{
    if i >= items.len() {
        Seq::<char>::empty()
    } else {
        spec_render_item(items[i]) + spec_render_items(items, i + 1)
    }
}

impl IniDoc {
    /// Writes the document back out, one line per item.
    pub fn render(&self) -> (r: String)
        ensures
            r@ == spec_render_items(self@, 0),
    {
        proof {
            reveal_strlit("[");
            reveal_strlit("]\n");
            reveal_strlit("=");
            reveal_strlit("\n");
        }
        let n = self.items.len();
        let mut out = String::new();
        let mut i: usize = 0;
        while i < n
            invariant
                0 <= i <= n,
                n == self.items.len(),
                out@ + spec_render_items(self@, i as int) == spec_render_items(self@, 0),
            decreases n - i,
        {
            proof {
                reveal_strlit("[");
                reveal_strlit("]\n");
                reveal_strlit("=");
                reveal_strlit("\n");
            }
            assert(self@[i as int] == self.items[i as int]@);
            let ghost prev = out@;
            match &self.items[i] {
                IniItem::Section(nm) => {
                    out.append("[");
                    out.append(nm.as_str());
                    out.append("]\n");
                    proof {
                        assert("["@ =~= seq!['[']);
                        assert("]\n"@ =~= seq![']', '\n']);
                        assert(out@ =~= prev + spec_render_item(self@[i as int]));
                    }
                },
                IniItem::Entry(k, v) => {
                    out.append(k.as_str());
                    out.append("=");
                    out.append(v.as_str());
                    out.append("\n");
                    proof {
                        assert("="@ =~= seq!['=']);
                        assert("\n"@ =~= seq!['\n']);
                        assert(out@ =~= prev + spec_render_item(self@[i as int]));
                    }
                },
            }
            proof {
                assert(prev + spec_render_item(self@[i as int]) + spec_render_items(
                    self@,
                    i + 1,
                ) =~= prev + spec_render_items(self@, i as int));
            }
            i = i + 1;
        }
        proof {
            assert(out@ + Seq::<char>::empty() =~= out@);
        }
        out
    }
}

/// No occurrence of this character.
pub open spec fn no_char(s: Seq<char>, c: char) -> bool {
    forall|k: int| 0 <= k < s.len() ==> s[k] != c
}

/// What makes an item survive a round trip through its text: no newline
/// anywhere, trim-stable names, no `=` in a key, and a key that does not
/// open a comment or a section.
pub open spec fn item_renderable(it: IniItemV) -> bool {
    match it {
        IniItemV::Section(n) => no_char(n, '\n') && spec_trim(n) == n,
        IniItemV::Entry(k, v) => no_char(k, '\n') && no_char(v, '\n') && no_char(k, '=')
            && spec_trim(k) == k && spec_trim(v) == v && (k.len() > 0 ==> k[0] != '#' && k[0]
            != ';' && k[0] != '['),
    }
}

/// Every item of the document is renderable.
pub open spec fn doc_renderable(items: Seq<IniItemV>) -> bool {
    forall|i: int| 0 <= i < items.len() ==> item_renderable(#[trigger] items[i])
}

/// Renderability splits over concatenation.
pub proof fn lemma_doc_renderable_concat(a: Seq<IniItemV>, b: Seq<IniItemV>)
    requires
        doc_renderable(a),
        doc_renderable(b),
    ensures
        doc_renderable(a + b),
{
    assert forall|i: int| 0 <= i < (a + b).len() implies item_renderable(#[trigger] (a + b)[i]) by {
        if i < a.len() {
            assert((a + b)[i] == a[i]);
        } else {
            assert((a + b)[i] == b[i - a.len()]);
        }
    }
}

proof fn lemma_raw_pieces_shift(pre: Seq<char>, rest: Seq<char>, i: int)
    requires
        0 <= i <= rest.len(),
    ensures
        spec_raw_pieces(pre + rest, '\n', pre.len() + i) == spec_raw_pieces(rest, '\n', i),
    decreases rest.len() - i,
{
    let s = pre + rest;
    lemma_next_sep_shift(pre, rest, '\n', i);
    lemma_next_sep(rest, '\n', i);
    let j = next_sep(rest, '\n', i);
    assert(s.subrange(pre.len() + i, pre.len() + j) =~= rest.subrange(i, j));
    if j < rest.len() {
        lemma_raw_pieces_shift(pre, rest, j + 1);
        assert(spec_raw_pieces(s, '\n', pre.len() + i) =~= spec_raw_pieces(rest, '\n', i));
    } else {
        assert(pre.len() + j == s.len());
        assert(spec_raw_pieces(s, '\n', pre.len() + i) =~= spec_raw_pieces(rest, '\n', i));
    }
}

proof fn lemma_raw_pieces_prepend(line: Seq<char>, rest: Seq<char>)
    requires
        no_char(line, '\n'),
    ensures
        spec_raw_pieces(line + seq!['\n'] + rest, '\n', 0) == seq![line] + spec_raw_pieces(
            rest,
            '\n',
            0,
        ),
{
    let s = line + seq!['\n'] + rest;
    assert(forall|k: int| 0 <= k < line.len() ==> s[k] == line[k]);
    assert(s[line.len() as int] == '\n');
    lemma_next_sep_is(s, '\n', 0, line.len() as int);
    assert(s.subrange(0, line.len() as int) =~= line);
    assert((line + seq!['\n']) + rest =~= s);
    lemma_raw_pieces_shift(line + seq!['\n'], rest, 0);
    assert(spec_raw_pieces(s, '\n', 0) =~= seq![line] + spec_raw_pieces(rest, '\n', 0));
}

proof fn lemma_parse_items_shift(l: Seq<char>, ls: Seq<Seq<char>>, j: int)
    requires
        0 <= j <= ls.len(),
    ensures
        spec_parse_items(seq![l] + ls, j + 1) == spec_parse_items(ls, j),
    decreases ls.len() - j,
{
    let lines = seq![l] + ls;
    if j < ls.len() {
        lemma_parse_items_shift(l, ls, j + 1);
        assert(lines[j + 1] == ls[j]);
    }
}

/// The plain text of one item, without its closing newline.
pub open spec fn spec_item_line(it: IniItemV) -> Seq<char> {
    match it {
        IniItemV::Section(n) => seq!['['] + n + seq![']'],
        IniItemV::Entry(k, v) => k + seq!['='] + v,
    }
}

proof fn lemma_classify_line(it: IniItemV)
    requires
        item_renderable(it),
    ensures
        spec_classify_line(spec_trim(spec_item_line(it))) == (match it {
            IniItemV::Section(n) => SpecLine::Sec(n),
            IniItemV::Entry(k, v) => SpecLine::Ent(k, v),
        }),
{
    let line = spec_item_line(it);
    match it {
        IniItemV::Section(n) => {
            assert(line[0] == '[');
            assert(line[line.len() - 1] == ']');
            lemma_trim_stable(line);
            assert(line.subrange(1, line.len() - 1) =~= n);
        },
        IniItemV::Entry(k, v) => {
            assert(line[k.len() as int] == '=');
            assert(forall|x: int| 0 <= x < k.len() ==> line[x] == k[x]);
            assert(forall|x: int| 0 <= x < v.len() ==> line[k.len() + 1 + x] == v[x]);
            if k.len() > 0 {
                lemma_trim_stable_ends(k);
            }
            if v.len() > 0 {
                lemma_trim_stable_ends(v);
            }
            assert(!is_space(line[0]));
            assert(!is_space(line[line.len() - 1]));
            lemma_trim_stable(line);
            lemma_next_sep_is(line, '=', 0, k.len() as int);
            assert(line.subrange(0, k.len() as int) =~= k);
            assert(line.subrange(k.len() as int + 1, line.len() as int) =~= v);
            assert(line[0] != '#' && line[0] != ';' && line[0] != '[');
        },
    }
}

proof fn lemma_parse_render_from(items: Seq<IniItemV>, i: int)
    requires
        0 <= i <= items.len(),
        doc_renderable(items),
    ensures
        spec_parse_items(spec_raw_pieces(spec_render_items(items, i), '\n', 0), 0) == Some(
            items.subrange(i, items.len() as int),
        ),
    decreases items.len() - i,
{
    if i >= items.len() {
        let empty = Seq::<char>::empty();
        let txt = spec_render_items(items, i);
        assert(txt =~= empty);
        let pieces = spec_raw_pieces(txt, '\n', 0);
        lemma_next_sep(txt, '\n', 0);
        assert(pieces =~= seq![txt.subrange(0, 0)]);
        assert(txt.subrange(0, 0) =~= empty);
        assert(spec_trim(empty) == empty);
        assert(spec_parse_items(pieces, 1) == Some(Seq::<IniItemV>::empty()));
        assert(spec_parse_items(pieces, 0) == Some(Seq::<IniItemV>::empty()));
        assert(items.subrange(i, items.len() as int) =~= Seq::<IniItemV>::empty());
    } else {
        let it = items[i];
        let line = spec_item_line(it);
        let rest_text = spec_render_items(items, i + 1);
        assert(spec_render_items(items, i) =~= line + seq!['\n'] + rest_text) by {
            assert(spec_render_item(it) =~= line + seq!['\n']);
        }
        assert(no_char(line, '\n')) by {
            match it {
                IniItemV::Section(n) => {
                    assert(forall|x: int| 0 <= x < n.len() ==> line[x + 1] == n[x]);
                },
                IniItemV::Entry(k, v) => {
                    assert(forall|x: int| 0 <= x < k.len() ==> line[x] == k[x]);
                    assert(forall|x: int| 0 <= x < v.len() ==> line[k.len() + 1 + x] == v[x]);
                },
            }
        }
        lemma_raw_pieces_prepend(line, rest_text);
        let rest_pieces = spec_raw_pieces(rest_text, '\n', 0);
        lemma_parse_render_from(items, i + 1);
        lemma_parse_items_shift(line, rest_pieces, 0);
        let pieces = seq![line] + rest_pieces;
        assert(pieces[0] == line);
        lemma_classify_line(it);
        assert(spec_parse_items(pieces, 0) == Some(
            seq![it] + items.subrange(i + 1, items.len() as int),
        ));
        assert(seq![it] + items.subrange(i + 1, items.len() as int) =~= items.subrange(
            i,
            items.len() as int,
        ));
        assert(spec_parse_items(spec_raw_pieces(spec_render_items(items, i), '\n', 0), 0) == Some(
            items.subrange(i, items.len() as int),
        ));
    }
}

/// Writing a document out and reading it back yields the document
/// unchanged, for every document whose section names, keys and values
/// hold no newline, are their own trim, whose keys hold no `=` and open
/// no comment or section header.
pub proof fn lemma_render_parse_round_trip(items: Seq<IniItemV>)
    requires
        doc_renderable(items),
    ensures
        spec_parse_ini(spec_render_items(items, 0)) == Some(items),
{
    lemma_parse_render_from(items, 0);
    assert(items.subrange(0, items.len() as int) =~= items);
}


} // verus!

//! BlueZ key files: `[group]` headers followed by `key=value` lines.
use vstd::prelude::*;
use crate::strmap::{StrMap, sorted_keys, strictly_sorted, lemma_sorted_unique};
use crate::order::text_lt;
use crate::text::{
    chars_of, string_of, append_chars, split_chars, split, texts, trim, trim_chars, lines,
    lines_chars, first_index, find_char, take_chars, skip_chars, lemma_first_index, same_chars,
    is_white, lemma_lines_cons, lemma_trim_fixed, lemma_first_index_concat,
};

verus! {

/// What a key file holds: for each group, its keys and their values.
pub type IniView = Map<Seq<char>, Map<Seq<char>, Seq<char>>>;

/// The texts held by a map of strings.
pub open spec fn text_values(m: Map<Seq<char>, String>) -> Map<Seq<char>, Seq<char>> {
    m.map_values(|s: String| s@)
}

/// The value of `key` in `group`, if there is one.
pub open spec fn lookup(m: IniView, group: Seq<char>, key: Seq<char>) -> Option<Seq<char>> {
    if m.contains_key(group) && m[group].contains_key(key) {
        Some(m[group][key])
    } else {
        None
    }
}

/// The keys of `group`, empty when the group is absent.
pub open spec fn group_of(m: IniView, group: Seq<char>) -> Map<Seq<char>, Seq<char>> {
    if m.contains_key(group) {
        m[group]
    } else {
        Map::empty()
    }
}

/// `m` with `key` of `group` set to `value`, the group created if absent.
pub open spec fn with_entry(m: IniView, group: Seq<char>, key: Seq<char>, value: Seq<char>) -> IniView {
    m.insert(group, group_of(m, group).insert(key, value))
}

/// The non-empty texts of `ps`, in order.
pub open spec fn nonempty(ps: Seq<Seq<char>>) -> Seq<Seq<char>>
    decreases ps.len(),
{
    if ps.len() == 0 {
        Seq::empty()
    } else if ps.last().len() == 0 {
        nonempty(ps.drop_last())
    } else {
        nonempty(ps.drop_last()).push(ps.last())
    }
}

/// `ps` joined by `sep` (`[&str]::join`).
pub open spec fn join(ps: Seq<Seq<char>>, sep: char) -> Seq<char>
    decreases ps.len(),
{
    if ps.len() == 0 {
        Seq::empty()
    } else if ps.len() == 1 {
        ps[0]
    } else {
        join(ps.drop_last(), sep).push(sep) + ps.last()
    }
}

/// The entries of a `;`-terminated list such as `LE;BR/EDR;`.
pub open spec fn list_items(s: Seq<char>) -> Seq<Seq<char>> {
    nonempty(split(s, ';'))
}

/// A list written back in `;`-terminated form.
pub open spec fn list_text(items: Seq<Seq<char>>) -> Seq<char> {
    join(items, ';').push(';')
}

/// The text of `key` in `group`, empty when absent.
pub open spec fn text_or_empty(m: IniView, group: Seq<char>, key: Seq<char>) -> Seq<char> {
    match lookup(m, group, key) {
        Some(v) => v,
        None => Seq::empty(),
    }
}

/// The transports of a device after `technology` is added to them.
pub open spec fn technologies_with(m: IniView, technology: Seq<char>) -> Seq<Seq<char>> {
    let items = list_items(text_or_empty(m, "General"@, "SupportedTechnologies"@));
    if items.contains(technology) {
        items
    } else {
        items.push(technology)
    }
}

/// `technology` added to `[General] SupportedTechnologies`.
pub open spec fn with_technology(m: IniView, technology: Seq<char>) -> IniView {
    with_entry(m, "General"@, "SupportedTechnologies"@, list_text(technologies_with(m, technology)))
}

/// `[General] Trusted=true` unless `Trusted` is already set.
pub open spec fn with_trust(m: IniView) -> IniView {
    if lookup(m, "General"@, "Trusted"@) is Some {
        m
    } else {
        with_entry(m, "General"@, "Trusted"@, "true"@)
    }
}

/// The lines `key=value` of a group, keys in the order of `ks`.
pub open spec fn encode_pairs(kv: Map<Seq<char>, Seq<char>>, ks: Seq<Seq<char>>) -> Seq<char>
    decreases ks.len(),
{
    if ks.len() == 0 {
        Seq::empty()
    } else {
        encode_pairs(kv, ks.drop_last()) + ks.last() + seq!['='] + kv[ks.last()] + seq!['\n']
    }
}

/// One group: its header, its keys in ascending order, and an empty line.
pub open spec fn encode_group(g: Seq<char>, kv: Map<Seq<char>, Seq<char>>) -> Seq<char> {
    seq!['['] + g + seq![']', '\n'] + encode_pairs(kv, sorted_keys(kv)) + seq!['\n']
}

/// The groups named by `gs`, in that order.
pub open spec fn encode_groups(m: IniView, gs: Seq<Seq<char>>) -> Seq<char>
    decreases gs.len(),
{
    if gs.len() == 0 {
        Seq::empty()
    } else {
        encode_groups(m, gs.drop_last()) + encode_group(gs.last(), m[gs.last()])
    }
}

/// The text of a key file: its groups in ascending order.
pub open spec fn encode_ini(m: IniView) -> Seq<char> {
    encode_groups(m, sorted_keys(m))
}

/// What one line does to the groups read so far and the current group.
pub open spec fn parse_step(m: IniView, group: Seq<char>, line: Seq<char>) -> (IniView, Seq<char>) {
    let t = trim(line);
    if t.len() > 0 && t[0] == '[' && t.last() == ']' {
        let g = t.subrange(1, t.len() - 1);
        (m.insert(g, group_of(m, g)), g)
    } else {
        match first_index(t, '=') {
            Some(i) => if group.len() > 0 {
                (with_entry(m, group, trim(t.take(i)), trim(t.skip(i + 1))), group)
            } else {
                (m, group)
            },
            None => (m, group),
        }
    }
}

/// The groups and current group after reading `ls` in order.
pub open spec fn parse_fold(ls: Seq<Seq<char>>) -> (IniView, Seq<char>)
    decreases ls.len(),
{
    if ls.len() == 0 {
        (IniView::empty(), Seq::empty())
    } else {
        let (m, g) = parse_fold(ls.drop_last());
        parse_step(m, g, ls.last())
    }
}

/// What reading a key file's text gives.
pub open spec fn parse_ini(s: Seq<char>) -> IniView {
    parse_fold(lines(s)).0
}

/// The non-empty pieces, copied in order.
pub(crate) fn nonempty_chars(ps: &Vec<Vec<char>>) -> (r: Vec<Vec<char>>)
    ensures
        texts(r@) == nonempty(texts(ps@)),
{
    let mut r: Vec<Vec<char>> = Vec::new();
    for i in 0..ps.len()
        invariant
            texts(r@) == nonempty(texts(ps@).take(i as int)),
    {
        assert(texts(ps@).take(i + 1).drop_last() =~= texts(ps@).take(i as int));
        assert(texts(ps@).take(i + 1).last() == ps@[i as int]@);
        if ps[i].len() > 0 {
            let piece = take_chars(&ps[i], ps[i].len());
            assert(piece@ =~= ps@[i as int]@);
            r.push(piece);
            assert(texts(r@) =~= nonempty(texts(ps@).take(i as int)).push(ps@[i as int]@));
        }
    }
    assert(texts(ps@).take(ps.len() as int) =~= texts(ps@));
    r
}

/// Whether `t` is one of `items`.
fn contains_text(items: &Vec<Vec<char>>, t: &Vec<char>) -> (r: bool)
    ensures
        r == texts(items@).contains(t@),
{
    for i in 0..items.len()
        invariant
            forall|j: int| 0 <= j < i ==> items@[j]@ != t@,
    {
        if same_chars(&items[i], t) {
            assert(texts(items@)[i as int] == t@);
            return true;
        }
    }
    false
}

/// `items` joined by `;`, with a `;` after the last one.
pub(crate) fn list_text_chars(items: &Vec<Vec<char>>) -> (r: Vec<char>)
    ensures
        r@ == list_text(texts(items@)),
{
    let mut r: Vec<char> = Vec::new();
    for i in 0..items.len()
        invariant
            r@ == join(texts(items@).take(i as int), ';'),
    {
        let ghost before = r@;
        assert(texts(items@).take(i + 1).drop_last() =~= texts(items@).take(i as int));
        assert(texts(items@).take(i + 1).last() == items@[i as int]@);
        if i > 0 {
            r.push(';');
        }
        append_chars(&mut r, &items[i]);
        if i == 0 {
            assert(r@ =~= items@[0]@);
            assert(join(texts(items@).take(1), ';') == texts(items@).take(1)[0]);
        }
    }
    assert(texts(items@).take(items.len() as int) =~= texts(items@));
    r.push(';');
    r
}

/// Whether two groups hold the same keys and values.
fn same_group(x: &StrMap<String>, y: &StrMap<String>) -> (r: bool)
    requires
        x.wf(),
        y.wf(),
    ensures
        r == (text_values(x@) == text_values(y@)),
{
    proof {
        x.lemma_key_seq();
        y.lemma_key_seq();
    }
    let ghost a = x.key_seq();
    let ghost b = y.key_seq();
    let n = x.len();
    if n != y.len() {
        assert(text_values(x@).dom().len() != text_values(y@).dom().len()) by {
            assert(text_values(x@).dom() =~= x@.dom());
            assert(text_values(y@).dom() =~= y@.dom());
        }
        return false;
    }
    for i in 0..n
        invariant
            n == a.len(),
            n == b.len(),
            a == x.key_seq(),
            b == y.key_seq(),
            x.laid_out(),
            y.laid_out(),
            a == sorted_keys(x@),
            b == sorted_keys(y@),
            forall|j: int| 0 <= j < i ==> #[trigger] a[j] == b[j],
            forall|j: int| 0 <= j < i ==> x@[#[trigger] a[j]]@ == y@[b[j]]@,
    {
        if !x.key_at(i).eq(y.key_at(i)) {
            proof {
                if text_values(x@) == text_values(y@) {
                    assert(text_values(x@).dom() =~= x@.dom());
                    assert(text_values(y@).dom() =~= y@.dom());
                    assert(a.to_set() =~= x@.dom());
                    assert(b.to_set() =~= y@.dom());
                    lemma_sorted_unique(a, b);
                }
            }
            return false;
        }
        proof {
            assert(x@.contains_key(a[i as int]));
            assert(y@.contains_key(b[i as int]));
        }
        if !x.value_at(i).eq(y.value_at(i)) {
            assert(text_values(x@)[a[i as int]] != text_values(y@)[a[i as int]]);
            return false;
        }
    }
    proof {
        assert forall|g: Seq<char>| #[trigger] x@.contains_key(g) <==> y@.contains_key(g) by {
            if x@.contains_key(g) {
                let j = a.index_of(g);
                assert(b[j] == g);
            }
            if y@.contains_key(g) {
                let j = b.index_of(g);
                assert(a[j] == g);
            }
        }
        assert forall|g: Seq<char>| #[trigger] x@.contains_key(g) implies x@[g]@ == y@[g]@ by {
            let j = a.index_of(g);
            assert(b[j] == g);
        }
        assert(text_values(x@) =~= text_values(y@));
    }
    true
}

/// The contents of a BlueZ key file, ordered by group and key.
pub struct Ini {
    sections: StrMap<StrMap<String>>,
}

impl View for Ini {
    type V = IniView;

    closed spec fn view(&self) -> IniView {
        self.sections@.map_values(|m: StrMap<String>| text_values(m@))
    }
}

impl Ini {
    /// Every group's map, and the map of groups, keep their keys in order.
    pub closed spec fn wf(&self) -> bool {
        &&& self.sections.wf()
        &&& forall|g: Seq<char>| #[trigger] self.sections@.contains_key(g) ==> self.sections@[g].wf()
    }

    /// An empty key file.
    pub fn new() -> (r: Ini)
        ensures
            r.wf(),
            r@ == IniView::empty(),
    {
        let r = Ini { sections: StrMap::new() };
        assert(r@ =~= IniView::empty());
        r
    }

    /// The value of `key` in `group`.
    pub fn get(&self, group: &str, key: &str) -> (r: Option<&str>)
        requires
            self.wf(),
        ensures
            r is Some <==> lookup(self@, group@, key@) is Some,
            r matches Some(s) ==> s@ == lookup(self@, group@, key@).unwrap(),
    {
        match self.sections.get(group) {
            Some(inner) => match inner.get(key) {
                Some(v) => Some(v.as_str()),
                None => None,
            },
            None => None,
        }
    }

    /// Sets `key` of `group` to `value`, creating the group if needed.
    pub fn set(&mut self, group: &str, key: &str, value: &str)
        requires
            old(self).wf(),
        ensures
            final(self).wf(),
            final(self)@ == with_entry(old(self)@, group@, key@, value@),
    {
        let ghost old_view = self@;
        let ghost old_sections = self.sections@;
        let mut inner = match self.sections.take(group) {
            Some(m) => m,
            None => StrMap::new(),
        };
        proof {
            assert(text_values(inner@) == group_of(old_view, group@));
        }
        inner.insert(key.to_owned(), value.to_owned());
        assert(text_values(inner@) =~= group_of(old_view, group@).insert(key@, value@));
        self.sections.insert(group.to_owned(), inner);
        assert(self.sections@ == old_sections.remove(group@).insert(group@, inner));
        assert(self@ =~= with_entry(old_view, group@, key@, value@));
    }

    /// Adds `technology` to `[General] SupportedTechnologies`, keeping the
    /// transports already listed and their order.
    pub fn add_technology(&mut self, technology: &str)
        requires
            old(self).wf(),
        ensures
            final(self).wf(),
            final(self)@ == with_technology(old(self)@, technology@),
    {
        let current: Vec<char> = match self.get("General", "SupportedTechnologies") {
            Some(old) => chars_of(old),
            None => Vec::new(),
        };
        let pieces = split_chars(&current, ';');
        let mut items = nonempty_chars(&pieces);
        let t = chars_of(technology);
        if !contains_text(&items, &t) {
            items.push(t);
            assert(texts(items@) =~= list_items(current@).push(technology@));
        }
        let text = string_of(&list_text_chars(&items));
        self.set("General", "SupportedTechnologies", text.as_str());
    }

    /// Marks the device trusted unless `[General] Trusted` is already set.
    pub fn trust_if_new(&mut self)
        requires
            old(self).wf(),
        ensures
            final(self).wf(),
            final(self)@ == with_trust(old(self)@),
    {
        if self.get("General", "Trusted").is_none() {
            self.set("General", "Trusted", "true");
        }
    }

    /// The text of the key file: each group as `[group]`, its `key=value`
    /// lines in ascending key order, then an empty line; groups ascending.
    pub fn encode(&self) -> (r: String)
        requires
            self.wf(),
        ensures
            r@ == encode_ini(self@),
    {
        proof {
            self.sections.lemma_key_seq();
            assert(self@.dom() =~= self.sections@.dom());
        }
        let ghost gs = self.sections.key_seq();
        let mut out: Vec<char> = Vec::new();
        let n = self.sections.len();
        for gi in 0..n
            invariant
                n == gs.len(),
                self.wf(),
                gs == self.sections.key_seq(),
                gs == sorted_keys(self@),
                self.sections.laid_out(),
                out@ == encode_groups(self@, gs.take(gi as int)),
        {
            let g = self.sections.key_at(gi);
            let inner = self.sections.value_at(gi);
            proof {
                assert(self.sections@.contains_key(gs[gi as int]));
                assert(inner.wf());
                inner.lemma_key_seq();
                assert(text_values(inner@).dom() =~= inner@.dom());
                assert(self@[gs[gi as int]] == text_values(inner@));
            }
            let ghost kv = text_values(inner@);
            let ghost ks = inner.key_seq();
            let ghost base = out@;
            out.push('[');
            append_chars(&mut out, &chars_of(g.as_str()));
            out.push(']');
            out.push('\n');
            let ghost head = out@;
            let m = inner.len();
            for ki in 0..m
                invariant
                    m == ks.len(),
                    inner.laid_out(),
                    ks == inner.key_seq(),
                    kv == text_values(inner@),
                    out@ == head + encode_pairs(kv, ks.take(ki as int)),
            {
                let k = inner.key_at(ki);
                let v = inner.value_at(ki);
                assert(ks.take(ki + 1).drop_last() =~= ks.take(ki as int));
                assert(inner@.contains_key(ks[ki as int]));
                append_chars(&mut out, &chars_of(k.as_str()));
                out.push('=');
                append_chars(&mut out, &chars_of(v.as_str()));
                out.push('\n');
                assert(out@ =~= head + encode_pairs(kv, ks.take(ki + 1)));
            }
            out.push('\n');
            proof {
                assert(ks.take(ks.len() as int) =~= ks);
                assert(gs.take(gi + 1).drop_last() =~= gs.take(gi as int));
                assert(out@ =~= base + encode_group(gs[gi as int], self@[gs[gi as int]]));
            }
        }
        assert(gs.take(gs.len() as int) =~= gs);
        string_of(&out)
    }

    /// Reads the text of a key file: `[group]` lines open a group, `key=value`
    /// lines inside a group set a key (both sides trimmed), other lines are
    /// ignored.
    pub fn parse(input: &str) -> (r: Ini)
        ensures
            r.wf(),
            r@ == parse_ini(input@),
    {
        let all = lines_chars(&chars_of(input));
        let mut ini = Ini::new();
        let mut group: Vec<char> = Vec::new();
        for i in 0..all.len()
            invariant
                ini.wf(),
                texts(all@) == lines(input@),
                (ini@, group@) == parse_fold(texts(all@).take(i as int)),
        {
            assert(texts(all@).take(i + 1).drop_last() =~= texts(all@).take(i as int));
            assert(texts(all@).take(i + 1).last() == all@[i as int]@);
            let t = trim_chars(&all[i]);
            let n = t.len();
            if n > 0 && t[0] == '[' && t[n - 1] == ']' {
                let mut g: Vec<char> = Vec::new();
                for j in 1..n - 1
                    invariant
                        n == t.len(),
                        n >= 1,
                        g@ == t@.subrange(1, j as int),
                {
                    g.push(t[j]);
                    assert(t@.subrange(1, j + 1) =~= t@.subrange(1, j as int).push(t@[j as int]));
                }
                let name = string_of(&g);
                ini.touch(name.as_str());
                group = g;
            } else {
                match find_char(&t, '=') {
                    Some(k) => {
                        proof {
                            lemma_first_index(t@, '=');
                        }
                        if group.len() > 0 {
                            let key = string_of(&trim_chars(&take_chars(&t, k)));
                            let value = string_of(&trim_chars(&skip_chars(&t, k + 1)));
                            let gname = string_of(&group);
                            ini.set(gname.as_str(), key.as_str(), value.as_str());
                        }
                    },
                    None => {},
                }
            }
        }
        assert(texts(all@).take(all.len() as int) =~= texts(all@));
        ini
    }

    /// Whether two key files hold the same groups, keys and values,
    /// whatever order they were written in.
    pub fn same(&self, other: &Ini) -> (r: bool)
        requires
            self.wf(),
            other.wf(),
        ensures
            r == (self@ == other@),
    {
        proof {
            self.sections.lemma_key_seq();
            other.sections.lemma_key_seq();
        }
        let ghost a = self.sections.key_seq();
        let ghost b = other.sections.key_seq();
        let n = self.sections.len();
        if n != other.sections.len() {
            assert(self@.dom().len() != other@.dom().len()) by {
                assert(self@.dom() =~= self.sections@.dom());
                assert(other@.dom() =~= other.sections@.dom());
            }
            return false;
        }
        for i in 0..n
            invariant
                n == a.len(),
                n == b.len(),
                a == self.sections.key_seq(),
                b == other.sections.key_seq(),
                self.wf(),
                other.wf(),
                self.sections.laid_out(),
                other.sections.laid_out(),
                a == sorted_keys(self.sections@),
                b == sorted_keys(other.sections@),
                forall|j: int| 0 <= j < i ==> #[trigger] a[j] == b[j],
                forall|j: int| 0 <= j < i ==> self@[#[trigger] a[j]] == other@[b[j]],
        {
            if !self.sections.key_at(i).eq(other.sections.key_at(i)) {
                proof {
                    if self@ == other@ {
                        assert(self@.dom() =~= self.sections@.dom());
                        assert(other@.dom() =~= other.sections@.dom());
                        assert(a.to_set() =~= self.sections@.dom());
                        assert(b.to_set() =~= other.sections@.dom());
                        lemma_sorted_unique(a, b);
                    }
                }
                return false;
            }
            let x = self.sections.value_at(i);
            let y = other.sections.value_at(i);
            proof {
                assert(self.sections@.contains_key(a[i as int]));
                assert(other.sections@.contains_key(b[i as int]));
            }
            if !same_group(x, y) {
                assert(self@[a[i as int]] != other@[a[i as int]]);
                return false;
            }
        }
        proof {
            assert forall|g: Seq<char>| #[trigger] self@.contains_key(g) <==> other@.contains_key(g) by {
                if self.sections@.contains_key(g) {
                    let j = a.index_of(g);
                    assert(b[j] == g);
                }
                if other.sections@.contains_key(g) {
                    let j = b.index_of(g);
                    assert(a[j] == g);
                }
            }
            assert forall|g: Seq<char>| #[trigger] self@.contains_key(g) implies self@[g] == other@[g] by {
                let j = a.index_of(g);
                assert(b[j] == g);
            }
            assert(self@ =~= other@);
        }
        true
    }

    /// Adds `group` without keys if it is absent.
    pub fn touch(&mut self, group: &str)
        requires
            old(self).wf(),
        ensures
            final(self).wf(),
            final(self)@ == old(self)@.insert(group@, group_of(old(self)@, group@)),
    {
        let ghost old_view = self@;
        let ghost old_sections = self.sections@;
        let inner = match self.sections.take(group) {
            Some(m) => m,
            None => StrMap::new(),
        };
        assert(text_values(inner@) =~= group_of(old_view, group@));
        self.sections.insert(group.to_owned(), inner);
        assert(self.sections@ == old_sections.remove(group@).insert(group@, inner));
        assert(self@ =~= old_view.insert(group@, group_of(old_view, group@)));
    }
}

// ------------------------------------------------------------ round trip

/// Text whose ends are not white space (or empty text).
pub open spec fn trimmed(s: Seq<char>) -> bool {
    s.len() == 0 || (!is_white(s[0]) && !is_white(s.last()))
}

/// A key and value that a `key=value` line gives back as they are: no line
/// feed, no white space at their ends, no `=` in the key, and not shaped
/// like a `[group]` header together.
pub open spec fn entry_encodable(k: Seq<char>, v: Seq<char>) -> bool {
    &&& !k.contains('\n')
    &&& !v.contains('\n')
    &&& trimmed(k)
    &&& trimmed(v)
    &&& !k.contains('=')
    &&& !(k.len() > 0 && k[0] == '[' && v.len() > 0 && v.last() == ']')
}

/// Groups and keys that the text of a key file gives back as they are:
/// group names without line feeds, keys only in named groups, and
/// encodable entries.
pub open spec fn encodable(m: IniView) -> bool {
    &&& forall|g: Seq<char>| #[trigger] m.contains_key(g) ==> !g.contains('\n') && (g.len() == 0 ==> m[g].dom().len() == 0)
    &&& forall|g: Seq<char>, k: Seq<char>| m.contains_key(g) && #[trigger] m[g].contains_key(k) ==> entry_encodable(k, m[g][k])
}

spec fn entry_line(k: Seq<char>, v: Seq<char>) -> Seq<char> {
    k + seq!['='] + v
}

spec fn header(g: Seq<char>) -> Seq<char> {
    seq!['['] + g + seq![']']
}

spec fn pair_lines(kv: Map<Seq<char>, Seq<char>>, ks: Seq<Seq<char>>) -> Seq<Seq<char>>
    decreases ks.len(),
{
    if ks.len() == 0 {
        Seq::empty()
    } else {
        pair_lines(kv, ks.drop_last()).push(entry_line(ks.last(), kv[ks.last()]))
    }
}

spec fn group_lines(g: Seq<char>, kv: Map<Seq<char>, Seq<char>>) -> Seq<Seq<char>> {
    (seq![header(g)] + pair_lines(kv, sorted_keys(kv))).push(Seq::empty())
}

spec fn all_lines(m: IniView, gs: Seq<Seq<char>>) -> Seq<Seq<char>>
    decreases gs.len(),
{
    if gs.len() == 0 {
        Seq::empty()
    } else {
        all_lines(m, gs.drop_last()) + group_lines(gs.last(), m[gs.last()])
    }
}

spec fn keys_encodable(kv: Map<Seq<char>, Seq<char>>, ks: Seq<Seq<char>>) -> bool {
    forall|j: int| 0 <= j < ks.len() ==> entry_encodable(#[trigger] ks[j], kv[ks[j]])
}

spec fn restrict<T>(m: Map<Seq<char>, T>, ks: Seq<Seq<char>>) -> Map<Seq<char>, T> {
    Map::new(|k: Seq<char>| ks.contains(k), |k: Seq<char>| m[k])
}

proof fn lemma_entry_line_safe(k: Seq<char>, v: Seq<char>)
    requires
        entry_encodable(k, v),
    ensures
        !entry_line(k, v).contains('\n'),
        !(entry_line(k, v).last() == '\r'),
        entry_line(k, v).len() > 0,
{
    let l = entry_line(k, v);
    if l.contains('\n') {
        let j = choose|j: int| 0 <= j < l.len() && l[j] == '\n';
        if j < k.len() {
            assert(k[j] == '\n');
        } else if j > k.len() {
            assert(v[j - k.len() - 1] == '\n');
        }
    }
    if v.len() > 0 {
        assert(l.last() == v.last());
    }
}

proof fn lemma_pairs_lines(kv: Map<Seq<char>, Seq<char>>, ks: Seq<Seq<char>>, tail: Seq<char>)
    requires
        keys_encodable(kv, ks),
    ensures
        lines(encode_pairs(kv, ks) + tail) == pair_lines(kv, ks) + lines(tail),
    decreases ks.len(),
{
    if ks.len() == 0 {
        assert(encode_pairs(kv, ks) + tail =~= tail);
        assert(pair_lines(kv, ks) + lines(tail) =~= lines(tail));
    } else {
        let k = ks.last();
        let v = kv[k];
        let ks0 = ks.drop_last();
        assert(entry_encodable(ks[ks.len() - 1], kv[ks[ks.len() - 1]]));
        assert forall|j: int| 0 <= j < ks0.len() implies entry_encodable(#[trigger] ks0[j], kv[ks0[j]]) by {
            assert(ks0[j] == ks[j]);
        }
        let rest = entry_line(k, v) + seq!['\n'] + tail;
        lemma_pairs_lines(kv, ks0, rest);
        assert(encode_pairs(kv, ks) + tail =~= encode_pairs(kv, ks0) + rest);
        lemma_entry_line_safe(k, v);
        lemma_lines_cons(entry_line(k, v), tail);
        assert(pair_lines(kv, ks0) + (seq![entry_line(k, v)] + lines(tail)) =~= pair_lines(kv, ks) + lines(tail));
    }
}

proof fn lemma_group_lines(g: Seq<char>, kv: Map<Seq<char>, Seq<char>>, tail: Seq<char>)
    requires
        !g.contains('\n'),
        keys_encodable(kv, sorted_keys(kv)),
    ensures
        lines(encode_group(g, kv) + tail) == group_lines(g, kv) + lines(tail),
{
    let ks = sorted_keys(kv);
    let h = header(g);
    assert(!h.contains('\n')) by {
        if h.contains('\n') {
            let j = choose|j: int| 0 <= j < h.len() && h[j] == '\n';
            assert(g[j - 1] == '\n');
        }
    }
    let e = Seq::<char>::empty();
    assert(encode_group(g, kv) + tail =~= h + seq!['\n'] + (encode_pairs(kv, ks) + (e + seq!['\n'] + tail)));
    lemma_lines_cons(h, encode_pairs(kv, ks) + (e + seq!['\n'] + tail));
    lemma_pairs_lines(kv, ks, e + seq!['\n'] + tail);
    lemma_lines_cons(e, tail);
    assert(group_lines(g, kv) + lines(tail) =~= seq![h] + (pair_lines(kv, ks) + (seq![e] + lines(tail))));
}

proof fn lemma_groups_lines(m: IniView, gs: Seq<Seq<char>>, tail: Seq<char>)
    requires
        forall|i: int| 0 <= i < gs.len() ==> !(#[trigger] gs[i]).contains('\n') && keys_encodable(m[gs[i]], sorted_keys(m[gs[i]])),
    ensures
        lines(encode_groups(m, gs) + tail) == all_lines(m, gs) + lines(tail),
    decreases gs.len(),
{
    if gs.len() == 0 {
        assert(encode_groups(m, gs) + tail =~= tail);
        assert(all_lines(m, gs) + lines(tail) =~= lines(tail));
    } else {
        let g = gs.last();
        let g0 = gs.drop_last();
        assert(!gs[gs.len() - 1].contains('\n'));
        assert forall|i: int| 0 <= i < g0.len() implies !(#[trigger] g0[i]).contains('\n') && keys_encodable(m[g0[i]], sorted_keys(m[g0[i]])) by {
            assert(g0[i] == gs[i]);
        }
        lemma_groups_lines(m, g0, encode_group(g, m[g]) + tail);
        assert(encode_groups(m, gs) + tail =~= encode_groups(m, g0) + (encode_group(g, m[g]) + tail));
        lemma_group_lines(g, m[g], tail);
        assert(all_lines(m, g0) + (group_lines(g, m[g]) + lines(tail)) =~= all_lines(m, gs) + lines(tail));
    }
}

/// Reading a header line opens its group, empty when new.
proof fn lemma_step_header(m: IniView, cur: Seq<char>, g: Seq<char>)
    ensures
        parse_step(m, cur, header(g)) == (m.insert(g, group_of(m, g)), g),
{
    let h = header(g);
    assert(h[0] == '[');
    assert(h.last() == ']');
    lemma_trim_fixed(h);
    assert(h.subrange(1, h.len() - 1) =~= g);
}

/// Reading an entry line of an open, named group sets that entry.
proof fn lemma_step_entry(m: IniView, g: Seq<char>, k: Seq<char>, v: Seq<char>)
    requires
        g.len() > 0,
        entry_encodable(k, v),
    ensures
        parse_step(m, g, entry_line(k, v)) == (with_entry(m, g, k, v), g),
{
    let l = entry_line(k, v);
    if k.len() > 0 {
        assert(l[0] == k[0]);
    } else {
        assert(l[0] == '=');
    }
    if v.len() > 0 {
        assert(l.last() == v.last());
    } else {
        assert(l.last() == '=');
    }
    lemma_trim_fixed(l);
    assert(!(l[0] == '[' && l.last() == ']'));
    assert forall|j: int| 0 <= j < k.len() implies k[j] != '=' by {
        if k[j] == '=' {
            assert(k.contains('='));
        }
    }
    lemma_first_index_concat(k, seq!['='] + v, '=');
    assert(l =~= k + (seq!['='] + v));
    assert(first_index(seq!['='] + v, '=') == Some(0int));
    assert(l.take(k.len() as int) =~= k);
    assert(l.skip(k.len() as int + 1) =~= v);
    lemma_trim_fixed(k);
    lemma_trim_fixed(v);
}

/// An empty line changes nothing.
proof fn lemma_step_blank(m: IniView, cur: Seq<char>)
    ensures
        parse_step(m, cur, Seq::empty()) == (m, cur),
{
    let e = Seq::<char>::empty();
    assert(trim(e) =~= e) by {
        lemma_trim_fixed(e);
    }
}

/// The entries of a group read after its header set those entries.
proof fn lemma_fold_pairs(y0: Seq<Seq<char>>, m0: IniView, g: Seq<char>, kv: Map<Seq<char>, Seq<char>>, ks: Seq<Seq<char>>, j: int)
    requires
        0 <= j <= ks.len(),
        parse_fold(y0) == (m0.insert(g, Map::<Seq<char>, Seq<char>>::empty()), g),
        keys_encodable(kv, ks),
        g.len() == 0 ==> ks.len() == 0,
    ensures
        parse_fold(y0 + pair_lines(kv, ks.take(j))) == (m0.insert(g, restrict(kv, ks.take(j))), g),
    decreases j,
{
    if j == 0 {
        assert(ks.take(0) =~= Seq::<Seq<char>>::empty());
        assert(y0 + pair_lines(kv, ks.take(0)) =~= y0);
        assert(restrict(kv, ks.take(0)) =~= Map::<Seq<char>, Seq<char>>::empty());
    } else {
        lemma_fold_pairs(y0, m0, g, kv, ks, j - 1);
        let k = ks[j - 1];
        let v = kv[k];
        let before = y0 + pair_lines(kv, ks.take(j - 1));
        assert(ks.take(j).drop_last() =~= ks.take(j - 1));
        assert(ks.take(j).last() == k);
        assert(y0 + pair_lines(kv, ks.take(j)) =~= before.push(entry_line(k, v)));
        assert(before.push(entry_line(k, v)).drop_last() =~= before);
        assert(entry_encodable(ks[j - 1], kv[ks[j - 1]]));
        lemma_step_entry(m0.insert(g, restrict(kv, ks.take(j - 1))), g, k, v);
        assert(restrict(kv, ks.take(j - 1)).insert(k, v) =~= restrict(kv, ks.take(j)));
        assert(m0.insert(g, restrict(kv, ks.take(j - 1))).insert(g, restrict(kv, ks.take(j)))
            =~= m0.insert(g, restrict(kv, ks.take(j))));
    }
}

/// The lines of one group read after `z` add the group as it was.
proof fn lemma_fold_group(z: Seq<Seq<char>>, g: Seq<char>, kv: Map<Seq<char>, Seq<char>>)
    requires
        !parse_fold(z).0.contains_key(g),
        sorted_keys(kv).to_set() == kv.dom(),
        keys_encodable(kv, sorted_keys(kv)),
        g.len() == 0 ==> sorted_keys(kv).len() == 0,
    ensures
        parse_fold(z + group_lines(g, kv)).0 == parse_fold(z).0.insert(g, kv),
{
    let ks = sorted_keys(kv);
    let m0 = parse_fold(z).0;
    let y0 = z.push(header(g));
    assert(y0.drop_last() =~= z);
    lemma_step_header(m0, parse_fold(z).1, g);
    assert(group_of(m0, g) =~= Map::<Seq<char>, Seq<char>>::empty());
    lemma_fold_pairs(y0, m0, g, kv, ks, ks.len() as int);
    assert(ks.take(ks.len() as int) =~= ks);
    let w = y0 + pair_lines(kv, ks);
    assert(z + group_lines(g, kv) =~= w.push(Seq::empty()));
    assert(w.push(Seq::<char>::empty()).drop_last() =~= w);
    lemma_step_blank(m0.insert(g, restrict(kv, ks)), g);
    assert(restrict(kv, ks) =~= kv);
}

/// What a group needs to be read back as written.
spec fn group_ok(m: IniView, g: Seq<char>) -> bool {
    let kv = m[g];
    &&& !g.contains('\n')
    &&& sorted_keys(kv).to_set() == kv.dom()
    &&& keys_encodable(kv, sorted_keys(kv))
    &&& (g.len() == 0 ==> sorted_keys(kv).len() == 0)
}

/// The first `i` groups read back as written.
proof fn lemma_fold_groups(m: IniView, gs: Seq<Seq<char>>, i: int)
    requires
        0 <= i <= gs.len(),
        strictly_sorted(gs),
        forall|i2: int| 0 <= i2 < gs.len() ==> group_ok(m, #[trigger] gs[i2]),
    ensures
        parse_fold(all_lines(m, gs.take(i))).0 == restrict(m, gs.take(i)),
    decreases i,
{
    if i == 0 {
        assert(gs.take(0) =~= Seq::<Seq<char>>::empty());
        assert(restrict(m, gs.take(0)) =~= IniView::empty());
    } else {
        lemma_fold_groups(m, gs, i - 1);
        let g = gs[i - 1];
        assert(group_ok(m, g));
        assert(gs.take(i).drop_last() =~= gs.take(i - 1));
        assert(gs.take(i).last() == g);
        let t = gs.take(i - 1);
        assert(!t.contains(g)) by {
            if t.contains(g) {
                let j = choose|j: int| 0 <= j < t.len() && t[j] == g;
                crate::order::lemma_lt_irreflexive(g);
                assert(text_lt(gs[j], gs[i - 1]));
            }
        }
        lemma_fold_group(all_lines(m, gs.take(i - 1)), g, m[g]);
        assert(restrict(m, gs.take(i - 1)).insert(g, m[g]) =~= restrict(m, gs.take(i)));
    }
}

impl Ini {
    /// Reading back the text written by `encode` gives the same groups,
    /// keys and values, whenever they can be written as key-file lines
    /// (see `encodable`).
    pub proof fn law_encode_parse(&self)
        requires
            self.wf(),
            encodable(self@),
        ensures
            parse_ini(encode_ini(self@)) == self@,
    {
        let m = self@;
        self.sections.lemma_key_seq();
        assert(m.dom() =~= self.sections@.dom());
        let gs = sorted_keys(m);
        assert(gs == self.sections.key_seq());
        assert forall|i: int| 0 <= i < gs.len() implies group_ok(m, #[trigger] gs[i]) by {
            let g = gs[i];
            assert(self.sections@.contains_key(g));
            let inner = self.sections@[g];
            inner.lemma_key_seq();
            assert(m[g] == text_values(inner@));
            assert(text_values(inner@).dom() =~= inner@.dom());
            let kv = m[g];
            let ks = sorted_keys(kv);
            assert(ks == inner.key_seq());
            assert(ks.to_set() =~= kv.dom());
            assert forall|j: int| 0 <= j < ks.len() implies entry_encodable(#[trigger] ks[j], kv[ks[j]]) by {
                assert(kv.contains_key(ks[j]));
            }
            if g.len() == 0 && ks.len() > 0 {
                assert(kv.contains_key(ks[0]));
                assert(kv.dom().contains(ks[0]));
            }
        }
        assert forall|i: int| 0 <= i < gs.len() implies !(#[trigger] gs[i]).contains('\n') && keys_encodable(m[gs[i]], sorted_keys(m[gs[i]])) by {
            assert(group_ok(m, gs[i]));
        }
        lemma_groups_lines(m, gs, Seq::empty());
        assert(encode_ini(m) + Seq::<char>::empty() =~= encode_ini(m));
        assert(lines(Seq::<char>::empty()) == Seq::<Seq<char>>::empty());
        assert(all_lines(m, gs) + Seq::<Seq<char>>::empty() =~= all_lines(m, gs));
        lemma_fold_groups(m, gs, gs.len() as int);
        assert(gs.take(gs.len() as int) =~= gs);
        assert(gs.to_set() =~= m.dom());
        assert(restrict(m, gs) =~= m);
    }
}

/// What becomes of a key file when `ini` is to be written to it.
pub enum WritePlan {
    /// The file reads as `ini` already: nothing is written.
    Unchanged,
    /// A dry run: the file would change, but nothing is written.
    Preview,
    /// The file is replaced by this text.
    Write(String),
}

/// Whether the text of an existing file reads as `m`.
pub open spec fn reads_as(existing: Option<&str>, m: IniView) -> bool {
    existing matches Some(t) && parse_ini(t@) == m
}

/// Decides the write of `ini` to a key file whose text is `existing` (`None`
/// when there is no file). A file that reads as `ini` (whatever the order of
/// its groups and keys) is left alone; otherwise a dry run writes nothing,
/// and a real run writes `ini`'s text.
pub fn write_plan(existing: Option<&str>, ini: &Ini, dry_run: bool) -> (r: WritePlan)
    requires
        ini.wf(),
    ensures
        reads_as(existing, ini@) ==> r is Unchanged,
        !reads_as(existing, ini@) && dry_run ==> r is Preview,
        !reads_as(existing, ini@) && !dry_run ==> (r matches WritePlan::Write(data) && data@ == encode_ini(ini@)),
{
    if let Some(t) = existing {
        let current = Ini::parse(t);
        if current.same(ini) {
            return WritePlan::Unchanged;
        }
    }
    if dry_run {
        WritePlan::Preview
    } else {
        WritePlan::Write(ini.encode())
    }
}

impl Default for Ini {
    /// An empty key file.
    fn default() -> (r: Ini)
        ensures
            r.wf(),
            r@ == IniView::empty(),
    {
        Ini::new()
    }
}

} // verus!

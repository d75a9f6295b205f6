//! The macro table: user shorthands handed to KaTeX, and the loader that reads
//! them from a definition source of `\name:body` lines.
use vstd::prelude::*;
use crate::split::split_on;
use crate::text::{chars_of, string_of};

verus! {

/// The map that a list of definitions gives, a later definition of a name
/// replacing an earlier one.
pub open spec fn entries_map(e: Seq<(Seq<char>, Seq<char>)>) -> Map<Seq<char>, Seq<char>>
    decreases e.len(),
{
    if e.len() == 0 {
        Map::empty()
    } else {
        entries_map(e.drop_last()).insert(e.last().0, e.last().1)
    }
}

/// Macro names mapped to their bodies; names are unique.
pub struct MacroTable {
    pub(crate) entries: Vec<(String, String)>,
}

pub open spec fn entry_view(p: (String, String)) -> (Seq<char>, Seq<char>) {
    (p.0@, p.1@)
}

proof fn lemma_entries_map_update(e: Seq<(Seq<char>, Seq<char>)>, i: int, v: Seq<char>)
    requires
        0 <= i < e.len(),
        forall|a: int, b: int| 0 <= a < b < e.len() ==> e[a].0 != e[b].0,
    ensures
        entries_map(e.update(i, (e[i].0, v))) == entries_map(e).insert(e[i].0, v),
    decreases e.len(),
{
    let u = e.update(i, (e[i].0, v));
    if i == e.len() - 1 {
        assert(u.drop_last() =~= e.drop_last());
        assert(entries_map(u) =~= entries_map(e).insert(e[i].0, v));
    } else {
        assert(u.drop_last() =~= e.drop_last().update(i, (e[i].0, v)));
        lemma_entries_map_update(e.drop_last(), i, v);
        assert(entries_map(u) =~= entries_map(e).insert(e[i].0, v));
    }
}

proof fn lemma_entries_map_lookup(e: Seq<(Seq<char>, Seq<char>)>, k: Seq<char>)
    requires
        forall|a: int, b: int| 0 <= a < b < e.len() ==> e[a].0 != e[b].0,
    ensures
        entries_map(e).contains_key(k) <==> exists|i: int| 0 <= i < e.len() && e[i].0 == k,
        forall|i: int| 0 <= i < e.len() && e[i].0 == k ==> entries_map(e)[k] == e[i].1,
    decreases e.len(),
{
    if e.len() > 0 {
        lemma_entries_map_lookup(e.drop_last(), k);
        assert forall|i: int| 0 <= i < e.len() - 1 && e[i].0 == k implies entries_map(
            e.drop_last(),
        ).contains_key(k) by {
            assert(e.drop_last()[i].0 == k);
        }
        if entries_map(e).contains_key(k) && e.last().0 != k {
            let j = choose|j: int| 0 <= j < e.len() - 1 && e.drop_last()[j].0 == k;
            assert(e[j].0 == k);
        }
        assert forall|i: int| 0 <= i < e.len() && e[i].0 == k implies entries_map(e)[k] == e[i].1 by {
            if i < e.len() - 1 {
                assert(e.drop_last()[i].0 == k);
            }
        }
    }
}

impl View for MacroTable {
    type V = Map<Seq<char>, Seq<char>>;

    closed spec fn view(&self) -> Map<Seq<char>, Seq<char>> {
        entries_map(self.entries@.map_values(|p: (String, String)| entry_view(p)))
    }
}

impl MacroTable {
    /// The names are unique.
    pub closed spec fn wf(&self) -> bool {
        forall|a: int, b: int|
            0 <= a < b < self.entries.len() ==> self.entries@[a].0@ != self.entries@[b].0@
    }

    /// The empty table.
    pub fn new() -> (r: MacroTable)
        ensures
            r.wf(),
            r@ == Map::<Seq<char>, Seq<char>>::empty(),
    {
        let r = MacroTable { entries: Vec::new() };
        assert(r.entries@.map_values(|p: (String, String)| entry_view(p)) =~= Seq::empty());
        r
    }

    /// Where `name` is defined, the index of its entry.
    fn position(&self, name: &String) -> (r: Option<usize>)
        ensures
            match r {
                Some(i) => i < self.entries.len() && self.entries@[i as int].0@ == name@,
                None => forall|i: int| 0 <= i < self.entries.len() ==> self.entries@[i].0@ != name@,
            },
    {
        let mut i: usize = 0;
        while i < self.entries.len()
            invariant
                i <= self.entries.len(),
                forall|j: int| 0 <= j < i ==> self.entries@[j].0@ != name@,
            decreases self.entries.len() - i,
        {
            if self.entries[i].0 == *name {
                return Some(i);
            }
            i = i + 1;
        }
        None
    }

    /// Defines `name` as `body`, replacing an earlier definition of it.
    pub fn insert(&mut self, name: String, body: String)
        requires
            old(self).wf(),
        ensures
            final(self).wf(),
            final(self)@ == old(self)@.insert(name@, body@),
    {
        let ghost ev = self.entries@.map_values(|p: (String, String)| entry_view(p));
        match self.position(&name) {
            Some(i) => {
                self.entries.set(i, (name, body));
                proof {
                    lemma_entries_map_update(ev, i as int, body@);
                    assert(self.entries@.map_values(|p: (String, String)| entry_view(p))
                        =~= ev.update(i as int, (ev[i as int].0, body@)));
                }
            },
            None => {
                self.entries.push((name, body));
                proof {
                    let nv = self.entries@.map_values(|p: (String, String)| entry_view(p));
                    assert(nv.drop_last() =~= ev);
                }
            },
        }
    }

    /// The body that `name` is defined as, if it is defined.
    pub fn get(&self, name: &str) -> (r: Option<&String>)
        requires
            self.wf(),
        ensures
            match r {
                Some(b) => self@.contains_key(name@) && self@[name@] == b@,
                None => !self@.contains_key(name@),
            },
    {
        let key = name.to_owned();
        let ghost ev = self.entries@.map_values(|p: (String, String)| entry_view(p));
        proof {
            lemma_entries_map_lookup(ev, name@);
        }
        match self.position(&key) {
            Some(i) => {
                assert(ev[i as int].0 == name@);
                Some(&self.entries[i].1)
            },
            None => {
                assert forall|i: int| 0 <= i < ev.len() implies ev[i].0 != name@ by {
                    assert(ev[i].0 == self.entries@[i].0@);
                }
                None
            },
        }
    }
}

/// `k` is the first colon of `line`.
pub open spec fn first_colon(line: Seq<char>, k: int) -> bool {
    0 <= k < line.len() && line[k] == ':' && forall|j: int| 0 <= j < k ==> line[j] != ':'
}

/// The definition on one line: where the line starts with a backslash and
/// holds a colon, the name is what comes before the first colon and the body
/// what comes after it. Any other line defines nothing.
pub open spec fn macro_line(line: Seq<char>) -> Option<(Seq<char>, Seq<char>)> {
    if line.len() > 0 && line[0] == '\\' && exists|k: int| first_colon(line, k) {
        let k = choose|k: int| first_colon(line, k);
        Some((line.take(k), line.skip(k + 1)))
    } else {
        None
    }
}

/// The table that a sequence of lines defines, in order.
pub open spec fn table_of_lines(lines: Seq<Seq<char>>) -> Map<Seq<char>, Seq<char>>
    decreases lines.len(),
{
    if lines.len() == 0 {
        Map::empty()
    } else {
        let m = table_of_lines(lines.drop_last());
        match macro_line(lines.last()) {
            Some(def) => m.insert(def.0, def.1),
            None => m,
        }
    }
}

/// The table that a definition source defines: its lines are separated by
/// newlines.
pub open spec fn table_of(source: Seq<char>) -> Map<Seq<char>, Seq<char>> {
    table_of_lines(split_on(source, seq!['\n']))
}

/// The definition on one line, if it holds one.
pub fn parse_macro_line(line: &str) -> (r: Option<(String, String)>)
    ensures
        match r {
            Some(def) => macro_line(line@) == Some((def.0@, def.1@)),
            None => macro_line(line@) is None,
        },
{
    let v = chars_of(line);
    if v.len() == 0 || v[0] != '\\' {
        return None;
    }
    let mut k: usize = 0;
    while k < v.len()
        invariant
            k <= v.len(),
            v@ == line@,
            v.len() > 0,
            v@[0] == '\\',
            forall|j: int| 0 <= j < k ==> v@[j] != ':',
        decreases v.len() - k,
    {
        if v[k] == ':' {
            let name = string_of(&v, 0, k);
            let body = string_of(&v, k + 1, v.len());
            proof {
                assert(first_colon(line@, k as int));
                let c = choose|c: int| first_colon(line@, c);
                assert(c == k) by {
                    if c < k {
                        assert(line@[c] != ':');
                    } else if c > k {
                        assert(line@[k as int] != ':');
                    }
                }
                assert(name@ =~= line@.take(k as int));
                assert(body@ =~= line@.skip(k + 1));
            }
            return Some((name, body));
        }
        k = k + 1;
    }
    None
}

} // verus!

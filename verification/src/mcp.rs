//! The registry of running MCP servers (keyed by id) and how a server's
//! command line is put together.
use vstd::prelude::*;
use crate::text::{chars_eq, chars_of, string_of, trim_end, trim_end_chars};
use vstd::utf8::encode_utf8;

verus! {

/// The ids of a list of entries are pairwise different.
pub open spec fn distinct_ids<P>(s: Seq<(String, P)>) -> bool {
    forall|i: int, j: int| 0 <= i < j < s.len() ==> s[i].0@ != s[j].0@
}

/// Some entry has id `k`.
pub open spec fn has_id<P>(s: Seq<(String, P)>, k: Seq<char>) -> bool {
    exists|i: int| 0 <= i < s.len() && (#[trigger] s[i]).0@ == k
}

/// The index of the entry with id `k`.
pub open spec fn index_of<P>(s: Seq<(String, P)>, k: Seq<char>) -> int {
    choose|i: int| 0 <= i < s.len() && (#[trigger] s[i]).0@ == k
}

/// The entries as a map from id to value.
pub open spec fn entries_map<P>(s: Seq<(String, P)>) -> Map<Seq<char>, P> {
    Map::new(|k: Seq<char>| has_id(s, k), |k: Seq<char>| s[index_of(s, k)].1)
}

/// Running servers (or anything else kept per id), at most one per id.
pub struct Registry<P> {
    entries: Vec<(String, P)>,
}

impl<P> View for Registry<P> {
    type V = Map<Seq<char>, P>;

    closed spec fn view(&self) -> Map<Seq<char>, P> {
        entries_map(self.entries@)
    }
}

proof fn lemma_index_unique<P>(s: Seq<(String, P)>, i: int)
    requires
        distinct_ids(s),
        0 <= i < s.len(),
    ensures
        index_of(s, s[i].0@) == i,
        has_id(s, s[i].0@),
        entries_map(s).dom().contains(s[i].0@),
        entries_map(s)[s[i].0@] == s[i].1,
{
    assert(has_id(s, s[i].0@)) by {
        assert(s[i].0@ == s[i].0@);
    }
    let j = index_of(s, s[i].0@);
    if j != i {
        if j < i {
            assert(s[j].0@ != s[i].0@);
        } else {
            assert(s[i].0@ != s[j].0@);
        }
    }
}

proof fn lemma_update_value<P>(s: Seq<(String, P)>, i: int, v: P)
    requires
        distinct_ids(s),
        0 <= i < s.len(),
    ensures
        distinct_ids(s.update(i, (s[i].0, v))),
        entries_map(s.update(i, (s[i].0, v))) == entries_map(s).insert(s[i].0@, v),
{
    let t = s.update(i, (s[i].0, v));
    let k = s[i].0@;
    assert forall|a: int, b: int| 0 <= a < b < t.len() implies t[a].0@ != t[b].0@ by {
        assert(t[a].0 == s[a].0 && t[b].0 == s[b].0);
    }
    lemma_index_unique(t, i);
    assert forall|x: Seq<char>| #[trigger] entries_map(t).dom().contains(x) == entries_map(s).dom().contains(x) by {
        if has_id(s, x) {
            let j = index_of(s, x);
            assert(t[j].0@ == x);
        }
        if has_id(t, x) {
            let j = index_of(t, x);
            assert(s[j].0@ == x);
        }
    }
    lemma_index_unique(s, i);
    assert forall|x: Seq<char>| #[trigger] entries_map(t).dom().contains(x) && x != k implies entries_map(t)[x] == entries_map(s)[x] by {
        let j = index_of(t, x);
        assert(j != i);
        lemma_index_unique(t, j);
        lemma_index_unique(s, j);
    }
    assert(entries_map(t) =~= entries_map(s).insert(k, v));
}

impl<P> Registry<P> {
    /// No two entries share an id.
    pub closed spec fn wf(&self) -> bool {
        distinct_ids(self.entries@)
    }

    /// An empty registry.
    pub fn new() -> (r: Registry<P>)
        ensures
            r.wf(),
            r@ == Map::<Seq<char>, P>::empty(),
    {
        let r = Registry { entries: Vec::new() };
        proof {
            assert(r@ =~= Map::<Seq<char>, P>::empty());
        }
        r
    }

    fn position(&self, id: &str) -> (r: Option<usize>)
        requires
            self.wf(),
        ensures
            match r {
                Some(i) => i < self.entries@.len() && self.entries@[i as int].0@ == id@,
                None => !has_id(self.entries@, id@),
            },
    {
        let k = chars_of(id);
        let mut i: usize = 0;
        while i < self.entries.len()
            invariant
                i <= self.entries@.len(),
                k@ == id@,
                forall|m: int| 0 <= m < i ==> (#[trigger] self.entries@[m]).0@ != id@,
            decreases self.entries@.len() - i,
        {
            let e = chars_of(self.entries[i].0.as_str());
            if chars_eq(&e, &k) {
                return Some(i);
            }
            i = i + 1;
        }
        None
    }

    /// Whether an entry with this id exists.
    pub fn contains_key(&self, id: &str) -> (r: bool)
        requires
            self.wf(),
        ensures
            r == self@.dom().contains(id@),
    {
        match self.position(id) {
            Some(i) => {
                proof {
                    lemma_index_unique(self.entries@, i as int);
                }
                true
            },
            None => false,
        }
    }

    /// Put `value` under `id`, replacing any earlier value for that id.
    pub fn insert(&mut self, id: String, value: P)
        requires
            old(self).wf(),
        ensures
            final(self).wf(),
            final(self)@ == old(self)@.insert(id@, value),
    {
        let ghost old_entries = self.entries@;
        let ghost k = id@;
        match self.position(id.as_str()) {
            Some(i) => {
                let ghost v = value;
                self.entries.set(i, (id, value));
                proof {
                    let s = self.entries@;
                    assert(s == old_entries.update(i as int, (s[i as int].0, v)));
                    assert forall|a: int, b: int| 0 <= a < b < s.len() implies s[a].0@ != s[b].0@ by {
                        if a != i && b != i {
                            assert(s[a] == old_entries[a] && s[b] == old_entries[b]);
                        } else if a == i {
                            assert(old_entries[i as int].0@ != old_entries[b].0@);
                        } else {
                            assert(old_entries[a].0@ != old_entries[i as int].0@);
                        }
                    }
                    lemma_index_unique(s, i as int);
                    assert forall|x: Seq<char>| #[trigger] entries_map(s).dom().contains(x) == old_entries_map_dom(old_entries, x, k) by {
                        if has_id(old_entries, x) {
                            let j = index_of(old_entries, x);
                            if j == i {
                                assert(s[i as int].0@ == x);
                            } else {
                                assert(s[j].0@ == x);
                            }
                        }
                        if has_id(s, x) {
                            let j = index_of(s, x);
                            if j != i {
                                assert(old_entries[j].0@ == x);
                            } else {
                                assert(old_entries[i as int].0@ == x);
                            }
                        }
                    }
                    assert forall|x: Seq<char>| #[trigger] entries_map(s).dom().contains(x) && x != k implies entries_map(s)[x] == entries_map(old_entries)[x] by {
                        let j = index_of(s, x);
                        assert(j != i);
                        lemma_index_unique(s, j);
                        lemma_index_unique(old_entries, j);
                        assert(s[j] == old_entries[j]);
                    }
                    assert(entries_map(s) =~= entries_map(old_entries).insert(k, v));
                }
            },
            None => {
                let ghost v = value;
                self.entries.push((id, value));
                proof {
                    let s = self.entries@;
                    let n = old_entries.len() as int;
                    assert(s == old_entries.push((s[n].0, v)));
                    assert forall|a: int, b: int| 0 <= a < b < s.len() implies s[a].0@ != s[b].0@ by {
                        if b == n {
                            assert(s[a] == old_entries[a]);
                            if s[a].0@ == k {
                                assert(has_id(old_entries, k));
                            }
                        } else {
                            assert(s[a] == old_entries[a] && s[b] == old_entries[b]);
                        }
                    }
                    lemma_index_unique(s, n);
                    assert forall|x: Seq<char>| #[trigger] entries_map(s).dom().contains(x) == old_entries_map_dom(old_entries, x, k) by {
                        if has_id(old_entries, x) {
                            let j = index_of(old_entries, x);
                            assert(s[j].0@ == x);
                        }
                        if has_id(s, x) {
                            let j = index_of(s, x);
                            if j < n {
                                assert(old_entries[j].0@ == x);
                            }
                        }
                    }
                    assert forall|x: Seq<char>| #[trigger] entries_map(s).dom().contains(x) && x != k implies entries_map(s)[x] == entries_map(old_entries)[x] by {
                        let j = index_of(s, x);
                        assert(j != n);
                        lemma_index_unique(s, j);
                        lemma_index_unique(old_entries, j);
                        assert(s[j] == old_entries[j]);
                    }
                    assert(entries_map(s) =~= entries_map(old_entries).insert(k, v));
                }
            },
        }
    }

    /// Take the value under `id` out of the registry, if there is one.
    pub fn remove(&mut self, id: &str) -> (r: Option<P>)
        requires
            old(self).wf(),
        ensures
            final(self).wf(),
            final(self)@ == old(self)@.remove(id@),
            match r {
                Some(v) => old(self)@.dom().contains(id@) && old(self)@[id@] == v,
                None => !old(self)@.dom().contains(id@),
            },
    {
        let ghost old_entries = self.entries@;
        let ghost k = id@;
        match self.position(id) {
            Some(i) => {
                proof {
                    lemma_index_unique(old_entries, i as int);
                }
                let (_, v) = self.entries.remove(i);
                proof {
                    let s = self.entries@;
                    assert(s == old_entries.remove(i as int));
                    assert forall|a: int| 0 <= a < s.len() implies #[trigger] s[a] == old_entries[if a < i { a } else { a + 1 }] by {
                    }
                    assert forall|a: int, b: int| 0 <= a < b < s.len() implies s[a].0@ != s[b].0@ by {
                        let a2 = if a < i { a } else { a + 1 };
                        let b2 = if b < i { b } else { b + 1 };
                        assert(s[a] == old_entries[a2] && s[b] == old_entries[b2]);
                    }
                    assert forall|x: Seq<char>| #[trigger] entries_map(s).dom().contains(x) == (entries_map(old_entries).dom().contains(x) && x != k) by {
                        if has_id(old_entries, x) && x != k {
                            let j = index_of(old_entries, x);
                            assert(j != i);
                            let j2 = if j < i { j } else { j - 1 };
                            assert(s[j2] == old_entries[j]);
                            assert(s[j2].0@ == x);
                        }
                        if has_id(s, x) {
                            let j = index_of(s, x);
                            let j2 = if j < i { j } else { j + 1 };
                            assert(s[j] == old_entries[j2]);
                            assert(old_entries[j2].0@ == x);
                            if x == k {
                                assert(j2 != i);
                                if j2 < i {
                                    assert(old_entries[j2].0@ != old_entries[i as int].0@);
                                } else {
                                    assert(old_entries[i as int].0@ != old_entries[j2].0@);
                                }
                            }
                        }
                    }
                    assert forall|x: Seq<char>| #[trigger] entries_map(s).dom().contains(x) implies entries_map(s)[x] == entries_map(old_entries)[x] by {
                        let j = index_of(s, x);
                        lemma_index_unique(s, j);
                        let j2 = if j < i { j } else { j + 1 };
                        assert(s[j] == old_entries[j2]);
                        lemma_index_unique(old_entries, j2);
                    }
                    assert(entries_map(s) =~= entries_map(old_entries).remove(k));
                }
                Some(v)
            },
            None => {
                proof {
                    assert(entries_map(old_entries) =~= entries_map(old_entries).remove(k));
                }
                None
            },
        }
    }

    /// The ids of all entries.
    pub fn keys(&self) -> (r: Vec<String>)
        requires
            self.wf(),
        ensures
            forall|i: int, j: int| 0 <= i < j < r@.len() ==> r@[i]@ != r@[j]@,
            forall|k: Seq<char>| self@.dom().contains(k) <==> exists|i: int| 0 <= i < r@.len() && (#[trigger] r@[i])@ == k,
    {
        let mut r: Vec<String> = Vec::new();
        let mut i: usize = 0;
        while i < self.entries.len()
            invariant
                i <= self.entries@.len(),
                r@.len() == i,
                forall|m: int| 0 <= m < i ==> (#[trigger] r@[m])@ == self.entries@[m].0@,
            decreases self.entries@.len() - i,
        {
            r.push(self.entries[i].0.clone());
            i = i + 1;
        }
        proof {
            assert forall|k: Seq<char>| self@.dom().contains(k) <==> exists|i: int| 0 <= i < r@.len() && (#[trigger] r@[i])@ == k by {
                if self@.dom().contains(k) {
                    let j = index_of(self.entries@, k);
                    assert(r@[j]@ == k);
                }
                if exists|i: int| 0 <= i < r@.len() && (#[trigger] r@[i])@ == k {
                    let j = choose|i: int| 0 <= i < r@.len() && (#[trigger] r@[i])@ == k;
                    assert(self.entries@[j].0@ == k);
                }
            }
        }
        r
    }

    /// Mutable access to the value under `id`, if there is one.
    pub fn get_mut(&mut self, id: &str) -> (r: Option<&mut P>)
        requires
            old(self).wf(),
        ensures
            match r {
                Some(p) => old(self)@.dom().contains(id@) && *p == old(self)@[id@] && final(self).wf()
                    && final(self)@ == old(self)@.insert(id@, *final(p)),
                None => !old(self)@.dom().contains(id@) && final(self).wf() && final(self)@ == old(self)@,
            },
    {
        match self.position(id) {
            Some(i) => {
                proof {
                    lemma_index_unique(self.entries@, i as int);
                }
                let ghost old_entries = self.entries@;
                let r = &mut self.entries[i].1;
                proof {
                    lemma_update_value(old_entries, i as int, *final(r));
                }
                Some(r)
            },
            None => None,
        }
    }
}

/// Domain of the map after putting `k` in.
/// Whether a server has to be launched under `id`: not when one is already
/// running under that id, where starting is a no-op.
pub fn needs_start<P>(running: &Registry<P>, id: &str) -> (r: bool)
    requires
        running.wf(),
    ensures
        r == !running@.dom().contains(id@),
{
    !running.contains_key(id)
}

pub open spec fn old_entries_map_dom<P>(s: Seq<(String, P)>, x: Seq<char>, k: Seq<char>) -> bool {
    entries_map(s).dom().contains(x) || x == k
}

/// The program and arguments that start a server: on Windows through
/// `cmd /C` so that `.cmd` shims on the PATH resolve.
pub fn server_command(is_windows: bool, command: &str, args: &Vec<String>) -> (r: (String, Vec<String>))
    ensures
        is_windows ==> r.0@ == "cmd"@ && r.1@.len() == args@.len() + 2 && r.1@[0]@ == "/C"@ && r.1@[1]@
            == command@ && forall|k: int| 0 <= k < args@.len() ==> #[trigger] r.1@[k + 2] == args@[k],
        !is_windows ==> r.0@ == command@ && r.1@ == args@,
{
    let mut out: Vec<String> = Vec::new();
    if is_windows {
        out.push(string_of(chars_of("/C").as_slice()));
        out.push(string_of(chars_of(command).as_slice()));
    }
    let ghost start = out@;
    let mut k: usize = 0;
    while k < args.len()
        invariant
            k <= args@.len(),
            is_windows ==> start.len() == 2 && start[0]@ == "/C"@ && start[1]@ == command@,
            !is_windows ==> start.len() == 0,
            out@.len() == start.len() + k,
            forall|m: int| 0 <= m < start.len() ==> out@[m] == start[m],
            forall|m: int| 0 <= m < k ==> #[trigger] out@[start.len() + m] == args@[m],
        decreases args@.len() - k,
    {
        out.push(args[k].clone());
        k = k + 1;
    }
    if is_windows {
        proof {
            assert forall|k: int| 0 <= k < args@.len() implies #[trigger] out@[k + 2] == args@[k] by {
                assert(out@[start.len() + k] == args@[k]);
            }
        }
        (string_of(chars_of("cmd").as_slice()), out)
    } else {
        proof {
            assert forall|m: int| 0 <= m < args@.len() implies out@[m] == args@[m] by {
                assert(out@[start.len() + m] == args@[m]);
            }
            assert(out@ =~= args@);
        }
        (string_of(chars_of(command).as_slice()), out)
    }
}

/// A line read from a server, without its line ending or other trailing whitespace.
pub fn server_line(line: &str) -> (r: String)
    ensures
        r@ == trim_end(line@),
{
    let v = chars_of(line);
    let t = trim_end_chars(&v);
    string_of(t.as_slice())
}

/// The bytes written to a server for one message: the message and a newline.
pub fn message_frame(message: &str) -> (r: Vec<u8>)
    ensures
        r@ == encode_utf8(message@).push(10u8),
{
    let b = message.as_bytes();
    let mut out: Vec<u8> = Vec::new();
    let mut i: usize = 0;
    while i < b.len()
        invariant
            i <= b@.len(),
            out@ == b@.subrange(0, i as int),
        decreases b@.len() - i,
    {
        out.push(b[i]);
        proof {
            assert(b@.subrange(0, i + 1) =~= b@.subrange(0, i as int).push(b@[i as int]));
        }
        i = i + 1;
    }
    proof {
        assert(b@.subrange(0, b@.len() as int) =~= b@);
    }
    out.push(10u8);
    out
}

} // verus!

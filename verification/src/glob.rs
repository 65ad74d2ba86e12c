//! Case-insensitive file-name patterns with `*` wildcards, as the agent's
//! file search uses them, and the collection of search hits.
use vstd::prelude::*;
use crate::text::{
    chars_of, contains_char, contains_exec, contains_seq, ends_with, ends_with_exec, find_from,
    lowercased, occurs_at, starts_with, starts_with_exec, to_lowercase, join, join_strings,
    push_str, string_of, string_views,
};
use crate::sorting::{ascending, sort_strings};

verus! {

/// The views of a sequence of character vectors.
pub open spec fn seq_views(v: Seq<Vec<char>>) -> Seq<Seq<char>> {
    v.map_values(|x: Vec<char>| x@)
}

/// `s` split at every `c` (what `str::split` with a `char` gives; always at
/// least one part).
pub open spec fn split_char(s: Seq<char>, c: char) -> Seq<Seq<char>>
    decreases s.len(),
{
    if s.len() == 0 {
        seq![Seq::<char>::empty()]
    } else {
        let rest = split_char(s.drop_first(), c);
        if s[0] == c {
            seq![Seq::<char>::empty()] + rest
        } else {
            rest.update(0, seq![s[0]] + rest[0])
        }
    }
}

/// After a `*`: the fragments `ps` appear in `m` in order, each anywhere after
/// the previous one, the last one at the very end.
pub open spec fn tail_match(ps: Seq<Seq<char>>, m: Seq<char>) -> bool
    decreases ps.len(), m.len() + 2,
{
    if ps.len() <= 1 {
        ps.len() == 1 && ends_with(m, ps[0])
    } else {
        tail_match_from(ps, m, 0)
    }
}

/// `tail_match(ps, m)` with the first fragment placed at index `j` or later.
pub open spec fn tail_match_from(ps: Seq<Seq<char>>, m: Seq<char>, j: int) -> bool
    decreases ps.len(), m.len() + 1 - j,
{
    if ps.len() <= 1 || j < 0 || j > m.len() {
        false
    } else {
        (occurs_at(m, ps[0], j) && tail_match(ps.drop_first(), m.skip(j + ps[0].len())))
            || tail_match_from(ps, m, j + 1)
    }
}

/// `n` matches the pattern whose `*`-separated fragments are `ps`: `n` is
/// `ps[0] w1 ps[1] ... w(k-1) ps[k-1]` for some words `w1 .. w(k-1)`.
pub open spec fn wildcard_match(ps: Seq<Seq<char>>, n: Seq<char>) -> bool {
    if ps.len() <= 1 {
        ps.len() == 1 && n == ps[0]
    } else {
        starts_with(n, ps[0]) && tail_match(ps.drop_first(), n.skip(ps[0].len() as int))
    }
}

/// A file name is found by a search pattern: both are lowercased; a pattern
/// without `*` must occur somewhere in the name, one with `*` must match it
/// as a wildcard pattern.
pub open spec fn name_found(pattern: Seq<char>, name: Seq<char>) -> bool {
    lowered_match(lowercased(pattern), lowercased(name))
}

/// Whether a (lowercased) pattern finds a (lowercased) name: without `*` a
/// substring test, with `*` a wildcard match.
pub open spec fn lowered_match(p: Seq<char>, n: Seq<char>) -> bool {
    if p.contains('*') {
        wildcard_match(split_char(p, '*'), n)
    } else {
        contains_seq(n, p)
    }
}

proof fn lemma_split_len(s: Seq<char>, c: char)
    ensures
        split_char(s, c).len() >= 1,
        !s.contains(c) ==> split_char(s, c) == seq![s],
        s.contains(c) ==> split_char(s, c).len() >= 2,
    decreases s.len(),
{
    if s.len() > 0 {
        lemma_split_len(s.drop_first(), c);
        let rest = split_char(s.drop_first(), c);
        if s[0] != c {
            if !s.contains(c) {
                assert(!s.drop_first().contains(c)) by {
                    if s.drop_first().contains(c) {
                        let k = choose|k: int| 0 <= k < s.drop_first().len() && s.drop_first()[k] == c;
                        assert(s[k + 1] == c);
                    }
                }
                assert(seq![s[0]] + s.drop_first() =~= s);
                assert(rest.update(0, seq![s[0]] + rest[0]) =~= seq![s]);
            } else {
                assert(s.drop_first().contains(c)) by {
                    let k = choose|k: int| 0 <= k < s.len() && s[k] == c;
                    assert(k > 0);
                    assert(s.drop_first()[k - 1] == c);
                }
            }
        }
    } else {
        assert(s =~= Seq::<char>::empty());
        assert(split_char(s, c) =~= seq![s]);
    }
}

/// What remains to be split after some characters were consumed: `cur` is
/// prepended to the first part of `ps`.
spec fn merge_first(cur: Seq<char>, ps: Seq<Seq<char>>) -> Seq<Seq<char>> {
    ps.update(0, cur + ps[0])
}

/// `s` split at every `c`.
pub fn split_on_char(s: &Vec<char>, c: char) -> (r: Vec<Vec<char>>)
    ensures
        seq_views(r@) == split_char(s@, c),
{
    let mut done: Vec<Vec<char>> = Vec::new();
    let mut cur: Vec<char> = Vec::new();
    let mut i: usize = 0;
    proof {
        lemma_split_len(s@, c);
        assert(s@.skip(0) =~= s@);
        assert(merge_first(cur@, split_char(s@, c)) =~= split_char(s@, c));
        assert(seq_views(done@) + split_char(s@, c) =~= split_char(s@, c));
    }
    while i < s.len()
        invariant
            i <= s.len(),
            split_char(s@.skip(i as int), c).len() >= 1,
            split_char(s@, c) == seq_views(done@) + merge_first(cur@, split_char(s@.skip(i as int), c)),
        decreases s.len() - i,
    {
        let x = s[i];
        proof {
            let t = s@.skip(i as int);
            assert(t.drop_first() =~= s@.skip(i + 1));
            assert(t[0] == x);
            lemma_split_len(s@.skip(i + 1), c);
        }
        if x == c {
            let ghost old_cur = cur@;
            let ghost old_done = done@;
            done.push(cur);
            cur = Vec::new();
            proof {
                let rest = split_char(s@.skip(i + 1), c);
                assert(seq_views(done@) =~= seq_views(old_done).push(old_cur));
                assert(merge_first(cur@, rest) =~= rest);
                assert(merge_first(old_cur, seq![Seq::<char>::empty()] + rest) =~= seq![old_cur] + rest);
                assert(seq_views(old_done) + (seq![old_cur] + rest) =~= seq_views(done@) + merge_first(cur@, rest));
            }
        } else {
            let ghost old_cur = cur@;
            cur.push(x);
            proof {
                let rest = split_char(s@.skip(i + 1), c);
                assert(merge_first(old_cur, rest.update(0, seq![x] + rest[0])) =~~= merge_first(cur@, rest));
            }
        }
        i = i + 1;
    }
    let ghost old_done = done@;
    let ghost old_cur = cur@;
    done.push(cur);
    proof {
        assert(s@.skip(s.len() as int) =~= Seq::<char>::empty());
        assert(split_char(Seq::<char>::empty(), c) =~= seq![Seq::<char>::empty()]);
        assert(merge_first(old_cur, seq![Seq::<char>::empty()]) =~= seq![old_cur]);
        assert(seq_views(done@) =~= seq_views(old_done).push(old_cur));
    }
    done
}

/// `tail_match_from` holds exactly when some placement at or after `j` works.
proof fn lemma_tail_match_from(ps: Seq<Seq<char>>, m: Seq<char>, j: int)
    requires
        ps.len() >= 2,
        j >= 0,
    ensures
        tail_match_from(ps, m, j) == exists|k: int|
            j <= k && occurs_at(m, ps[0], k) && tail_match(ps.drop_first(), #[trigger] m.skip(k + ps[0].len())),
    decreases m.len() + 1 - j,
{
    if j > m.len() {
        assert forall|k: int| j <= k && occurs_at(m, ps[0], k) implies !tail_match(ps.drop_first(), #[trigger] m.skip(k + ps[0].len())) by {
        }
    } else {
        lemma_tail_match_from(ps, m, j + 1);
        if tail_match_from(ps, m, j) {
            if occurs_at(m, ps[0], j) && tail_match(ps.drop_first(), m.skip(j + ps[0].len())) {
                assert(j <= j && occurs_at(m, ps[0], j) && tail_match(ps.drop_first(), m.skip(j + ps[0].len())));
            }
        }
        if exists|k: int| j <= k && occurs_at(m, ps[0], k) && tail_match(ps.drop_first(), #[trigger] m.skip(k + ps[0].len())) {
            let k = choose|k: int| j <= k && occurs_at(m, ps[0], k) && tail_match(ps.drop_first(), #[trigger] m.skip(k + ps[0].len()));
            if k > j {
                assert(j + 1 <= k && occurs_at(m, ps[0], k) && tail_match(ps.drop_first(), m.skip(k + ps[0].len())));
            }
        }
    }
}

/// `tail_match` for two or more fragments: some placement of the first one works.
proof fn lemma_tail_match_exists(ps: Seq<Seq<char>>, m: Seq<char>)
    requires
        ps.len() >= 2,
    ensures
        tail_match(ps, m) == exists|k: int|
            0 <= k && occurs_at(m, ps[0], k) && tail_match(ps.drop_first(), #[trigger] m.skip(k + ps[0].len())),
{
    lemma_tail_match_from(ps, m, 0);
}

/// A suffix of a match stays a match when more text is put in front.
proof fn lemma_tail_match_extend(ps: Seq<Seq<char>>, t: Seq<char>, s: Seq<char>)
    requires
        ps.len() >= 1,
        tail_match(ps, s),
    ensures
        tail_match(ps, t + s),
{
    if ps.len() <= 1 {
        assert((t + s).subrange((t + s).len() - ps[0].len(), (t + s).len() as int) =~= s.subrange(s.len() - ps[0].len(), s.len() as int));
    } else {
        lemma_tail_match_exists(ps, s);
        lemma_tail_match_exists(ps, t + s);
        let j = choose|j: int| 0 <= j && occurs_at(s, ps[0], j) && tail_match(ps.drop_first(), #[trigger] s.skip(j + ps[0].len()));
        let j2 = j + t.len();
        assert((t + s).subrange(j2, j2 + ps[0].len()) =~= s.subrange(j, j + ps[0].len()));
        assert((t + s).skip(j2 + ps[0].len()) =~= s.skip(j + ps[0].len()));
        assert(0 <= j2 && occurs_at(t + s, ps[0], j2) && tail_match(ps.drop_first(), (t + s).skip(j2 + ps[0].len())));
    }
}

/// Taking the leftmost occurrence of the next fragment loses no match.
proof fn lemma_tail_match_leftmost(ps: Seq<Seq<char>>, m: Seq<char>, q: int)
    requires
        ps.len() >= 2,
        occurs_at(m, ps[0], q),
        forall|r: int| 0 <= r < q ==> !occurs_at(m, ps[0], r),
    ensures
        tail_match(ps, m) == tail_match(ps.drop_first(), m.skip(q + ps[0].len())),
{
    lemma_tail_match_exists(ps, m);
    if tail_match(ps, m) {
        let j = choose|j: int| 0 <= j && occurs_at(m, ps[0], j) && tail_match(ps.drop_first(), #[trigger] m.skip(j + ps[0].len()));
        assert(j >= q);
        let s = m.skip(j + ps[0].len());
        let t = m.subrange(q + ps[0].len(), j + ps[0].len());
        assert(t + s =~= m.skip(q + ps[0].len()));
        lemma_tail_match_extend(ps.drop_first(), t, s);
    }
    if tail_match(ps.drop_first(), m.skip(q + ps[0].len())) {
        assert(0 <= q && occurs_at(m, ps[0], q) && tail_match(ps.drop_first(), m.skip(q + ps[0].len())));
    }
}

/// Whether the fragments `parts` (at least two) match `n` as a wildcard pattern.
fn wildcard_match_exec(parts: &Vec<Vec<char>>, n: &Vec<char>) -> (r: bool)
    requires
        parts.len() >= 2,
    ensures
        r == wildcard_match(seq_views(parts@), n@),
{
    let ghost ps = seq_views(parts@);
    let k = parts.len();
    if !starts_with_exec(n, &parts[0]) {
        return false;
    }
    let mut idx: usize = parts[0].len();
    let mut i: usize = 1;
    proof {
        assert(ps.drop_first() =~= ps.subrange(1, k as int));
    }
    while i + 1 < k
        invariant
            1 <= i < k,
            k == parts.len(),
            ps == seq_views(parts@),
            idx <= n.len(),
            wildcard_match(ps, n@) == tail_match(ps.subrange(i as int, k as int), n@.skip(idx as int)),
        decreases k - i,
    {
        let ghost sub = ps.subrange(i as int, k as int);
        let ghost m = n@.skip(idx as int);
        proof {
            assert(sub[0] == parts@[i as int]@);
            assert(sub.drop_first() =~= ps.subrange(i + 1, k as int));
        }
        match find_from(n, &parts[i], idx) {
            None => {
                proof {
                    assert forall|j: int| !occurs_at(m, sub[0], j) by {
                        if occurs_at(m, sub[0], j) {
                            assert(n@.subrange(idx + j, idx + j + sub[0].len()) =~= m.subrange(j, j + sub[0].len()));
                            assert(occurs_at(n@, sub[0], idx + j));
                        }
                    }
                    lemma_tail_match_exists(sub, m);
                }
                return false;
            },
            Some(q) => {
                proof {
                    let p = sub[0];
                    let rq = q - idx;
                    assert(m.subrange(rq, rq + p.len()) =~= n@.subrange(q as int, q + p.len()));
                    assert forall|r: int| 0 <= r < rq implies !occurs_at(m, p, r) by {
                        if occurs_at(m, p, r) {
                            assert(n@.subrange(idx + r, idx + r + p.len()) =~= m.subrange(r, r + p.len()));
                            assert(occurs_at(n@, p, idx + r));
                        }
                    }
                    lemma_tail_match_leftmost(sub, m, rq);
                    assert(m.skip(rq + p.len()) =~= n@.skip(q + p.len()));
                }
                idx = q + parts[i].len();
            },
        }
        i = i + 1;
    }
    let last = &parts[k - 1];
    proof {
        let sub = ps.subrange(i as int, k as int);
        assert(i == k - 1);
        assert(sub.len() == 1);
        assert(sub[0] == last@);
        let m = n@.skip(idx as int);
        if last@.len() <= m.len() {
            assert(m.subrange(m.len() - last@.len(), m.len() as int) =~= n@.subrange(n@.len() - last@.len(), n@.len() as int));
        }
    }
    last.len() <= n.len() - idx && ends_with_exec(n, last)
}

/// A file-name search pattern, lowercased and split at its wildcards once.
pub struct NamePattern {
    pat: Vec<char>,
    parts: Vec<Vec<char>>,
    wild: bool,
}

impl NamePattern {
    /// The pattern text (lowercased) it was built from.
    pub closed spec fn lowered(&self) -> Seq<char> {
        self.pat@
    }

    /// Well-formed: the parts are the split of the lowered pattern.
    pub closed spec fn wf(&self) -> bool {
        &&& self.wild == self.pat@.contains('*')
        &&& seq_views(self.parts@) == split_char(self.pat@, '*')
    }

    /// Prepare `pattern` for matching.
    pub fn new(pattern: &str) -> (r: NamePattern)
        ensures
            r.wf(),
            r.lowered() == lowercased(pattern@),
    {
        let lower = to_lowercase(pattern);
        NamePattern::from_lowered(lower.as_str())
    }

    /// Prepare a pattern that is already lowercased.
    pub fn from_lowered(lowered: &str) -> (r: NamePattern)
        ensures
            r.wf(),
            r.lowered() == lowered@,
    {
        let pat = chars_of(lowered);
        let parts = split_on_char(&pat, '*');
        let wild = contains_char(&pat, '*');
        NamePattern { pat, parts, wild }
    }

    /// Whether a file name is found by this pattern (case-insensitive;
    /// without `*` a substring test, with `*` a wildcard match).
    pub fn matches(&self, name: &str) -> (r: bool)
        requires
            self.wf(),
        ensures
            r == lowered_match(self.lowered(), lowercased(name@)),
    {
        let lower = to_lowercase(name);
        self.matches_lowered(lower.as_str())
    }

    /// Whether a lowercased file name is found by this pattern.
    pub fn matches_lowered(&self, lowered_name: &str) -> (r: bool)
        requires
            self.wf(),
        ensures
            r == lowered_match(self.lowered(), lowered_name@),
    {
        let n = chars_of(lowered_name);
        if !self.wild {
            return contains_exec(&n, &self.pat);
        }
        proof {
            lemma_split_len(self.pat@, '*');
        }
        wildcard_match_exec(&self.parts, &n)
    }
}

/// Whether `name` is found by the search `pattern`.
pub fn name_matches(pattern: &str, name: &str) -> (r: bool)
    ensures
        r == name_found(pattern@, name@),
{
    let p = NamePattern::new(pattern);
    p.matches(name)
}

// ───────────────────────── search hits ─────────────────────────

/// The most hits a search collects.
pub open spec fn hit_limit() -> nat {
    200
}

/// A relative path with Windows separators turned into `/`.
pub open spec fn with_slashes(s: Seq<char>) -> Seq<char> {
    Seq::new(s.len(), |i: int| if s[i] == '\\' { '/' } else { s[i] })
}

/// The hits of a file search, in the order found.
pub struct SearchHits {
    hits: Vec<String>,
}

impl View for SearchHits {
    type V = Seq<Seq<char>>;

    closed spec fn view(&self) -> Seq<Seq<char>> {
        string_views(self.hits@)
    }
}

impl SearchHits {
    /// A search keeps at most `hit_limit()` hits.
    #[verifier::type_invariant]
    spec fn within_limit(&self) -> bool {
        self.hits@.len() <= hit_limit()
    }

    /// No hits yet.
    pub fn new() -> (r: SearchHits)
        ensures
            r@ == Seq::<Seq<char>>::empty(),
    {
        let r = SearchHits { hits: Vec::new() };
        proof {
            assert(r@ =~= Seq::<Seq<char>>::empty());
        }
        r
    }

    /// Whether the search has collected as many hits as it keeps.
    pub fn is_full(&self) -> (r: bool)
        ensures
            r == (self@.len() >= hit_limit()),
    {
        self.hits.len() >= 200
    }

    /// Record a hit by its path relative to the search root; once the search
    /// holds `hit_limit()` hits, further hits are not kept.
    pub fn add(&mut self, rel: &str)
        ensures
            old(self)@.len() < hit_limit() ==> final(self)@ == old(self)@.push(with_slashes(rel@)),
            old(self)@.len() >= hit_limit() ==> final(self)@ == old(self)@,
            final(self)@.len() <= hit_limit(),
    {
        proof {
            use_type_invariant(&*self);
        }
        if self.hits.len() >= 200 {
            return;
        }
        let v = chars_of(rel);
        let mut w: Vec<char> = Vec::new();
        let mut i: usize = 0;
        while i < v.len()
            invariant
                i <= v@.len(),
                w@ == with_slashes(v@).subrange(0, i as int),
            decreases v@.len() - i,
        {
            if v[i] == '\\' {
                w.push('/');
            } else {
                w.push(v[i]);
            }
            proof {
                assert(w@ =~= with_slashes(v@).subrange(0, i + 1));
            }
            i = i + 1;
        }
        proof {
            assert(with_slashes(v@).subrange(0, v@.len() as int) =~= with_slashes(v@));
        }
        let ghost before = self.hits@;
        let t = string_of(w.as_slice());
        let mut hits: Vec<String> = Vec::new();
        std::mem::swap(&mut hits, &mut self.hits);
        hits.push(t);
        self.hits = hits;
        proof {
            assert(string_views(self.hits@) =~= string_views(before).push(t@));
        }
    }

    /// The search's answer: the hits sorted, one per line, or a note that
    /// nothing matched `pattern`.
    pub fn report(self, pattern: &str) -> (r: String)
        ensures
            self@.len() == 0 ==> r@ == "(no files matching \""@ + pattern@ + "\")"@,
            self@.len() > 0 ==> exists|sorted: Seq<String>|
                ascending(sorted) && sorted.len() <= hit_limit() && string_views(sorted).to_multiset()
                    == self@.to_multiset() && r@ == join(
                    string_views(sorted),
                    "\n"@,
                ),
    {
        if self.hits.len() == 0 {
            let mut m = chars_of("(no files matching \"");
            push_str(&mut m, pattern);
            push_str(&mut m, "\")");
            return string_of(m.as_slice());
        }
        proof {
            use_type_invariant(&self);
        }
        let ghost hv = string_views(self.hits@);
        let sorted = sort_strings(self.hits);
        proof {
            string_views(sorted@).to_multiset_ensures();
            hv.to_multiset_ensures();
            assert(string_views(sorted@).len() == sorted@.len());
        }
        join_strings(&sorted, "\n")
    }
}

} // verus!

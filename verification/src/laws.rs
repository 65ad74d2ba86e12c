//! Properties of the library as a whole, stated over the same spec functions
//! and views that the operations' contracts use.
use vstd::prelude::*;
use crate::glob::{hit_limit, split_char, wildcard_match, with_slashes};
use crate::files::{drop_decision, image_mime_of, DropPlan};
use crate::http::{fetch_method_of, proxy_method_of, HttpMethod};
use crate::mcp::Registry;
use crate::mail::{flatten, lemma_message_text_of_tree, message_text, tree_text, PartTree};
use crate::runner::{arg_template, extension, interpreter, language_named, timeout_secs, Language};
use crate::shell::{first_word, needs_powershell, output_limit, ps_aliases, ps_operators};
use crate::sorting::{ascending, has_key, keys_descending, lemma_ascending_unique, same_rows_per_key, text_le};
use crate::text::{
    ascii_lower, ascii_lower_char, char_is_whitespace, contains_seq, ends_with, lowercased, starts_with, string_views, trim,
    trim_end, trim_start,
};
use vstd::utf8::is_ascii_chars;

verus! {

broadcast use vstd::seq_lib::group_seq_properties;

/// A command with a `$`, a backtick, a brace or a line break always runs
/// under PowerShell.
pub proof fn law_markers_need_powershell(cmd: Seq<char>)
    requires
        cmd.contains('$') || cmd.contains('`') || cmd.contains('{') || cmd.contains('}') || cmd.contains('\n'),
    ensures
        needs_powershell(cmd),
{
}

/// Every interpreter gets the staged script as its last argument (the
/// `{file}` placeholder, replaced by the script's path).
pub proof fn law_script_is_last_argument(l: Language)
    ensures
        arg_template(l).len() >= 1,
        arg_template(l).last() == "{file}"@,
{
}

proof fn lemma_split_no_star(x: Seq<char>)
    requires
        !x.contains('*'),
    ensures
        split_char(x, '*') == seq![x],
    decreases x.len(),
{
    if x.len() > 0 {
        assert(!x.drop_first().contains('*')) by {
            if x.drop_first().contains('*') {
                let k = choose|k: int| 0 <= k < x.drop_first().len() && x.drop_first()[k] == '*';
                assert(x[k + 1] == '*');
            }
        }
        lemma_split_no_star(x.drop_first());
        assert(x[0] != '*');
        assert(seq![x[0]] + x.drop_first() =~= x);
        assert(seq![x.drop_first()].update(0, seq![x[0]] + x.drop_first()) =~= seq![x]);
    } else {
        assert(x =~= Seq::<char>::empty());
    }
}

proof fn lemma_split_trailing_star(x: Seq<char>)
    requires
        !x.contains('*'),
    ensures
        split_char(x + seq!['*'], '*') == seq![x, Seq::<char>::empty()],
    decreases x.len(),
{
    let s = x + seq!['*'];
    if x.len() == 0 {
        assert(s =~= seq!['*']);
        assert(s.drop_first() =~= Seq::<char>::empty());
        assert(split_char(Seq::<char>::empty(), '*') =~= seq![Seq::<char>::empty()]);
        assert(x =~= Seq::<char>::empty());
        assert(seq![Seq::<char>::empty()] + seq![Seq::<char>::empty()] =~= seq![x, Seq::<char>::empty()]);
    } else {
        assert(!x.drop_first().contains('*')) by {
            if x.drop_first().contains('*') {
                let k = choose|k: int| 0 <= k < x.drop_first().len() && x.drop_first()[k] == '*';
                assert(x[k + 1] == '*');
            }
        }
        lemma_split_trailing_star(x.drop_first());
        assert(s.drop_first() =~= x.drop_first() + seq!['*']);
        assert(s[0] == x[0]);
        assert(x[0] != '*');
        assert(seq![x[0]] + x.drop_first() =~= x);
        assert(seq![x.drop_first(), Seq::<char>::empty()].update(0, seq![x[0]] + x.drop_first()) =~= seq![x, Seq::<char>::empty()]);
    }
}

/// A pattern `*x` (no other `*`) finds exactly the names that end with `x`,
/// as in `*.py`.
pub proof fn law_star_prefix_matches_suffix(x: Seq<char>, n: Seq<char>)
    requires
        !x.contains('*'),
    ensures
        wildcard_match(split_char(seq!['*'] + x, '*'), n) == ends_with(n, x),
{
    let p = seq!['*'] + x;
    assert(p.drop_first() =~= x);
    lemma_split_no_star(x);
    let parts = split_char(p, '*');
    assert(parts =~= seq![Seq::<char>::empty()] + seq![x]);
    assert(parts.drop_first() =~= seq![x]);
    assert(n.subrange(0, 0) =~= Seq::<char>::empty());
    assert(n.skip(0) =~= n);
}

/// A pattern `x*` (no other `*`) finds exactly the names that start with `x`,
/// as in `report*`.
pub proof fn law_star_suffix_matches_prefix(x: Seq<char>, n: Seq<char>)
    requires
        !x.contains('*'),
    ensures
        wildcard_match(split_char(x + seq!['*'], '*'), n) == starts_with(n, x),
{
    lemma_split_trailing_star(x);
    let parts = split_char(x + seq!['*'], '*');
    assert(parts.drop_first() =~= seq![Seq::<char>::empty()]);
    let m = n.skip(x.len() as int);
    assert(m.subrange(m.len() - 0, m.len() as int) =~= Seq::<char>::empty());
}

/// The pattern `*` finds every name.
pub proof fn law_lone_star_matches_all(n: Seq<char>)
    ensures
        wildcard_match(split_char(seq!['*'], '*'), n),
{
    law_star_prefix_matches_suffix(Seq::<char>::empty(), n);
    assert(seq!['*'] + Seq::<char>::empty() =~= seq!['*']);
    assert(n.subrange(n.len() - 0, n.len() as int) =~= Seq::<char>::empty());
}

/// Ordering rows newest first is deterministic: two orderings that are both
/// sorted by key (largest first) and keep the same rows per key in the same
/// order are the same sequence.
pub proof fn law_stable_order_unique(a: Seq<(u32, String)>, b: Seq<(u32, String)>)
    requires
        keys_descending(a),
        keys_descending(b),
        same_rows_per_key(a, b),
    ensures
        a == b,
    decreases a.len(),
{
    if a.len() == 0 && b.len() == 0 {
        assert(a =~= b);
        return;
    }
    if a.len() > 0 {
        lemma_head_key_bound(a, b, a[0].0);
    }
    if b.len() > 0 {
        lemma_head_key_bound(b, a, b[0].0);
    }
    // both are non-empty and start with the same key
    let k = a[0].0;
    assert(b[0].0 == k);
    let f = has_key(k);
    a.drop_first().lemma_filter_prepend(a[0], f);
    b.drop_first().lemma_filter_prepend(b[0], f);
    assert(seq![a[0]] + a.drop_first() =~= a);
    assert(seq![b[0]] + b.drop_first() =~= b);
    assert(a.filter(f) == seq![a[0]] + a.drop_first().filter(f));
    assert(b.filter(f) == seq![b[0]] + b.drop_first().filter(f));
    assert(a.filter(f) == b.filter(f));
    assert(a.filter(f)[0] == a[0]);
    assert(b.filter(f)[0] == b[0]);
    assert(a[0] == b[0]);
    let ta = a.drop_first();
    let tb = b.drop_first();
    assert forall|j: u32| #[trigger] ta.filter(has_key(j)) == tb.filter(has_key(j)) by {
        let g = has_key(j);
        ta.lemma_filter_prepend(a[0], g);
        tb.lemma_filter_prepend(b[0], g);
        assert(a.filter(g) == b.filter(g));
        if g(a[0]) {
            assert(a.filter(g) == seq![a[0]] + ta.filter(g));
            assert(b.filter(g) == seq![a[0]] + tb.filter(g));
            assert((seq![a[0]] + ta.filter(g)).drop_first() =~= ta.filter(g));
            assert((seq![a[0]] + tb.filter(g)).drop_first() =~= tb.filter(g));
        } else {
            assert(a.filter(g) == ta.filter(g));
            assert(b.filter(g) == tb.filter(g));
        }
    }
    law_stable_order_unique(ta, tb);
    assert(a =~= seq![a[0]] + ta);
    assert(b =~= seq![b[0]] + tb);
}

/// In a key-descending sequence `a` that keeps the rows of `b` per key, the
/// row of `a` with key `k` makes `b` non-empty with a first key of at least `k`.
proof fn lemma_head_key_bound(a: Seq<(u32, String)>, b: Seq<(u32, String)>, k: u32)
    requires
        a.len() > 0,
        a[0].0 == k,
        keys_descending(b),
        same_rows_per_key(a, b),
    ensures
        b.len() > 0,
        b[0].0 >= k,
{
    let f = has_key(k);
    a.drop_first().lemma_filter_prepend(a[0], f);
    assert(seq![a[0]] + a.drop_first() =~= a);
    assert(a.filter(f).len() > 0);
    assert(b.filter(f).len() > 0);
    assert(b.filter(f).contains(b.filter(f)[0]));
    b.lemma_filter_contains_rev(f, b.filter(f)[0]);
    let j = choose|j: int| 0 <= j < b.len() && b[j] == b.filter(f)[0];
    b.lemma_filter_pred(f, 0);
    assert(f(b.filter(f)[0]));
    assert(b[j].0 == k);
    if j > 0 {
        assert(b[0].0 >= b[j].0);
    }
}

/// Putting a server under a fresh id and then taking it out again leaves the
/// registry's contents as they were, and taking it out hands back the server
/// that was put in. `with` is the registry after `before.insert(k, v)` and
/// `after` the registry after `with.remove(k)`, as those methods state them.
pub proof fn law_registry_put_take_restores<P>(before: Registry<P>, with: Registry<P>, after: Registry<P>, k: Seq<char>, v: P)
    requires
        before.wf(),
        !before@.dom().contains(k),
        with@ == before@.insert(k, v),
        after@ == with@.remove(k),
    ensures
        after@ == before@,
        with@.dom().contains(k) && with@[k] == v,
{
    assert(after@ =~= before@);
}

/// A sorted listing is determined by what it lists: two lexicographically
/// ascending sequences of the same names (with their multiplicities) are the
/// same sequence. So the file search report and the directory listing, which
/// state their lines as some ascending arrangement of their names, have one
/// possible answer for given names.
pub proof fn law_sorted_listing_unique(a: Seq<String>, b: Seq<String>)
    requires
        ascending(a),
        ascending(b),
        string_views(a).to_multiset() == string_views(b).to_multiset(),
    ensures
        string_views(a) == string_views(b),
{
    let x = string_views(a);
    let y = string_views(b);
    assert forall|i: int, j: int| 0 <= i < j < x.len() implies text_le(#[trigger] x[i], #[trigger] x[j]) by {
        assert(text_le(a[i]@, a[j]@));
    }
    assert forall|i: int, j: int| 0 <= i < j < y.len() implies text_le(#[trigger] y[i], #[trigger] y[j]) by {
        assert(text_le(b[i]@, b[j]@));
    }
    lemma_ascending_unique(x, y);
}

/// ASCII uppercase of one character (other characters are unchanged).
pub open spec fn ascii_upper_char(c: char) -> char {
    if 'a' <= c && c <= 'z' {
        ((c as u32) - 32) as char
    } else {
        c
    }
}

/// ASCII uppercase of a sequence of characters.
pub open spec fn ascii_upper(s: Seq<char>) -> Seq<char> {
    Seq::new(s.len(), |i: int| ascii_upper_char(s[i]))
}

proof fn lemma_upper_char(c: char)
    ensures
        char_is_whitespace(ascii_upper_char(c)) == char_is_whitespace(c),
        ascii_lower_char(ascii_upper_char(c)) == ascii_lower_char(c),
        ('\0' <= c <= '\u{7f}') ==> ('\0' <= ascii_upper_char(c) <= '\u{7f}'),
{
}

proof fn lemma_trim_start_upper(s: Seq<char>)
    ensures
        trim_start(ascii_upper(s)) == ascii_upper(trim_start(s)),
    decreases s.len(),
{
    if s.len() > 0 {
        lemma_upper_char(s[0]);
        assert(ascii_upper(s).drop_first() =~= ascii_upper(s.drop_first()));
        lemma_trim_start_upper(s.drop_first());
    }
}

proof fn lemma_trim_end_upper(s: Seq<char>)
    ensures
        trim_end(ascii_upper(s)) == ascii_upper(trim_end(s)),
    decreases s.len(),
{
    if s.len() > 0 {
        lemma_upper_char(s.last());
        assert(ascii_upper(s).drop_last() =~= ascii_upper(s.drop_last()));
        lemma_trim_end_upper(s.drop_last());
    }
}

proof fn lemma_trim_start_ascii(s: Seq<char>)
    requires
        is_ascii_chars(s),
    ensures
        is_ascii_chars(trim_start(s)),
    decreases s.len(),
{
    if s.len() > 0 && char_is_whitespace(s[0]) {
        assert(is_ascii_chars(s.drop_first())) by {
            assert forall|i: int| 0 <= i < s.drop_first().len() implies '\0' <= #[trigger] s.drop_first()[i] <= '\u{7f}' by {
                assert(s.drop_first()[i] == s[i + 1]);
            }
        }
        lemma_trim_start_ascii(s.drop_first());
    }
}

proof fn lemma_trim_end_ascii(s: Seq<char>)
    requires
        is_ascii_chars(s),
    ensures
        is_ascii_chars(trim_end(s)),
    decreases s.len(),
{
    if s.len() > 0 && char_is_whitespace(s.last()) {
        assert(is_ascii_chars(s.drop_last())) by {
            assert forall|i: int| 0 <= i < s.drop_last().len() implies '\0' <= #[trigger] s.drop_last()[i] <= '\u{7f}' by {
                assert(s.drop_last()[i] == s[i]);
            }
        }
        lemma_trim_end_ascii(s.drop_last());
    }
}

/// Leading whitespace of `a + b` reaches into `b` only when `a` is all whitespace.
proof fn lemma_trim_start_concat(a: Seq<char>, b: Seq<char>)
    ensures
        trim_start(a + b) == (if trim_start(a).len() > 0 { trim_start(a) + b } else { trim_start(b) }),
    decreases a.len(),
{
    if a.len() > 0 {
        assert((a + b)[0] == a[0]);
        assert((a + b).drop_first() =~= a.drop_first() + b);
        lemma_trim_start_concat(a.drop_first(), b);
    } else {
        assert(a + b =~= b);
    }
}

proof fn lemma_trim_end_tab(c: Seq<char>)
    ensures
        trim_end(c + seq!['\t']) == trim_end(c),
{
    let w = c + seq!['\t'];
    assert(w.last() == '\t');
    assert(w.drop_last() =~= c);
}

/// Surrounding a text with a space before and a tab after does not change
/// its trimmed form.
proof fn lemma_trim_padded(u: Seq<char>)
    ensures
        trim(seq![' '] + u + seq!['\t']) == trim(u),
{
    let w = u + seq!['\t'];
    let p = seq![' '] + u + seq!['\t'];
    assert(p =~= seq![' '] + w);
    assert(p[0] == ' ');
    assert(p.drop_first() =~= w);
    assert(trim_start(p) == trim_start(w));
    lemma_trim_start_concat(u, seq!['\t']);
    if trim_start(u).len() > 0 {
        lemma_trim_end_tab(trim_start(u));
    } else {
        let t = seq!['\t'];
        assert(t[0] == '\t');
        assert(t.drop_first() =~= Seq::<char>::empty());
        assert(('\t' as u32) == 9);
        assert(char_is_whitespace(t[0]));
        assert(trim_start(t.drop_first()) =~= Seq::<char>::empty());
        assert(trim_start(t) =~= Seq::<char>::empty());
        assert(trim_start(u) =~= Seq::<char>::empty());
    }
}

/// A language name is looked up loosely: for an ASCII name, writing it in
/// capitals and padding it with blanks (a space before, a tab after) leaves
/// the key that `code_runner` and `language_of` look up unchanged, so both
/// give the same answer for the two spellings.
pub proof fn law_language_name_is_loose(l: Seq<char>)
    requires
        is_ascii_chars(l),
    ensures
        lowercased(trim(seq![' '] + ascii_upper(l) + seq!['\t'])) == lowercased(trim(l)),
{
    let u = ascii_upper(l);
    lemma_trim_padded(u);
    lemma_trim_start_upper(l);
    lemma_trim_end_upper(trim_start(l));
    assert(trim(u) == ascii_upper(trim(l)));
    lemma_trim_start_ascii(l);
    lemma_trim_end_ascii(trim_start(l));
    let t = trim(l);
    assert(is_ascii_chars(ascii_upper(t))) by {
        assert forall|i: int| 0 <= i < ascii_upper(t).len() implies '\0' <= #[trigger] ascii_upper(t)[i] <= '\u{7f}' by {
            lemma_upper_char(t[i]);
        }
    }
    assert forall|i: int| 0 <= i < t.len() implies ascii_lower(ascii_upper(t))[i] == #[trigger] ascii_lower(t)[i] by {
        lemma_upper_char(t[i]);
    }
    assert(ascii_lower(ascii_upper(t)) =~= ascii_lower(t));
}

/// The text of a read message follows the message's part tree: a part
/// without subparts gives its body when its MIME type starts with `text/`;
/// a multipart part gives the body of its first direct subpart that is
/// `text/plain` with a non-blank body, or else the texts of all its subparts
/// in order. `extract_text` works on the parts listed in depth-first
/// pre-order (as `mailparse` lists them), and that listing of a tree has
/// exactly the tree's text.
pub proof fn law_text_follows_part_tree(t: PartTree)
    ensures
        message_text(flatten(t)) == tree_text(t),
{
    lemma_message_text_of_tree(t);
}

/// ASCII letters.
pub open spec fn is_ascii_letter(c: char) -> bool {
    ('a' <= c && c <= 'z') || ('A' <= c && c <= 'Z')
}

proof fn lemma_case_keeps_other_chars(s: Seq<char>, x: char)
    requires
        !is_ascii_letter(x),
    ensures
        ascii_upper(s).contains(x) == s.contains(x),
        ascii_lower(s).contains(x) == s.contains(x),
{
    if s.contains(x) {
        let i = choose|i: int| 0 <= i < s.len() && s[i] == x;
        assert(ascii_upper(s)[i] == x);
        assert(ascii_lower(s)[i] == x);
    }
    if ascii_upper(s).contains(x) {
        let i = choose|i: int| 0 <= i < ascii_upper(s).len() && ascii_upper(s)[i] == x;
        assert(s[i] == x);
    }
    if ascii_lower(s).contains(x) {
        let i = choose|i: int| 0 <= i < ascii_lower(s).len() && ascii_lower(s)[i] == x;
        assert(s[i] == x);
    }
}

proof fn lemma_case_forms(s: Seq<char>)
    requires
        is_ascii_chars(s),
    ensures
        is_ascii_chars(ascii_upper(s)),
        is_ascii_chars(ascii_lower(s)),
        ascii_lower(ascii_upper(s)) == ascii_lower(s),
        ascii_lower(ascii_lower(s)) == ascii_lower(s),
{
    assert forall|i: int| 0 <= i < ascii_upper(s).len() implies '\0' <= #[trigger] ascii_upper(s)[i] <= '\u{7f}' by {
        lemma_upper_char(s[i]);
    }
    assert forall|i: int| 0 <= i < ascii_lower(s).len() implies '\0' <= #[trigger] ascii_lower(s)[i] <= '\u{7f}' by {
        assert('\0' <= s[i] <= '\u{7f}');
    }
    assert forall|i: int| 0 <= i < s.len() implies ascii_lower(ascii_upper(s))[i] == #[trigger] ascii_lower(s)[i] by {
        lemma_upper_char(s[i]);
    }
    assert(ascii_lower(ascii_upper(s)) =~= ascii_lower(s));
    assert(ascii_lower(ascii_lower(s)) =~= ascii_lower(s));
}

/// Routing a command between PowerShell and `cmd` does not depend on the
/// case of its ASCII letters: an ASCII command, its all-capitals form and
/// its all-lowercase form get the same answer from `command_needs_powershell`.
pub proof fn law_powershell_routing_ignores_case(cmd: Seq<char>)
    requires
        is_ascii_chars(cmd),
    ensures
        needs_powershell(ascii_upper(cmd)) == needs_powershell(cmd),
        needs_powershell(ascii_lower(cmd)) == needs_powershell(cmd),
{
    lemma_case_forms(cmd);
    lemma_case_keeps_other_chars(cmd, '$');
    lemma_case_keeps_other_chars(cmd, '`');
    lemma_case_keeps_other_chars(cmd, '{');
    lemma_case_keeps_other_chars(cmd, '}');
    lemma_case_keeps_other_chars(cmd, '\n');
    assert(lowercased(ascii_upper(cmd)) == lowercased(cmd));
    assert(lowercased(ascii_lower(cmd)) == lowercased(cmd));
}

// ───────────────────────── what the tables hold ─────────────────────────

/// A file-search hit keeps its path: the recorded line has the path's
/// length, and every character of the path except that each `\` becomes `/`
/// (so a path without backslashes is recorded as it is, and no recorded
/// line holds a backslash). `after` is the hit list after `SearchHits::add`
/// of `rel` on a list `before` that was not full, as `add` states it.
pub proof fn law_hit_keeps_its_path(before: Seq<Seq<char>>, after: Seq<Seq<char>>, rel: Seq<char>)
    requires
        before.len() < hit_limit(),
        after == before.push(with_slashes(rel)),
    ensures
        after.len() == before.len() + 1,
        after.last().len() == rel.len(),
        forall|i: int| 0 <= i < rel.len() ==> #[trigger] after.last()[i] == (if rel[i] == '\\' { '/' } else { rel[i] }),
        !rel.contains('\\') ==> after.last() == rel,
        !after.last().contains('\\'),
{
    let h = after.last();
    assert(h == with_slashes(rel));
    if !rel.contains('\\') {
        assert forall|i: int| 0 <= i < rel.len() implies h[i] == rel[i] by {
            if rel[i] == '\\' {
                assert(rel.contains('\\'));
            }
        }
        assert(h =~= rel);
    }
    if h.contains('\\') {
        let i = choose|i: int| 0 <= i < h.len() && h[i] == '\\';
        assert(false);
    }
}

/// A command whose first word (in lowercase) is one of PowerShell's aliases
/// `ls`, `gci`, `cat`, `gc`, `pwd`, `gm`, `gl`, `select`, `where`, `measure`,
/// `sort` or `foreach` runs under PowerShell, whatever follows it.
pub proof fn law_alias_first_word_runs_powershell(cmd: Seq<char>)
    requires
        seq![
            "ls"@, "gci"@, "cat"@, "gc"@, "pwd"@, "gm"@, "gl"@, "select"@, "where"@, "measure"@, "sort"@,
            "foreach"@,
        ].contains(first_word(lowercased(cmd))),
    ensures
        needs_powershell(cmd),
{
    assert(ps_aliases() =~= seq![
        "ls"@, "gci"@, "cat"@, "gc"@, "pwd"@, "gm"@, "gl"@, "select"@, "where"@, "measure"@, "sort"@,
        "foreach"@,
    ]);
}

/// A command that holds (in lowercase) one of PowerShell's comparison and
/// logical operators `-eq`, `-ne`, `-lt`, `-gt`, `-le`, `-ge`, `-match`,
/// `-notmatch`, `-like`, `-notlike`, `-and`, `-or`, `-not`, `-contains`,
/// `-in` or `-notin`, set off by spaces, runs under PowerShell.
pub proof fn law_operator_runs_powershell(cmd: Seq<char>, op: Seq<char>)
    requires
        seq![
            " -eq "@, " -ne "@, " -lt "@, " -gt "@, " -le "@, " -ge "@, " -match "@, " -notmatch "@,
            " -like "@, " -notlike "@, " -and "@, " -or "@, " -not "@, " -contains "@, " -in "@,
            " -notin "@,
        ].contains(op),
        contains_seq(lowercased(cmd), op),
    ensures
        needs_powershell(cmd),
{
    let ops = seq![
        " -eq "@, " -ne "@, " -lt "@, " -gt "@, " -le "@, " -ge "@, " -match "@, " -notmatch "@,
        " -like "@, " -notlike "@, " -and "@, " -or "@, " -not "@, " -contains "@, " -in "@,
        " -notin "@,
    ];
    assert(ps_operators() =~= ops);
    let k = choose|k: int| 0 <= k < ops.len() && ops[k] == op;
    assert(contains_seq(lowercased(cmd), ps_operators()[k]));
}

/// The language names `code_runner` takes (after trimming and lowercasing),
/// each with its language: python, py, python3; javascript, js, node,
/// nodejs; typescript, ts; powershell, ps, ps1, pwsh; bash, sh, shell;
/// ruby, rb.
pub open spec fn known_language_names() -> Seq<(Seq<char>, Language)> {
    seq![
        ("python"@, Language::Python), ("py"@, Language::Python), ("python3"@, Language::Python),
        ("javascript"@, Language::JavaScript), ("js"@, Language::JavaScript), ("node"@, Language::JavaScript),
        ("nodejs"@, Language::JavaScript), ("typescript"@, Language::TypeScript), ("ts"@, Language::TypeScript),
        ("powershell"@, Language::PowerShell), ("ps"@, Language::PowerShell), ("ps1"@, Language::PowerShell),
        ("pwsh"@, Language::PowerShell), ("bash"@, Language::Bash), ("sh"@, Language::Bash),
        ("shell"@, Language::Bash), ("ruby"@, Language::Ruby), ("rb"@, Language::Ruby),
    ]
}

/// Every name of `known_language_names` is accepted for its language, so
/// every name the refusal message suggests (python, javascript, powershell,
/// bash, typescript, ruby) is accepted; and each language's script
/// extension and (but for TypeScript, run through `npx`) its interpreter
/// are themselves names of it.
pub proof fn law_language_names_are_accepted(i: int, l: Language)
    requires
        0 <= i < known_language_names().len(),
    ensures
        language_named(known_language_names()[i].0) == Some(known_language_names()[i].1),
        language_named(extension(l)) == Some(l),
        l != Language::TypeScript ==> language_named(interpreter(l)) == Some(l),
        known_language_names().contains(("python"@, Language::Python)),
        known_language_names().contains(("javascript"@, Language::JavaScript)),
        known_language_names().contains(("powershell"@, Language::PowerShell)),
        known_language_names().contains(("bash"@, Language::Bash)),
        known_language_names().contains(("typescript"@, Language::TypeScript)),
        known_language_names().contains(("ruby"@, Language::Ruby)),
{
    reveal_strlit("python");
    assert("python"@.len() == 6);
    assert("python"@[0] == 'p');
    assert("python"@[1] == 'y');
    assert("python"@[2] == 't');
    assert("python"@[3] == 'h');
    assert("python"@[4] == 'o');
    assert("python"@[5] == 'n');
    reveal_strlit("py");
    assert("py"@.len() == 2);
    assert("py"@[0] == 'p');
    assert("py"@[1] == 'y');
    reveal_strlit("python3");
    assert("python3"@.len() == 7);
    assert("python3"@[0] == 'p');
    assert("python3"@[1] == 'y');
    assert("python3"@[2] == 't');
    assert("python3"@[3] == 'h');
    assert("python3"@[4] == 'o');
    assert("python3"@[5] == 'n');
    assert("python3"@[6] == '3');
    reveal_strlit("javascript");
    assert("javascript"@.len() == 10);
    assert("javascript"@[0] == 'j');
    assert("javascript"@[1] == 'a');
    assert("javascript"@[2] == 'v');
    assert("javascript"@[3] == 'a');
    assert("javascript"@[4] == 's');
    assert("javascript"@[5] == 'c');
    assert("javascript"@[6] == 'r');
    assert("javascript"@[7] == 'i');
    assert("javascript"@[8] == 'p');
    assert("javascript"@[9] == 't');
    reveal_strlit("js");
    assert("js"@.len() == 2);
    assert("js"@[0] == 'j');
    assert("js"@[1] == 's');
    reveal_strlit("node");
    assert("node"@.len() == 4);
    assert("node"@[0] == 'n');
    assert("node"@[1] == 'o');
    assert("node"@[2] == 'd');
    assert("node"@[3] == 'e');
    reveal_strlit("nodejs");
    assert("nodejs"@.len() == 6);
    assert("nodejs"@[0] == 'n');
    assert("nodejs"@[1] == 'o');
    assert("nodejs"@[2] == 'd');
    assert("nodejs"@[3] == 'e');
    assert("nodejs"@[4] == 'j');
    assert("nodejs"@[5] == 's');
    reveal_strlit("typescript");
    assert("typescript"@.len() == 10);
    assert("typescript"@[0] == 't');
    assert("typescript"@[1] == 'y');
    assert("typescript"@[2] == 'p');
    assert("typescript"@[3] == 'e');
    assert("typescript"@[4] == 's');
    assert("typescript"@[5] == 'c');
    assert("typescript"@[6] == 'r');
    assert("typescript"@[7] == 'i');
    assert("typescript"@[8] == 'p');
    assert("typescript"@[9] == 't');
    reveal_strlit("ts");
    assert("ts"@.len() == 2);
    assert("ts"@[0] == 't');
    assert("ts"@[1] == 's');
    reveal_strlit("powershell");
    assert("powershell"@.len() == 10);
    assert("powershell"@[0] == 'p');
    assert("powershell"@[1] == 'o');
    assert("powershell"@[2] == 'w');
    assert("powershell"@[3] == 'e');
    assert("powershell"@[4] == 'r');
    assert("powershell"@[5] == 's');
    assert("powershell"@[6] == 'h');
    assert("powershell"@[7] == 'e');
    assert("powershell"@[8] == 'l');
    assert("powershell"@[9] == 'l');
    reveal_strlit("ps");
    assert("ps"@.len() == 2);
    assert("ps"@[0] == 'p');
    assert("ps"@[1] == 's');
    reveal_strlit("ps1");
    assert("ps1"@.len() == 3);
    assert("ps1"@[0] == 'p');
    assert("ps1"@[1] == 's');
    assert("ps1"@[2] == '1');
    reveal_strlit("pwsh");
    assert("pwsh"@.len() == 4);
    assert("pwsh"@[0] == 'p');
    assert("pwsh"@[1] == 'w');
    assert("pwsh"@[2] == 's');
    assert("pwsh"@[3] == 'h');
    reveal_strlit("bash");
    assert("bash"@.len() == 4);
    assert("bash"@[0] == 'b');
    assert("bash"@[1] == 'a');
    assert("bash"@[2] == 's');
    assert("bash"@[3] == 'h');
    reveal_strlit("sh");
    assert("sh"@.len() == 2);
    assert("sh"@[0] == 's');
    assert("sh"@[1] == 'h');
    reveal_strlit("shell");
    assert("shell"@.len() == 5);
    assert("shell"@[0] == 's');
    assert("shell"@[1] == 'h');
    assert("shell"@[2] == 'e');
    assert("shell"@[3] == 'l');
    assert("shell"@[4] == 'l');
    reveal_strlit("ruby");
    assert("ruby"@.len() == 4);
    assert("ruby"@[0] == 'r');
    assert("ruby"@[1] == 'u');
    assert("ruby"@[2] == 'b');
    assert("ruby"@[3] == 'y');
    reveal_strlit("rb");
    assert("rb"@.len() == 2);
    assert("rb"@[0] == 'r');
    assert("rb"@[1] == 'b');
    reveal_strlit("npx");
    assert("npx"@.len() == 3);
    assert("npx"@[0] == 'n');
    assert("npx"@[1] == 'p');
    assert("npx"@[2] == 'x');
    if i == 0 {
    } else if i == 1 {
    } else if i == 2 {
    } else if i == 3 {
    } else if i == 4 {
    } else if i == 5 {
    } else if i == 6 {
    } else if i == 7 {
    } else if i == 8 {
    } else if i == 9 {
    } else if i == 10 {
    } else if i == 11 {
    } else if i == 12 {
    } else if i == 13 {
    } else if i == 14 {
    } else if i == 15 {
    } else if i == 16 {
    } else if i == 17 {
    }
    let t = known_language_names();
    assert(t[0] == ("python"@, Language::Python));
    assert(t[3] == ("javascript"@, Language::JavaScript));
    assert(t[9] == ("powershell"@, Language::PowerShell));
    assert(t[13] == ("bash"@, Language::Bash));
    assert(t[7] == ("typescript"@, Language::TypeScript));
    assert(t[16] == ("ruby"@, Language::Ruby));
}

/// What each language runs with: interpreter, script extension, and the
/// staged script as the interpreter's last argument.
pub proof fn law_language_runners(l: Language)
    ensures
        (interpreter(l), extension(l)) == (match l {
            Language::Python => ("python"@, "py"@),
            Language::JavaScript => ("node"@, "js"@),
            Language::TypeScript => ("npx"@, "ts"@),
            Language::PowerShell => ("powershell"@, "ps1"@),
            Language::Bash => ("bash"@, "sh"@),
            Language::Ruby => ("ruby"@, "rb"@),
        }),
        arg_template(l) == (match l {
            Language::TypeScript => seq!["-y"@, "tsx"@, "{file}"@],
            Language::PowerShell => seq![
                "-NoProfile"@, "-NonInteractive"@, "-ExecutionPolicy"@, "Bypass"@, "-File"@, "{file}"@,
            ],
            _ => seq!["{file}"@],
        }),
        arg_template(l).last() == "{file}"@,
{
}

/// The limits the commands keep: captured output is cut at 12 000 bytes, a
/// file search keeps at most 200 hits, and a snippet runs 30 s unless asked
/// otherwise, never less than 1 s nor more than 300 s.
pub proof fn law_limits(requested: u64)
    ensures
        output_limit() == 12_000,
        hit_limit() == 200,
        timeout_secs(None) == 30,
        1 <= timeout_secs(Some(requested)) <= 300,
        1 <= requested <= 300 ==> timeout_secs(Some(requested)) == requested,
{
}

/// The image extensions of a dropped file and the MIME type each is sent
/// with: png, jpg and jpeg (both `image/jpeg`), gif, webp, bmp, svg.
pub open spec fn image_types() -> Seq<(Seq<char>, Seq<char>)> {
    seq![
        ("png"@, "image/png"@), ("jpg"@, "image/jpeg"@), ("jpeg"@, "image/jpeg"@), ("gif"@, "image/gif"@),
        ("webp"@, "image/webp"@), ("bmp"@, "image/bmp"@), ("svg"@, "image/svg+xml"@),
    ]
}

/// A dropped file whose extension (in any case) is one of the image
/// extensions, and that is at most 8 MB, is read as an image with that
/// extension's MIME type; `jpg` and `jpeg` are the same type.
pub proof fn law_image_extensions(i: int, size: u64, ext: Seq<char>, r: DropPlan)
    requires
        0 <= i < image_types().len(),
        lowercased(ext) == image_types()[i].0,
        size <= 8_000_000,
        drop_decision(r, false, size, lowercased(ext)),
    ensures
        image_mime_of(image_types()[i].0) == Some(image_types()[i].1),
        r matches DropPlan::ReadImage(m) && m@ == image_types()[i].1,
        image_mime_of("jpeg"@) == image_mime_of("jpg"@),
        image_mime_of("jpg"@) == Some("image/jpeg"@),
{
    reveal_strlit("png");
    assert("png"@.len() == 3);
    assert("png"@[0] == 'p');
    assert("png"@[1] == 'n');
    assert("png"@[2] == 'g');
    reveal_strlit("jpg");
    assert("jpg"@.len() == 3);
    assert("jpg"@[0] == 'j');
    assert("jpg"@[1] == 'p');
    assert("jpg"@[2] == 'g');
    reveal_strlit("jpeg");
    assert("jpeg"@.len() == 4);
    assert("jpeg"@[0] == 'j');
    assert("jpeg"@[1] == 'p');
    assert("jpeg"@[2] == 'e');
    assert("jpeg"@[3] == 'g');
    reveal_strlit("gif");
    assert("gif"@.len() == 3);
    assert("gif"@[0] == 'g');
    assert("gif"@[1] == 'i');
    assert("gif"@[2] == 'f');
    reveal_strlit("webp");
    assert("webp"@.len() == 4);
    assert("webp"@[0] == 'w');
    assert("webp"@[1] == 'e');
    assert("webp"@[2] == 'b');
    assert("webp"@[3] == 'p');
    reveal_strlit("bmp");
    assert("bmp"@.len() == 3);
    assert("bmp"@[0] == 'b');
    assert("bmp"@[1] == 'm');
    assert("bmp"@[2] == 'p');
    reveal_strlit("svg");
    assert("svg"@.len() == 3);
    assert("svg"@[0] == 's');
    assert("svg"@[1] == 'v');
    assert("svg"@[2] == 'g');
    reveal_strlit("image/png");
    assert("image/png"@.len() == 9);
    assert("image/png"@[0] == 'i');
    assert("image/png"@[1] == 'm');
    assert("image/png"@[2] == 'a');
    assert("image/png"@[3] == 'g');
    assert("image/png"@[4] == 'e');
    assert("image/png"@[5] == '/');
    assert("image/png"@[6] == 'p');
    assert("image/png"@[7] == 'n');
    assert("image/png"@[8] == 'g');
    reveal_strlit("image/jpeg");
    assert("image/jpeg"@.len() == 10);
    assert("image/jpeg"@[0] == 'i');
    assert("image/jpeg"@[1] == 'm');
    assert("image/jpeg"@[2] == 'a');
    assert("image/jpeg"@[3] == 'g');
    assert("image/jpeg"@[4] == 'e');
    assert("image/jpeg"@[5] == '/');
    assert("image/jpeg"@[6] == 'j');
    assert("image/jpeg"@[7] == 'p');
    assert("image/jpeg"@[8] == 'e');
    assert("image/jpeg"@[9] == 'g');
    reveal_strlit("image/gif");
    assert("image/gif"@.len() == 9);
    assert("image/gif"@[0] == 'i');
    assert("image/gif"@[1] == 'm');
    assert("image/gif"@[2] == 'a');
    assert("image/gif"@[3] == 'g');
    assert("image/gif"@[4] == 'e');
    assert("image/gif"@[5] == '/');
    assert("image/gif"@[6] == 'g');
    assert("image/gif"@[7] == 'i');
    assert("image/gif"@[8] == 'f');
    reveal_strlit("image/webp");
    assert("image/webp"@.len() == 10);
    assert("image/webp"@[0] == 'i');
    assert("image/webp"@[1] == 'm');
    assert("image/webp"@[2] == 'a');
    assert("image/webp"@[3] == 'g');
    assert("image/webp"@[4] == 'e');
    assert("image/webp"@[5] == '/');
    assert("image/webp"@[6] == 'w');
    assert("image/webp"@[7] == 'e');
    assert("image/webp"@[8] == 'b');
    assert("image/webp"@[9] == 'p');
    reveal_strlit("image/bmp");
    assert("image/bmp"@.len() == 9);
    assert("image/bmp"@[0] == 'i');
    assert("image/bmp"@[1] == 'm');
    assert("image/bmp"@[2] == 'a');
    assert("image/bmp"@[3] == 'g');
    assert("image/bmp"@[4] == 'e');
    assert("image/bmp"@[5] == '/');
    assert("image/bmp"@[6] == 'b');
    assert("image/bmp"@[7] == 'm');
    assert("image/bmp"@[8] == 'p');
    reveal_strlit("image/svg+xml");
    assert("image/svg+xml"@.len() == 13);
    assert("image/svg+xml"@[0] == 'i');
    assert("image/svg+xml"@[1] == 'm');
    assert("image/svg+xml"@[2] == 'a');
    assert("image/svg+xml"@[3] == 'g');
    assert("image/svg+xml"@[4] == 'e');
    assert("image/svg+xml"@[5] == '/');
    assert("image/svg+xml"@[6] == 's');
    assert("image/svg+xml"@[7] == 'v');
    assert("image/svg+xml"@[8] == 'g');
    assert("image/svg+xml"@[9] == '+');
    assert("image/svg+xml"@[10] == 'x');
    assert("image/svg+xml"@[11] == 'm');
    assert("image/svg+xml"@[12] == 'l');
    if i == 0 {
    } else if i == 1 {
    } else if i == 2 {
    } else if i == 3 {
    } else if i == 4 {
    } else if i == 5 {
    } else if i == 6 {
    }
}

/// Method names kept by the HTTP commands: the proxy keeps GET, POST, PUT,
/// DELETE and PATCH; the byte fetch keeps POST and PUT, and whatever method
/// the fetch sends, the proxy sends for the same name.
pub proof fn law_methods_are_kept(s: Seq<char>)
    ensures
        s == "GET"@ ==> proxy_method_of(Some(s)) == HttpMethod::Get,
        s == "POST"@ ==> proxy_method_of(Some(s)) == HttpMethod::Post && fetch_method_of(Some(s)) == HttpMethod::Post,
        s == "PUT"@ ==> proxy_method_of(Some(s)) == HttpMethod::Put && fetch_method_of(Some(s)) == HttpMethod::Put,
        s == "DELETE"@ ==> proxy_method_of(Some(s)) == HttpMethod::Delete,
        s == "PATCH"@ ==> proxy_method_of(Some(s)) == HttpMethod::Patch,
        fetch_method_of(Some(s)) != HttpMethod::Get ==> fetch_method_of(Some(s)) == proxy_method_of(Some(s)),
        (proxy_method_of(Some(s)) == HttpMethod::Post || proxy_method_of(Some(s)) == HttpMethod::Put)
            ==> fetch_method_of(Some(s)) == proxy_method_of(Some(s)),
        proxy_method_of(None) == HttpMethod::Get && fetch_method_of(None) == HttpMethod::Get,
{
    reveal_strlit("GET");
    assert("GET"@.len() == 3);
    assert("GET"@[0] == 'G');
    assert("GET"@[1] == 'E');
    assert("GET"@[2] == 'T');
    reveal_strlit("POST");
    assert("POST"@.len() == 4);
    assert("POST"@[0] == 'P');
    assert("POST"@[1] == 'O');
    assert("POST"@[2] == 'S');
    assert("POST"@[3] == 'T');
    reveal_strlit("PUT");
    assert("PUT"@.len() == 3);
    assert("PUT"@[0] == 'P');
    assert("PUT"@[1] == 'U');
    assert("PUT"@[2] == 'T');
    reveal_strlit("DELETE");
    assert("DELETE"@.len() == 6);
    assert("DELETE"@[0] == 'D');
    assert("DELETE"@[1] == 'E');
    assert("DELETE"@[2] == 'L');
    assert("DELETE"@[3] == 'E');
    assert("DELETE"@[4] == 'T');
    assert("DELETE"@[5] == 'E');
    reveal_strlit("PATCH");
    assert("PATCH"@.len() == 5);
    assert("PATCH"@[0] == 'P');
    assert("PATCH"@[1] == 'A');
    assert("PATCH"@[2] == 'T');
    assert("PATCH"@[3] == 'C');
    assert("PATCH"@[4] == 'H');
}

} // verus!

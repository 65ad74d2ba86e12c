//! Mail rendering for the IMAP/SMTP tools: envelope rows, inbox ranges,
//! search commands, body extraction and the message summary.
use vstd::prelude::*;
use crate::email::{build_refusal, Draft, Email, MailboxParts};
use crate::sorting::{keys_descending, same_rows_per_key, sort_rows_desc, sort_u32_desc, descending};
use crate::text::{
    ascii_lower_char, chars_of, decimal, decimal_u64, from_utf8_lossy, is_blank, join, join_strings,
    push_chars, push_str, starts_with, starts_with_exec, string_of, string_views, take_chars,
    take_prefix, trim, trim_str, utf8_lossy, is_lit, concat2,
};

verus! {

// ───────────────────────── addresses and envelopes ─────────────────────────

/// The text of an optional header field: lossily decoded, empty when absent.
pub open spec fn field_text(o: Option<Seq<u8>>) -> Seq<char> {
    match o {
        Some(b) => utf8_lossy(b),
        None => Seq::<char>::empty(),
    }
}

/// An optional byte field as text: lossily decoded, empty when absent.
pub fn cow_str(o: &Option<&[u8]>) -> (r: String)
    ensures
        r@ == field_text(match o { Some(b) => Some(b@), None => None }),
{
    match o {
        Some(b) => from_utf8_lossy(b),
        None => String::new(),
    }
}

/// The view of an optional byte vector.
pub open spec fn opt_bytes(o: Option<Vec<u8>>) -> Option<Seq<u8>> {
    match o {
        Some(b) => Some(b@),
        None => None,
    }
}

/// A mail address as the IMAP envelope gives it.
pub struct Address {
    pub name: Option<Vec<u8>>,
    pub mailbox: Option<Vec<u8>>,
    pub host: Option<Vec<u8>>,
}

/// `mailbox@host` (just the mailbox without a host), behind `name <...>` when
/// there is a display name.
pub open spec fn address_text(a: Address) -> Seq<char> {
    let mbox = field_text(opt_bytes(a.mailbox));
    let host = field_text(opt_bytes(a.host));
    let name = field_text(opt_bytes(a.name));
    let email = if host.len() == 0 { mbox } else { mbox + "@"@ + host };
    if name.len() == 0 { email } else { name + " <"@ + email + ">"@ }
}

fn opt_text(o: &Option<Vec<u8>>) -> (r: Vec<char>)
    ensures
        r@ == field_text(opt_bytes(*o)),
{
    match o {
        Some(b) => {
            let s = from_utf8_lossy(b.as_slice());
            chars_of(s.as_str())
        },
        None => Vec::new(),
    }
}

/// Render an envelope address for display.
pub fn addr_to_string(a: &Address) -> (r: String)
    ensures
        r@ == address_text(*a),
{
    let mbox = opt_text(&a.mailbox);
    let host = opt_text(&a.host);
    let name = opt_text(&a.name);
    let mut email = mbox;
    if host.len() > 0 {
        push_str(&mut email, "@");
        push_chars(&mut email, &host);
    }
    if name.len() == 0 {
        string_of(email.as_slice())
    } else {
        let mut out = name;
        push_str(&mut out, " <");
        push_chars(&mut out, &email);
        push_str(&mut out, ">");
        string_of(out.as_slice())
    }
}

/// The envelope fields a listing shows.
pub struct Envelope {
    pub subject: Option<Vec<u8>>,
    pub from: Option<Vec<Address>>,
}

/// One fetched message: its uid and envelope, when the server sent them.
pub struct FetchSummary {
    pub uid: Option<u32>,
    pub envelope: Option<Envelope>,
}

/// The uid of a fetched message (0 when missing).
pub open spec fn uid_of(f: FetchSummary) -> u32 {
    match f.uid {
        Some(u) => u,
        None => 0,
    }
}

/// The subject line of a fetched message (`(no subject)` when missing).
pub open spec fn subject_of(f: FetchSummary) -> Seq<char> {
    match f.envelope {
        Some(e) => match e.subject {
            Some(s) => utf8_lossy(s@),
            None => "(no subject)"@,
        },
        None => "(no subject)"@,
    }
}

/// The first sender of a fetched message (empty when missing).
pub open spec fn sender_of(f: FetchSummary) -> Seq<char> {
    match f.envelope {
        Some(e) => match e.from {
            Some(v) => if v@.len() > 0 { address_text(v@[0]) } else { Seq::<char>::empty() },
            None => Seq::<char>::empty(),
        },
        None => Seq::<char>::empty(),
    }
}

/// `[uid] subject  —  sender`.
pub open spec fn row_text(f: FetchSummary) -> Seq<char> {
    "["@ + decimal(uid_of(f) as nat) + "] "@ + trim(subject_of(f)) + "  \u{2014}  "@ + sender_of(f)
}

/// One listing line for a fetched message.
pub fn envelope_row(f: &FetchSummary) -> (r: String)
    ensures
        r@ == row_text(*f),
{
    let uid: u32 = match f.uid {
        Some(u) => u,
        None => 0,
    };
    let subject: String = match &f.envelope {
        Some(e) => match &e.subject {
            Some(s) => from_utf8_lossy(s.as_slice()),
            None => string_of(chars_of("(no subject)").as_slice()),
        },
        None => string_of(chars_of("(no subject)").as_slice()),
    };
    let from: String = match &f.envelope {
        Some(e) => match &e.from {
            Some(v) => if v.len() > 0 { addr_to_string(&v[0]) } else { String::new() },
            None => String::new(),
        },
        None => String::new(),
    };
    let mut out = chars_of("[");
    push_chars(&mut out, &decimal_u64(uid as u64));
    push_str(&mut out, "] ");
    let t = trim_str(subject.as_str());
    push_str(&mut out, t.as_str());
    push_str(&mut out, "  \u{2014}  ");
    push_str(&mut out, from.as_str());
    string_of(out.as_slice())
}

/// The keyed listing row of a fetched message.
pub fn fetch_row(f: &FetchSummary) -> (r: (u32, String))
    ensures
        r.0 == uid_of(*f),
        r.1@ == row_text(*f),
{
    let uid: u32 = match f.uid {
        Some(u) => u,
        None => 0,
    };
    (uid, envelope_row(f))
}

/// Rows newest first (stably by uid, largest first), one per line.
pub fn render_rows(rows: Vec<(u32, String)>) -> (r: String)
    ensures
        exists|sorted: Seq<(u32, String)>|
            keys_descending(sorted) && same_rows_per_key(sorted, rows@) && r@ == join(
                sorted.map_values(|x: (u32, String)| x.1@),
                "\n"@,
            ),
{
    let sorted = sort_rows_desc(rows);
    let mut texts: Vec<String> = Vec::new();
    let mut rest = sorted;
    let ghost all = rest@;
    let mut i: usize = 0;
    // move the texts out in order
    let mut rev: Vec<(u32, String)> = Vec::new();
    while rest.len() > 0
        invariant
            rev@ + rest@.reverse() == all.reverse(),
        decreases rest.len(),
    {
        let ghost before = rest@;
        let x = rest.pop().unwrap();
        proof {
            assert(before =~= rest@.push(x));
            assert(before.reverse() =~= seq![x] + rest@.reverse());
            assert(rev@.push(x) + rest@.reverse() =~= rev@ + before.reverse());
        }
        rev.push(x);
    }
    proof {
        assert(rev@ =~= all.reverse());
    }
    while rev.len() > 0
        invariant
            rev@.len() + texts@.len() == all.len(),
            rev@.reverse() == all.subrange(texts@.len() as int, all.len() as int),
            string_views(texts@) == all.subrange(0, texts@.len() as int).map_values(|x: (u32, String)| x.1@),
        decreases rev.len(),
    {
        let ghost before = rev@;
        let ghost done: int = texts@.len() as int;
        let x = rev.pop().unwrap();
        proof {
            assert(before =~= rev@.push(x));
            assert(before.reverse()[0] == x);
            assert(all[done] == x);
            assert(before.reverse() =~= seq![x] + rev@.reverse());
            assert((seq![x] + rev@.reverse()).drop_first() =~= rev@.reverse());
            assert(all.subrange(done, all.len() as int).drop_first() =~= all.subrange(done + 1, all.len() as int));
        }
        let ghost old_texts = texts@;
        texts.push(x.1);
        proof {
            assert(texts@ == old_texts.push(x.1));
            assert(string_views(texts@) =~= string_views(old_texts).push(x.1@));
            assert(all.subrange(0, done + 1) =~= all.subrange(0, done).push(x));
            assert(all.subrange(0, done + 1).map_values(|x: (u32, String)| x.1@) =~= all.subrange(0, done).map_values(|x: (u32, String)| x.1@).push(x.1@));
        }
    }
    let r = join_strings(&texts, "\n");
    proof {
        assert(all.subrange(0, all.len() as int) =~= all);
    }
    r
}

// ───────────────────────── listing and searching ─────────────────────────

/// What listing the inbox should do.
pub enum ListPlan {
    /// The inbox is empty: answer this message.
    Empty(String),
    /// Fetch this message-number range (`start:total`).
    Fetch(String),
}

/// The first message number of the `count` most recent of `total` (10 when
/// `count` is 0).
pub open spec fn list_start(total: u32, count: u32) -> nat {
    let c: nat = if count == 0 { 10 } else { count as nat };
    if total > c { (total - c + 1) as nat } else { 1 }
}

/// Plan the listing of the `count` most recent messages of an inbox holding `total`.
pub fn list_plan(total: u32, count: u32) -> (r: ListPlan)
    ensures
        total == 0 ==> (r matches ListPlan::Empty(m) && m@ == "(inbox is empty)"@),
        total != 0 ==> (r matches ListPlan::Fetch(range)
            && range@ == decimal(list_start(total, count)) + ":"@ + decimal(total as nat)),
{
    if total == 0 {
        return ListPlan::Empty(string_of(chars_of("(inbox is empty)").as_slice()));
    }
    let c: u32 = if count == 0 { 10 } else { count };
    let start: u32 = if total > c { total - c + 1 } else { 1 };
    let mut v = decimal_u64(start as u64);
    push_str(&mut v, ":");
    push_chars(&mut v, &decimal_u64(total as u64));
    ListPlan::Fetch(string_of(v.as_slice()))
}

/// The predicate "is not `c`".
pub open spec fn other_than(c: char) -> spec_fn(char) -> bool {
    |x: char| x != c
}

/// `s` with every `c` removed.
pub open spec fn without_char(s: Seq<char>, c: char) -> Seq<char> {
    s.filter(other_than(c))
}

/// The IMAP search for a text query (double quotes dropped from the query).
pub fn search_command(query: &str) -> (r: String)
    ensures
        r@ == "TEXT \""@ + without_char(query@, '"') + "\""@,
{
    let q = chars_of(query);
    let mut out = chars_of("TEXT \"");
    let ghost start = out@;
    let mut i: usize = 0;
    while i < q.len()
        invariant
            i <= q.len(),
            out@ == start + without_char(q@.subrange(0, i as int), '"'),
        decreases q.len() - i,
    {
        proof {
            assert(q@.subrange(0, i + 1) =~= q@.subrange(0, i as int).push(q@[i as int]));
            q@.subrange(0, i as int).lemma_filter_push(q@[i as int], other_than('"'));
        }
        if q[i] != '"' {
            out.push(q[i]);
            proof {
                assert(start + without_char(q@.subrange(0, i + 1), '"') =~= (start + without_char(q@.subrange(0, i as int), '"')).push(q@[i as int]));
            }
        }
        i = i + 1;
    }
    proof {
        assert(q@.subrange(0, q.len() as int) =~= q@);
    }
    push_str(&mut out, "\"");
    string_of(out.as_slice())
}

/// The uid set to fetch for search hits: the 25 largest, largest first,
/// comma-separated; when there are no hits, `Err` with the search's answer
/// `(no matches)`.
pub fn uid_set(uids: &Vec<u32>) -> (r: Result<String, String>)
    ensures
        uids@.len() == 0 <==> r is Err,
        r matches Err(m) ==> m@ == "(no matches)"@,
        r matches Ok(s) ==> exists|sorted: Seq<u32>|
            descending(sorted) && sorted.to_multiset() == uids@.to_multiset() && s@ == join(
                sorted.take(if sorted.len() < 25 { sorted.len() as int } else { 25 }).map_values(
                    |u: u32| decimal(u as nat),
                ),
                ","@,
            ),
{
    if uids.len() == 0 {
        return Err(string_of(chars_of("(no matches)").as_slice()));
    }
    let sorted = sort_u32_desc(uids);
    let n: usize = if sorted.len() < 25 { sorted.len() } else { 25 };
    let mut texts: Vec<String> = Vec::new();
    let mut i: usize = 0;
    while i < n
        invariant
            n <= sorted.len(),
            i <= n,
            string_views(texts@) == sorted@.take(i as int).map_values(|u: u32| decimal(u as nat)),
        decreases n - i,
    {
        let d = decimal_u64(sorted[i] as u64);
        let ghost old_texts = texts@;
        let t = string_of(d.as_slice());
        texts.push(t);
        proof {
            assert(string_views(texts@) =~= string_views(old_texts).push(t@));
            assert(sorted@.take(i + 1) =~= sorted@.take(i as int).push(sorted@[i as int]));
            assert(sorted@.take(i + 1).map_values(|u: u32| decimal(u as nat)) =~= sorted@.take(i as int).map_values(|u: u32| decimal(u as nat)).push(decimal(sorted@[i as int] as nat)));
        }
        i = i + 1;
    }
    Ok(join_strings(&texts, ","))
}

// ───────────────────────── reading a message ─────────────────────────

/// One part of a parsed message: its MIME type, its decoded body (`None` when
/// it could not be decoded) and how many subparts it has. A message is held as
/// its parts in depth-first pre-order, the message itself first, so the
/// subparts of a part follow it one subtree after another.
pub struct MailPart {
    pub mimetype: String,
    pub body: Option<String>,
    pub subpart_count: usize,
}

/// The view of a part: MIME type, body, number of subparts.
pub type PartView = (Seq<char>, Option<Seq<char>>, nat);

impl View for MailPart {
    type V = (Seq<char>, Option<Seq<char>>, nat);

    open spec fn view(&self) -> (Seq<char>, Option<Seq<char>>, nat) {
        (self.mimetype@, match self.body { Some(b) => Some(b@), None => None }, self.subpart_count as nat)
    }
}

/// A parsed message: its headers as (name, value), in order, and its parts.
pub struct ParsedMessage {
    pub headers: Vec<(String, String)>,
    pub parts: Vec<MailPart>,
}

/// The views of (name, value) pairs.
pub open spec fn headers_view(hs: Seq<(String, String)>) -> Seq<(Seq<char>, Seq<char>)> {
    hs.map_values(|h: (String, String)| (h.0@, h.1@))
}

/// The views of parts.
pub open spec fn parts_view(ps: Seq<MailPart>) -> Seq<PartView> {
    ps.map_values(|p: MailPart| p@)
}

impl View for ParsedMessage {
    type V = (Seq<(Seq<char>, Seq<char>)>, Seq<(Seq<char>, Option<Seq<char>>, nat)>);

    open spec fn view(&self) -> (Seq<(Seq<char>, Seq<char>)>, Seq<(Seq<char>, Option<Seq<char>>, nat)>) {
        (headers_view(self.headers@), parts_view(self.parts@))
    }
}

/// The parsing error of the mailparse crate.
#[verifier::external_type_specification]
#[verifier::external_body]
pub struct ExMailParseError(mailparse::MailParseError);

/// What `mailparse::parse_mail` gives for these bytes, read out as headers and
/// parts (`None` when the bytes do not parse). The name covers the whole
/// read-out: `parse_mail`, then each header's `get_key` and `get_value`, and
/// for each part of `parts()` its `ctype.mimetype`, `get_body` and the number
/// of its subparts.
pub uninterp spec fn mail_parsed(raw: Seq<u8>) -> Option<(Seq<(Seq<char>, Seq<char>)>, Seq<(Seq<char>, Option<Seq<char>>, nat)>)>;

/// `mailparse::parse_mail`, read out as the message's headers
/// (`MailHeader::get_key`, `MailHeader::get_value`) and its parts as
/// `ParsedMail::parts` lists them (depth-first pre-order, the message first),
/// each with its `ctype.mimetype`, `get_body` (`None` when that fails) and
/// the length of its `subparts`.
///
/// Claimed: `Ok` exactly when the named parse of the bytes exists, and then it
/// is what is returned.
#[verifier::external_body]
fn parse_mail(raw: &[u8]) -> (r: Result<ParsedMessage, mailparse::MailParseError>)
    ensures
        match r {
            Ok(m) => mail_parsed(raw@) == Some(m@),
            Err(_) => mail_parsed(raw@) is None,
        },
{
    let m = mailparse::parse_mail(raw)?;
    let headers = m.headers.iter().map(|h| (h.get_key(), h.get_value())).collect();
    let parts = m.parts().map(|p| MailPart {
        mimetype: p.ctype.mimetype.clone(),
        body: p.get_body().ok(),
        subpart_count: p.subparts.len(),
    }).collect();
    Ok(ParsedMessage { headers, parts })
}

/// The `Display` text of a mail parsing error (its content is not stated).
#[verifier::external_body]
fn mail_error_text(e: &mailparse::MailParseError) -> String {
    e.to_string()
}

/// Where the subtree of the part at `i` ends (exclusive).
pub open spec fn subtree_end(ps: Seq<PartView>, i: int) -> int
    decreases ps.len() - i, 0int, 0int,
{
    if i < 0 || i >= ps.len() {
        ps.len() as int
    } else {
        children_end(ps, i + 1, ps[i].2 as int)
    }
}

/// Where `k` subtrees, one after another from `j`, end.
pub open spec fn children_end(ps: Seq<PartView>, j: int, k: int) -> int
    decreases ps.len() - j, 1int, k,
{
    if k <= 0 || j < 0 || j >= ps.len() {
        j
    } else {
        let e = subtree_end(ps, j);
        if j < e && e <= ps.len() {
            children_end(ps, e, k - 1)
        } else {
            ps.len() as int
        }
    }
}

/// A `text/plain` part with a non-blank body.
pub open spec fn plain_candidate(p: PartView) -> bool {
    p.0 == "text/plain"@ && p.1 is Some && trim(p.1->0).len() > 0
}

/// The body of the first of the `k` subtrees from `j` whose root is a
/// `text/plain` part with a non-blank body.
pub open spec fn first_plain(ps: Seq<PartView>, j: int, k: int) -> Option<Seq<char>>
    decreases ps.len() - j, k,
{
    if k <= 0 || j < 0 || j >= ps.len() {
        None
    } else if plain_candidate(ps[j]) {
        Some(ps[j].1->0)
    } else {
        let e = subtree_end(ps, j);
        if j < e && e <= ps.len() {
            first_plain(ps, e, k - 1)
        } else {
            None
        }
    }
}

/// The readable text of the part at `i`: a part without subparts gives its
/// body when it is `text/*`; a multipart gives the body of its first
/// non-blank `text/plain` subpart, otherwise the texts of all its subparts in
/// order.
pub open spec fn part_text(ps: Seq<PartView>, i: int) -> Seq<char>
    decreases ps.len() - i, 0int, 0int,
{
    if i < 0 || i >= ps.len() {
        Seq::<char>::empty()
    } else if ps[i].2 == 0 {
        if starts_with(ps[i].0, "text/"@) {
            match ps[i].1 {
                Some(b) => b,
                None => Seq::<char>::empty(),
            }
        } else {
            Seq::<char>::empty()
        }
    } else {
        match first_plain(ps, i + 1, ps[i].2 as int) {
            Some(b) => b,
            None => parts_text(ps, i + 1, ps[i].2 as int),
        }
    }
}

/// The texts of `k` subtrees, one after another from `j`.
pub open spec fn parts_text(ps: Seq<PartView>, j: int, k: int) -> Seq<char>
    decreases ps.len() - j, 1int, k,
{
    if k <= 0 || j < 0 || j >= ps.len() {
        Seq::<char>::empty()
    } else {
        let e = subtree_end(ps, j);
        part_text(ps, j) + (if j < e && e <= ps.len() {
            parts_text(ps, e, k - 1)
        } else {
            Seq::<char>::empty()
        })
    }
}

/// The readable text of a message given as its parts (see `part_text`).
pub open spec fn message_text(ps: Seq<PartView>) -> Seq<char> {
    part_text(ps, 0)
}

/// A message part as a tree: MIME type, decoded body and subparts.
pub struct PartTree {
    pub mimetype: Seq<char>,
    pub body: Option<Seq<char>>,
    pub subparts: Seq<PartTree>,
}

/// The view of one part of a tree, as it is listed.
pub open spec fn tree_node(t: PartTree) -> PartView {
    (t.mimetype, t.body, t.subparts.len())
}

/// A tree's parts in depth-first pre-order, the root first.
pub open spec fn flatten(t: PartTree) -> Seq<PartView>
    decreases t, 0int,
{
    seq![tree_node(t)] + flatten_all(t.subparts, 0)
}

/// The pre-order listings of `ts[j..]`, one after another.
pub open spec fn flatten_all(ts: Seq<PartTree>, j: int) -> Seq<PartView>
    decreases ts, ts.len() - j,
{
    if j < 0 || j >= ts.len() {
        Seq::<PartView>::empty()
    } else {
        flatten(ts[j]) + flatten_all(ts, j + 1)
    }
}

/// The readable text of a part tree: a part without subparts gives its body
/// when its MIME type starts with `text/`; otherwise the body of the first
/// direct subpart that is `text/plain` with a non-blank body, or else the
/// texts of all its subparts in order.
pub open spec fn tree_text(t: PartTree) -> Seq<char>
    decreases t, 0int,
{
    if t.subparts.len() == 0 {
        if starts_with(t.mimetype, "text/"@) {
            match t.body {
                Some(b) => b,
                None => Seq::<char>::empty(),
            }
        } else {
            Seq::<char>::empty()
        }
    } else {
        match first_plain_tree(t.subparts, 0) {
            Some(b) => b,
            None => trees_text(t.subparts, 0),
        }
    }
}

/// The texts of `ts[j..]`, one after another.
pub open spec fn trees_text(ts: Seq<PartTree>, j: int) -> Seq<char>
    decreases ts, ts.len() - j,
{
    if j < 0 || j >= ts.len() {
        Seq::<char>::empty()
    } else {
        tree_text(ts[j]) + trees_text(ts, j + 1)
    }
}

/// The body of the first of `ts[j..]` that is `text/plain` with a non-blank body.
pub open spec fn first_plain_tree(ts: Seq<PartTree>, j: int) -> Option<Seq<char>>
    decreases ts.len() - j,
{
    if j < 0 || j >= ts.len() {
        None
    } else if plain_candidate(tree_node(ts[j])) {
        Some(ts[j].body->0)
    } else {
        first_plain_tree(ts, j + 1)
    }
}

proof fn lemma_flatten_tree(t: PartTree, pre: Seq<PartView>, post: Seq<PartView>)
    ensures
        flatten(t).len() >= 1,
        subtree_end(pre + flatten(t) + post, pre.len() as int) == pre.len() + flatten(t).len(),
        part_text(pre + flatten(t) + post, pre.len() as int) == tree_text(t),
    decreases t, 0int,
{
    let s = pre + flatten(t) + post;
    let i = pre.len() as int;
    let ts = t.subparts;
    let pre2 = pre + seq![tree_node(t)];
    assert(s[i] == tree_node(t));
    assert(decreases_to!(t => t.subparts));
    lemma_flatten_forest(ts, 0, pre2, post);
    assert(s =~= pre2 + flatten_all(ts, 0) + post);
    assert(ts.len() - 0 == ts.len());
}

proof fn lemma_flatten_forest(ts: Seq<PartTree>, j: int, pre: Seq<PartView>, post: Seq<PartView>)
    requires
        0 <= j <= ts.len(),
    ensures
        children_end(pre + flatten_all(ts, j) + post, pre.len() as int, ts.len() - j) == pre.len() + flatten_all(ts, j).len(),
        parts_text(pre + flatten_all(ts, j) + post, pre.len() as int, ts.len() - j) == trees_text(ts, j),
        first_plain(pre + flatten_all(ts, j) + post, pre.len() as int, ts.len() - j) == first_plain_tree(ts, j),
    decreases ts, ts.len() - j,
{
    let s = pre + flatten_all(ts, j) + post;
    let i = pre.len() as int;
    if j < ts.len() {
        let rest = flatten_all(ts, j + 1) + post;
        assert(decreases_to!(ts => ts[j]));
        lemma_flatten_tree(ts[j], pre, rest);
        assert(s =~= pre + flatten(ts[j]) + rest);
        let pre2 = pre + flatten(ts[j]);
        lemma_flatten_forest(ts, j + 1, pre2, post);
        assert(s =~= pre2 + flatten_all(ts, j + 1) + post);
        assert(s[i] == flatten(ts[j])[0]);
        assert(flatten(ts[j])[0] == tree_node(ts[j]));
    }
}

/// The readable text of a message listed from a part tree is the tree's text.
pub(crate) proof fn lemma_message_text_of_tree(t: PartTree)
    ensures
        message_text(flatten(t)) == tree_text(t),
{
    let e = Seq::<PartView>::empty();
    lemma_flatten_tree(t, e, e);
    assert(e + flatten(t) + e =~= flatten(t));
}

/// Where the subtree of the part at `i` ends.
fn subtree_end_at(ps: &Vec<MailPart>, i: usize) -> (r: usize)
    requires
        i < ps@.len(),
    ensures
        r as int == subtree_end(parts_view(ps@), i as int),
    decreases ps@.len() - i,
{
    let ghost v = parts_view(ps@);
    let n = ps.len();
    let k = ps[i].subpart_count;
    assert(v[i as int].2 == k as nat);
    assert(subtree_end(v, i as int) == children_end(v, i + 1, k as int));
    let mut j: usize = i + 1;
    let mut left: usize = k;
    while left > 0 && j < n
        invariant
            i < j <= ps@.len(),
            left <= k,
            v == parts_view(ps@),
            n == ps@.len(),
            subtree_end(v, i as int) == children_end(v, i + 1, k as int),
            children_end(v, i + 1, k as int) == children_end(v, j as int, left as int),
        decreases left,
    {
        let e = subtree_end_at(ps, j);
        if j < e && e <= n {
            j = e;
            left = left - 1;
        } else {
            assert(children_end(v, j as int, left as int) == v.len());
            return n;
        }
    }
    j
}

/// Whether a part is a `text/plain` part with a non-blank body.
fn is_plain_candidate(p: &MailPart) -> (r: bool)
    ensures
        r == plain_candidate(p@),
{
    let m = chars_of(p.mimetype.as_str());
    if !is_lit(&m, "text/plain") {
        return false;
    }
    match &p.body {
        Some(b) => !is_blank(b.as_str()),
        None => false,
    }
}

/// The body of the first non-blank `text/plain` subpart of the part at `i`.
fn first_plain_at(ps: &Vec<MailPart>, i: usize) -> (r: Option<String>)
    requires
        i < ps@.len(),
    ensures
        match r {
            Some(b) => first_plain(parts_view(ps@), i + 1, ps@[i as int].subpart_count as int) == Some(b@),
            None => first_plain(parts_view(ps@), i + 1, ps@[i as int].subpart_count as int) is None,
        },
{
    let ghost v = parts_view(ps@);
    let n = ps.len();
    let k = ps[i].subpart_count;
    let mut j: usize = i + 1;
    let mut left: usize = k;
    while left > 0 && j < n
        invariant
            i < j <= ps@.len(),
            left <= k,
            v == parts_view(ps@),
            n == ps@.len(),
            k == ps@[i as int].subpart_count,
            first_plain(v, i + 1, k as int) == first_plain(v, j as int, left as int),
        decreases left,
    {
        assert(v[j as int] == ps@[j as int]@);
        if is_plain_candidate(&ps[j]) {
            return match &ps[j].body {
                Some(b) => Some(b.clone()),
                None => None,
            };
        }
        let e = subtree_end_at(ps, j);
        if j < e && e <= n {
            j = e;
            left = left - 1;
        } else {
            return None;
        }
    }
    None
}

/// The readable text of the part at `i` (see `part_text`).
fn part_text_at(ps: &Vec<MailPart>, i: usize) -> (r: String)
    requires
        i < ps@.len(),
    ensures
        r@ == part_text(parts_view(ps@), i as int),
    decreases ps@.len() - i,
{
    let ghost v = parts_view(ps@);
    assert(v[i as int] == ps@[i as int]@);
    let k = ps[i].subpart_count;
    if k == 0 {
        let m = chars_of(ps[i].mimetype.as_str());
        let prefix = chars_of("text/");
        if starts_with_exec(&m, &prefix) {
            return match &ps[i].body {
                Some(b) => b.clone(),
                None => String::new(),
            };
        }
        return String::new();
    }
    match first_plain_at(ps, i) {
        Some(b) => {
            return b;
        },
        None => {},
    }
    assert(part_text(v, i as int) == parts_text(v, i + 1, k as int));
    let n = ps.len();
    let mut out: Vec<char> = Vec::new();
    let mut j: usize = i + 1;
    let mut left: usize = k;
    while left > 0 && j < n
        invariant
            i < j <= ps@.len(),
            left <= k,
            v == parts_view(ps@),
            n == ps@.len(),
            part_text(v, i as int) == parts_text(v, i + 1, k as int),
            out@ + parts_text(v, j as int, left as int) == parts_text(v, i + 1, k as int),
        decreases left,
    {
        let t = part_text_at(ps, j);
        let e = subtree_end_at(ps, j);
        let ghost before = out@;
        push_str(&mut out, t.as_str());
        if j < e && e <= n {
            proof {
                assert(before + parts_text(v, j as int, left as int) =~= out@ + parts_text(v, e as int, left - 1));
            }
            j = e;
            left = left - 1;
        } else {
            proof {
                assert(before + parts_text(v, j as int, left as int) =~= out@);
            }
            return string_of(out.as_slice());
        }
    }
    proof {
        assert(out@ + Seq::<char>::empty() =~= out@);
    }
    string_of(out.as_slice())
}

/// The readable text of a message given as its parts (see `part_text`).
pub fn extract_text(parts: &Vec<MailPart>) -> (r: String)
    ensures
        r@ == message_text(parts_view(parts@)),
{
    if parts.len() == 0 {
        return String::new();
    }
    part_text_at(parts, 0)
}

/// ASCII case-insensitive equality (what `str::eq_ignore_ascii_case` tests).
pub open spec fn ascii_ci_eq(a: Seq<char>, b: Seq<char>) -> bool {
    a.len() == b.len() && forall|i: int| 0 <= i < a.len() ==> ascii_lower_char(#[trigger] a[i]) == ascii_lower_char(b[i])
}

/// The value of the first header whose name matches `key` case-insensitively
/// (empty when none does).
pub open spec fn header_value(hs: Seq<(Seq<char>, Seq<char>)>, key: Seq<char>) -> Seq<char> {
    if exists|i: int| 0 <= i < hs.len() && ascii_ci_eq((#[trigger] hs[i]).0, key) {
        let i = choose|i: int| 0 <= i < hs.len() && ascii_ci_eq((#[trigger] hs[i]).0, key) && forall|j: int|
            0 <= j < i ==> !ascii_ci_eq((#[trigger] hs[j]).0, key);
        hs[i].1
    } else {
        Seq::<char>::empty()
    }
}

fn lower_ascii(c: char) -> (r: char)
    ensures
        r == ascii_lower_char(c),
{
    if 'A' <= c && c <= 'Z' {
        proof {
            assert((c as u32) + 32 < 0xD800);
        }
        ((c as u8) + 32) as char
    } else {
        c
    }
}

/// Whether `a` and `b` are equal ignoring ASCII case.
pub fn eq_ignore_ascii_case(a: &Vec<char>, b: &Vec<char>) -> (r: bool)
    ensures
        r == ascii_ci_eq(a@, b@),
{
    if a.len() != b.len() {
        return false;
    }
    let mut i: usize = 0;
    while i < a.len()
        invariant
            a.len() == b.len(),
            i <= a.len(),
            forall|k: int| 0 <= k < i ==> ascii_lower_char(#[trigger] a@[k]) == ascii_lower_char(b@[k]),
        decreases a.len() - i,
    {
        if lower_ascii(a[i]) != lower_ascii(b[i]) {
            return false;
        }
        i = i + 1;
    }
    true
}

/// The value of the header named `key` (see `header_value`).
pub fn find_header(hs: &Vec<(String, String)>, key: &str) -> (r: String)
    ensures
        r@ == header_value(headers_view(hs@), key@),
{
    let ghost v = headers_view(hs@);
    let k = chars_of(key);
    let mut i: usize = 0;
    while i < hs.len()
        invariant
            i <= hs@.len(),
            k@ == key@,
            v == headers_view(hs@),
            forall|j: int| 0 <= j < i ==> !ascii_ci_eq((#[trigger] v[j]).0, key@),
        decreases hs@.len() - i,
    {
        let name = chars_of(hs[i].0.as_str());
        assert(v[i as int] == (hs@[i as int].0@, hs@[i as int].1@));
        if eq_ignore_ascii_case(&name, &k) {
            proof {
                let c = choose|c: int| 0 <= c < v.len() && ascii_ci_eq((#[trigger] v[c]).0, key@) && forall|j: int|
                    0 <= j < c ==> !ascii_ci_eq((#[trigger] v[j]).0, key@);
                if c < i {
                    assert(!ascii_ci_eq(v[c].0, key@));
                }
                if c > i {
                    assert(!ascii_ci_eq(v[i as int].0, key@));
                }
            }
            return hs[i].1.clone();
        }
        i = i + 1;
    }
    String::new()
}

/// The summary of a read message: sender, subject and date headers and at
/// most 8000 characters of text.
pub open spec fn message_summary(hs: Seq<(Seq<char>, Seq<char>)>, text: Seq<char>) -> Seq<char> {
    "From: "@ + header_value(hs, "from"@) + "\nSubject: "@ + header_value(hs, "subject"@) + "\nDate: "@
        + header_value(hs, "date"@) + "\n\n"@ + take_chars(text, 8000)
}

/// Render a read message for the agent.
pub fn render_message(hs: &Vec<(String, String)>, text: &str) -> (r: String)
    ensures
        r@ == message_summary(headers_view(hs@), text@),
{
    let mut out = chars_of("From: ");
    push_str(&mut out, find_header(hs, "from").as_str());
    push_str(&mut out, "\nSubject: ");
    push_str(&mut out, find_header(hs, "subject").as_str());
    push_str(&mut out, "\nDate: ");
    push_str(&mut out, find_header(hs, "date").as_str());
    push_str(&mut out, "\n\n");
    push_str(&mut out, take_prefix(text, 8000).as_str());
    string_of(out.as_slice())
}

/// Render a parsed message: its summary over its readable text.
pub fn render_parsed(m: &ParsedMessage) -> (r: String)
    ensures
        r@ == message_summary(m@.0, message_text(m@.1)),
{
    let text = extract_text(&m.parts);
    render_message(&m.headers, text.as_str())
}

/// Read a raw message: parse it and render its summary; a message that does
/// not parse gives the parser's error text.
pub fn read_message(raw: &[u8]) -> (r: Result<String, String>)
    ensures
        mail_parsed(raw@) is None <==> r is Err,
        r matches Ok(s) ==> (mail_parsed(raw@) matches Some(m) && s@ == message_summary(m.0, message_text(m.1))),
{
    match parse_mail(raw) {
        Ok(m) => Ok(render_parsed(&m)),
        Err(e) => Err(mail_error_text(&e)),
    }
}

// ───────────────────────── sending ─────────────────────────

/// What parsing this text as a lettre mailbox gives: its display name, user
/// and domain, or the text of the address error. The name covers the whole
/// read-out: `Mailbox::from_str`, then the mailbox's `name` and its
/// address's `user()` and `domain()`, or the error's `Display` text.
pub uninterp spec fn mailbox_parsed(s: Seq<char>) -> Result<(Option<Seq<char>>, Seq<char>, Seq<char>), Seq<char>>;

/// `<lettre::message::Mailbox as FromStr>::from_str`, read out as the
/// mailbox's `name` and its address's `user()` and `domain()`, with the
/// address error given as its `Display` text.
///
/// Claimed: the result is the named parse of `s`.
#[verifier::external_body]
fn parse_mailbox(s: &str) -> (r: Result<MailboxParts, String>)
    ensures
        match r {
            Ok(p) => mailbox_parsed(s@) == Ok::<(Option<Seq<char>>, Seq<char>, Seq<char>), Seq<char>>(p@),
            Err(e) => mailbox_parsed(s@) == Err::<(Option<Seq<char>>, Seq<char>, Seq<char>), Seq<char>>(e@),
        },
{
    s.parse::<lettre::message::Mailbox>()
        .map(|m| MailboxParts { user: m.email.user().to_string(), domain: m.email.domain().to_string(), name: m.name })
        .map_err(|e| e.to_string())
}

/// Compose a plain-text email. A sender or recipient that is not a valid
/// mailbox is refused with `bad from address: ` or `bad to address: ` and the
/// parser's reason (the sender is checked first); otherwise the message is
/// built from the parsed sender and recipient, the subject and the body, and
/// a building error is given as its text.
pub fn compose_email(from: &str, to: &str, subject: &str, body: &str) -> (r: Result<Email, String>)
    ensures
        mailbox_parsed(from@) matches Err(p) ==> (r matches Err(e) && e@ == "bad from address: "@ + p),
        mailbox_parsed(from@) is Ok ==> (mailbox_parsed(to@) matches Err(p) ==> (r matches Err(e) && e@
            == "bad to address: "@ + p)),
        mailbox_parsed(from@) matches Ok(f) ==> (mailbox_parsed(to@) matches Ok(t) ==> (r matches Ok(m)
            ==> m.draft() == (f, t, subject@, body@))),
        mailbox_parsed(from@) is Ok ==> (mailbox_parsed(to@) is Ok ==> (r matches Err(e) ==> build_refusal(e@))),
{
    let f = match parse_mailbox(from) {
        Ok(m) => m,
        Err(p) => {
            return Err(concat2("bad from address: ", p.as_str()));
        },
    };
    let t = match parse_mailbox(to) {
        Ok(m) => m,
        Err(p) => {
            return Err(concat2("bad to address: ", p.as_str()));
        },
    };
    let d = Draft {
        from: f,
        to: t,
        subject: string_of(chars_of(subject).as_slice()),
        body: string_of(chars_of(body).as_slice()),
    };
    Email::build(d)
}

/// The report of a sent message.
pub fn sent_report(to: &str) -> (r: String)
    ensures
        r@ == "sent to "@ + to@,
{
    let mut out = chars_of("sent to ");
    push_str(&mut out, to);
    string_of(out.as_slice())
}

} // verus!

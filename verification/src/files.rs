//! What the agent's file tools and the drop handler decide and report:
//! text previews, dropped-file classification, directory listings,
//! archive bookkeeping and spreadsheet rendering.
use vstd::prelude::*;
use crate::sorting::{ascending, sort_strings};
use crate::text::{
    chars_of, decimal, from_utf8_lossy, is_blank, is_lit, join, join_strings, push_str,
    string_of, string_views, to_lowercase, lowercased, trim, utf8_lossy, u64_text, concat2, concat3,
};
use crate::http::{b64_encoded, encodable};

verus! {

// ───────────────────────── text previews ─────────────────────────

/// The marker appended to cut text.
pub open spec fn cut_marker() -> Seq<char> {
    "\n\u{2026}[truncated]"@
}

/// At most `limit` bytes of a file as text (decoded lossily), marked when cut.
pub open spec fn preview_text(b: Seq<u8>, limit: nat) -> Seq<char> {
    if b.len() > limit {
        utf8_lossy(b.subrange(0, limit as int)) + cut_marker()
    } else {
        utf8_lossy(b)
    }
}

/// The first `n` bytes of `b`.
fn prefix_bytes(b: &[u8], n: usize) -> (r: Vec<u8>)
    requires
        n <= b@.len(),
    ensures
        r@ == b@.subrange(0, n as int),
{
    let mut r: Vec<u8> = Vec::new();
    let mut i: usize = 0;
    while i < n
        invariant
            n <= b@.len(),
            i <= n,
            r@ == b@.subrange(0, i as int),
        decreases n - i,
    {
        r.push(b[i]);
        proof {
            assert(b@.subrange(0, i + 1) =~= b@.subrange(0, i as int).push(b@[i as int]));
        }
        i = i + 1;
    }
    r
}

/// A file's bytes as preview text of at most `limit` bytes.
pub fn render_preview(bytes: &[u8], limit: usize) -> (r: String)
    ensures
        r@ == preview_text(bytes@, limit as nat),
{
    if bytes.len() > limit {
        let head = prefix_bytes(bytes, limit);
        let t = from_utf8_lossy(head.as_slice());
        concat2(t.as_str(), "\n\u{2026}[truncated]")
    } else {
        from_utf8_lossy(bytes)
    }
}

/// The text the agent's file read returns: at most 200 000 bytes.
pub fn file_read_text(bytes: &[u8]) -> (r: String)
    ensures
        r@ == preview_text(bytes@, 200_000),
{
    render_preview(bytes, 200_000)
}

// ───────────────────────── reports ─────────────────────────

/// The UTF-8 length of a text, in bytes.
pub open spec fn byte_len(s: Seq<char>) -> nat {
    vstd::utf8::encode_utf8(s).len()
}

/// The report of a write.
pub fn write_report(content: &str, target: &str) -> (r: String)
    ensures
        r@ == "wrote "@ + decimal(byte_len(content@)) + " bytes to "@ + target@,
{
    let n = content.as_bytes().len();
    let d = u64_text(n as u64);
    let mut m = chars_of("wrote ");
    push_str(&mut m, d.as_str());
    push_str(&mut m, " bytes to ");
    push_str(&mut m, target);
    string_of(m.as_slice())
}

/// The report of an append.
pub fn append_report(content: &str, target: &str) -> (r: String)
    ensures
        r@ == "appended "@ + decimal(byte_len(content@)) + " bytes to "@ + target@,
{
    let n = content.as_bytes().len();
    let d = u64_text(n as u64);
    let mut m = chars_of("appended ");
    push_str(&mut m, d.as_str());
    push_str(&mut m, " bytes to ");
    push_str(&mut m, target);
    string_of(m.as_slice())
}

/// The report of a deletion.
pub fn delete_report(is_dir: bool, target: &str) -> (r: String)
    ensures
        r@ == (if is_dir { "deleted directory "@ } else { "deleted "@ }) + target@,
{
    if is_dir {
        concat2("deleted directory ", target)
    } else {
        concat2("deleted ", target)
    }
}

/// The report of a move.
pub fn move_report(from: &str, to: &str) -> (r: String)
    ensures
        r@ == "moved "@ + from@ + " -> "@ + to@,
{
    let mut m = chars_of("moved ");
    push_str(&mut m, from);
    push_str(&mut m, " -> ");
    push_str(&mut m, to);
    string_of(m.as_slice())
}

/// A relative location, `.` when blank.
pub open spec fn or_dot(s: Seq<char>) -> Seq<char> {
    if trim(s).len() == 0 { "."@ } else { s }
}

/// The location to use for an optional relative path (`.` when blank).
pub fn default_location(s: &str) -> (r: String)
    ensures
        r@ == or_dot(s@),
{
    if is_blank(s) {
        string_of(chars_of(".").as_slice())
    } else {
        string_of(chars_of(s).as_slice())
    }
}

/// A zip needs at least one file.
pub fn zip_check(files: &Vec<String>) -> (r: Result<(), String>)
    ensures
        files@.len() == 0 <==> r is Err,
        r matches Err(e) ==> e@ == "no files given to zip"@,
{
    if files.len() == 0 {
        Err(string_of(chars_of("no files given to zip").as_slice()))
    } else {
        Ok(())
    }
}

/// The name of a file inside the archive: its own file name, or the
/// requested path when it has none.
pub fn zip_entry_name(file_name: Option<String>, requested: &str) -> (r: String)
    ensures
        r@ == (match file_name { Some(n) => n@, None => requested@ }),
{
    match file_name {
        Some(n) => n,
        None => string_of(chars_of(requested).as_slice()),
    }
}

/// The report of a zip.
pub fn zip_report(count: u64, output: &str) -> (r: String)
    ensures
        r@ == "zipped "@ + decimal(count as nat) + " file(s) into "@ + output@,
{
    let d = u64_text(count);
    let mut m = chars_of("zipped ");
    push_str(&mut m, d.as_str());
    push_str(&mut m, " file(s) into ");
    push_str(&mut m, output);
    string_of(m.as_slice())
}

/// The report of an extraction.
pub fn unzip_report(count: u64, dest: &str) -> (r: String)
    ensures
        r@ == "extracted "@ + decimal(count as nat) + " entries into "@ + dest@,
{
    let d = u64_text(count);
    let mut m = chars_of("extracted ");
    push_str(&mut m, d.as_str());
    push_str(&mut m, " entries into ");
    push_str(&mut m, dest);
    string_of(m.as_slice())
}

// ───────────────────────── listings ─────────────────────────

/// The error for a listing target that is not a directory.
pub fn not_a_directory(target: &str) -> (r: String)
    ensures
        r@ == target@ + " is not a directory"@,
{
    concat2(target, " is not a directory")
}

/// One directory entry as the listing sees it.
pub enum ListEntry {
    /// A subdirectory.
    Dir(String),
    /// A file with its size already written out.
    File { name: String, size: String },
    /// An entry whose metadata could not be read.
    Unknown(String),
}

/// The listing line of a directory entry.
pub open spec fn dir_line(name: Seq<char>) -> Seq<char> {
    name + "/"@
}

/// The listing line of a file entry.
pub open spec fn file_line(name: Seq<char>, size: Seq<char>) -> Seq<char> {
    name + "  ("@ + size + ")"@
}

/// The listing lines of the subdirectories among `s`, in order.
pub open spec fn dir_lines(s: Seq<ListEntry>) -> Seq<Seq<char>>
    decreases s.len(),
{
    if s.len() == 0 {
        Seq::empty()
    } else {
        let rest = dir_lines(s.drop_last());
        match s.last() {
            ListEntry::Dir(n) => rest.push(dir_line(n@)),
            _ => rest,
        }
    }
}

/// The listing lines of the other entries among `s`, in order.
pub open spec fn file_lines(s: Seq<ListEntry>) -> Seq<Seq<char>>
    decreases s.len(),
{
    if s.len() == 0 {
        Seq::empty()
    } else {
        let rest = file_lines(s.drop_last());
        match s.last() {
            ListEntry::File { name, size } => rest.push(file_line(name@, size@)),
            ListEntry::Unknown(n) => rest.push(n@),
            _ => rest,
        }
    }
}

/// Append copies of `b` to `a`.
fn append_strings(a: &mut Vec<String>, b: &Vec<String>)
    ensures
        final(a)@ == old(a)@ + b@,
{
    let mut k: usize = 0;
    while k < b.len()
        invariant
            k <= b@.len(),
            a@ == old(a)@ + b@.subrange(0, k as int),
        decreases b@.len() - k,
    {
        a.push(b[k].clone());
        proof {
            assert(old(a)@ + b@.subrange(0, k + 1) =~= (old(a)@ + b@.subrange(0, k as int)).push(b@[k as int]));
        }
        k = k + 1;
    }
    proof {
        assert(b@.subrange(0, b@.len() as int) =~= b@);
    }
}

/// The listing of a directory: subdirectories first (each with a trailing
/// `/`), then files (with sizes), each group sorted; `(empty directory)` when
/// there is nothing.
pub fn render_listing(entries: Vec<ListEntry>) -> (r: String)
    ensures
        entries@.len() == 0 ==> r@ == "(empty directory)"@,
        entries@.len() > 0 ==> exists|dirs: Seq<String>, files: Seq<String>|
            ascending(dirs) && ascending(files)
            && string_views(dirs).to_multiset() == dir_lines(entries@).to_multiset()
            && string_views(files).to_multiset() == file_lines(entries@).to_multiset()
            && r@ == join(string_views(dirs + files), "\n"@),
{
    if entries.len() == 0 {
        return string_of(chars_of("(empty directory)").as_slice());
    }
    let ghost orig = entries@;
    let mut dirs: Vec<String> = Vec::new();
    let mut files: Vec<String> = Vec::new();
    let mut rest = entries;
    proof {
        broadcast use vstd::multiset::group_multiset_axioms;
        broadcast use vstd::seq_lib::group_to_multiset_ensures;
        assert(string_views(dirs@) =~= Seq::<Seq<char>>::empty());
        assert(string_views(files@) =~= Seq::<Seq<char>>::empty());
        assert(string_views(dirs@).to_multiset() =~= vstd::multiset::Multiset::empty());
        assert(string_views(files@).to_multiset() =~= vstd::multiset::Multiset::empty());
    }
    while rest.len() > 0
        invariant
            string_views(dirs@).to_multiset().add(dir_lines(rest@).to_multiset()) == dir_lines(orig).to_multiset(),
            string_views(files@).to_multiset().add(file_lines(rest@).to_multiset()) == file_lines(orig).to_multiset(),
        decreases rest.len(),
    {
        let ghost before = rest@;
        let ghost dv = string_views(dirs@);
        let ghost fv = string_views(files@);
        let e = rest.pop().unwrap();
        proof {
            assert(before.drop_last() =~= rest@);
            assert(before.last() == e);
        }
        match e {
            ListEntry::Dir(n) => {
                let line = concat2(n.as_str(), "/");
                dirs.push(line);
                proof {
                    broadcast use vstd::multiset::group_multiset_axioms;
                    broadcast use vstd::seq_lib::to_multiset_build;
                    assert(string_views(dirs@) =~= dv.push(line@));
                    assert(dir_lines(before) == dir_lines(rest@).push(line@));
                    assert(file_lines(before) == file_lines(rest@));
                    assert(string_views(dirs@).to_multiset().add(dir_lines(rest@).to_multiset()) =~= dv.to_multiset().add(dir_lines(before).to_multiset()));
                }
            },
            ListEntry::File { name, size } => {
                let tail = concat2(size.as_str(), ")");
                let line = concat3(name.as_str(), "  (", tail.as_str());
                files.push(line);
                proof {
                    broadcast use vstd::multiset::group_multiset_axioms;
                    broadcast use vstd::seq_lib::to_multiset_build;
                    assert(line@ =~= file_line(name@, size@));
                    assert(string_views(files@) =~= fv.push(line@));
                    assert(file_lines(before) == file_lines(rest@).push(line@));
                    assert(dir_lines(before) == dir_lines(rest@));
                    assert(string_views(files@).to_multiset().add(file_lines(rest@).to_multiset()) =~= fv.to_multiset().add(file_lines(before).to_multiset()));
                }
            },
            ListEntry::Unknown(n) => {
                let ghost nv = n@;
                files.push(n);
                proof {
                    broadcast use vstd::multiset::group_multiset_axioms;
                    broadcast use vstd::seq_lib::to_multiset_build;
                    assert(string_views(files@) =~= fv.push(nv));
                    assert(file_lines(before) == file_lines(rest@).push(nv));
                    assert(dir_lines(before) == dir_lines(rest@));
                    assert(string_views(files@).to_multiset().add(file_lines(rest@).to_multiset()) =~= fv.to_multiset().add(file_lines(before).to_multiset()));
                }
            },
        }
    }
    proof {
        broadcast use vstd::multiset::group_multiset_axioms;
        broadcast use vstd::seq_lib::group_to_multiset_ensures;
        assert(dir_lines(rest@) =~= Seq::<Seq<char>>::empty());
        assert(file_lines(rest@) =~= Seq::<Seq<char>>::empty());
        assert(dir_lines(rest@).to_multiset() =~= vstd::multiset::Multiset::empty());
        assert(file_lines(rest@).to_multiset() =~= vstd::multiset::Multiset::empty());
        assert(string_views(dirs@).to_multiset() =~= string_views(dirs@).to_multiset().add(dir_lines(rest@).to_multiset()));
        assert(string_views(files@).to_multiset() =~= string_views(files@).to_multiset().add(file_lines(rest@).to_multiset()));
    }
    let d = sort_strings(dirs);
    let f = sort_strings(files);
    let mut all = d;
    let ghost dd = all@;
    append_strings(&mut all, &f);
    let r = join_strings(&all, "\n");
    proof {
        assert(ascending(dd) && ascending(f@));
        assert(r@ == join(string_views(dd + f@), "\n"@));
    }
    r
}

// ───────────────────────── dropped files ─────────────────────────

/// What was read for a dropped path (`kind` is `text`, `image`, `dir` or `binary`).
pub struct DroppedFile {
    pub kind: String,
    pub name: String,
    pub path: String,
    pub dir: String,
    pub content: String,
    pub size: u64,
}

/// The MIME type of an image extension (lowercased), if it is one.
pub open spec fn image_mime_of(ext: Seq<char>) -> Option<Seq<char>> {
    if ext == "png"@ {
        Some("image/png"@)
    } else if ext == "gif"@ {
        Some("image/gif"@)
    } else if ext == "webp"@ {
        Some("image/webp"@)
    } else if ext == "bmp"@ {
        Some("image/bmp"@)
    } else if ext == "svg"@ {
        Some("image/svg+xml"@)
    } else if ext == "jpg"@ || ext == "jpeg"@ {
        Some("image/jpeg"@)
    } else {
        None
    }
}

/// The MIME type for an image extension (already lowercased).
pub fn image_mime(ext: &str) -> (r: Option<&'static str>)
    ensures
        match r {
            Some(m) => image_mime_of(ext@) == Some(m@),
            None => image_mime_of(ext@) is None,
        },
{
    let e = chars_of(ext);
    if is_lit(&e, "png") {
        Some("image/png")
    } else if is_lit(&e, "gif") {
        Some("image/gif")
    } else if is_lit(&e, "webp") {
        Some("image/webp")
    } else if is_lit(&e, "bmp") {
        Some("image/bmp")
    } else if is_lit(&e, "svg") {
        Some("image/svg+xml")
    } else if is_lit(&e, "jpg") || is_lit(&e, "jpeg") {
        Some("image/jpeg")
    } else {
        None
    }
}

/// How to handle a dropped path.
pub enum DropPlan {
    /// A directory: report it without reading.
    Directory,
    /// An image: read it and send it as a data URI of this type.
    ReadImage(&'static str),
    /// Anything else: read it as text.
    ReadText,
    /// Too large: answer with this error.
    Refuse(String),
}

/// Whether `r` is the plan for a dropped path with this metadata and
/// lowercased extension `e` (images up to 8 MB, text up to 3 MB).
pub open spec fn drop_decision(r: DropPlan, is_dir: bool, size: u64, e: Seq<char>) -> bool {
    if is_dir {
        r is Directory
    } else {
        match image_mime_of(e) {
            Some(m) => if size > 8_000_000 {
                r matches DropPlan::Refuse(msg) && msg@ == "image too large (8 MB max)"@
            } else {
                r matches DropPlan::ReadImage(mm) && mm@ == m
            },
            None => if size > 3_000_000 {
                r matches DropPlan::Refuse(msg) && msg@ == "file too large to read as text (3 MB max)"@
            } else {
                r is ReadText
            },
        }
    }
}

/// Decide how to handle a dropped path from its metadata and extension
/// (compared lowercased).
pub fn drop_plan(is_dir: bool, size: u64, ext: Option<&str>) -> (r: DropPlan)
    ensures
        drop_decision(r, is_dir, size, match ext { Some(x) => lowercased(x@), None => Seq::<char>::empty() }),
{
    let lower: String = match ext {
        Some(x) => to_lowercase(x),
        None => String::new(),
    };
    drop_plan_lowered(is_dir, size, lower.as_str())
}

/// `drop_plan` for an extension that is already lowercased.
pub fn drop_plan_lowered(is_dir: bool, size: u64, lowered_ext: &str) -> (r: DropPlan)
    ensures
        drop_decision(r, is_dir, size, lowered_ext@),
{
    if is_dir {
        return DropPlan::Directory;
    }
    match image_mime(lowered_ext) {
        Some(m) => if size > 8_000_000 {
            DropPlan::Refuse(string_of(chars_of("image too large (8 MB max)").as_slice()))
        } else {
            DropPlan::ReadImage(m)
        },
        None => if size > 3_000_000 {
            DropPlan::Refuse(string_of(chars_of("file too large to read as text (3 MB max)").as_slice()))
        } else {
            DropPlan::ReadText
        },
    }
}

/// The entry for a dropped directory (its own path doubles as the directory to change to).
pub fn dropped_directory(name: Option<String>, path: &str) -> (r: DroppedFile)
    ensures
        r.kind@ == "dir"@,
        r.name@ == (match name { Some(n) => n@, None => path@ }),
        r.path@ == path@,
        r.dir@ == path@,
        r.content@ == Seq::<char>::empty(),
        r.size == 0,
{
    let n = match name {
        Some(n) => n,
        None => string_of(chars_of(path).as_slice()),
    };
    DroppedFile {
        kind: string_of(chars_of("dir").as_slice()),
        name: n,
        path: string_of(chars_of(path).as_slice()),
        dir: string_of(chars_of(path).as_slice()),
        content: String::new(),
        size: 0,
    }
}

/// The entry for a dropped image: its bytes as a base64 data URI.
pub fn dropped_image(name: Option<String>, path: &str, dir: Option<String>, mime: &str, bytes: &[u8], size: u64) -> (r: DroppedFile)
    requires
        encodable(bytes@),
    ensures
        r.kind@ == "image"@,
        r.name@ == (match name { Some(n) => n@, None => path@ }),
        r.path@ == path@,
        r.dir@ == (match dir { Some(d) => d@, None => Seq::<char>::empty() }),
        r.content@ == "data:"@ + mime@ + ";base64,"@ + b64_encoded(bytes@),
        r.size == size,
{
    let n = match name {
        Some(n) => n,
        None => string_of(chars_of(path).as_slice()),
    };
    let d = match dir {
        Some(d) => d,
        None => String::new(),
    };
    let enc = crate::http::tts_body(bytes);
    let mut c = chars_of("data:");
    push_str(&mut c, mime);
    push_str(&mut c, ";base64,");
    push_str(&mut c, enc.as_str());
    DroppedFile {
        kind: string_of(chars_of("image").as_slice()),
        name: n,
        path: string_of(chars_of(path).as_slice()),
        dir: d,
        content: string_of(c.as_slice()),
        size,
    }
}

/// A NUL byte among the first 8192 bytes marks a file as binary.
pub open spec fn looks_binary(b: Seq<u8>) -> bool {
    exists|i: int| 0 <= i < b.len() && i < 8192 && b[i] == 0
}

/// The entry for any other dropped file: binary files are reported without
/// content, text files with at most 40 000 bytes of text.
pub fn dropped_text(name: Option<String>, path: &str, dir: Option<String>, bytes: &[u8], size: u64) -> (r: DroppedFile)
    ensures
        r.kind@ == (if looks_binary(bytes@) { "binary"@ } else { "text"@ }),
        r.name@ == (match name { Some(n) => n@, None => path@ }),
        r.path@ == path@,
        r.dir@ == (match dir { Some(d) => d@, None => Seq::<char>::empty() }),
        r.content@ == (if looks_binary(bytes@) { Seq::<char>::empty() } else { preview_text(bytes@, 40_000) }),
        r.size == size,
{
    let n = match name {
        Some(n) => n,
        None => string_of(chars_of(path).as_slice()),
    };
    let d = match dir {
        Some(d) => d,
        None => String::new(),
    };
    let mut i: usize = 0;
    let mut binary = false;
    while i < bytes.len() && i < 8192
        invariant
            i <= bytes@.len(),
            i <= 8192,
            binary == exists|k: int| 0 <= k < i && bytes@[k] == 0,
        decreases bytes@.len() - i,
    {
        if bytes[i] == 0 {
            binary = true;
        }
        i = i + 1;
    }
    proof {
        if looks_binary(bytes@) {
            let k = choose|k: int| 0 <= k < bytes@.len() && k < 8192 && bytes@[k] == 0;
            assert(k < i);
        }
    }
    if binary {
        DroppedFile {
            kind: string_of(chars_of("binary").as_slice()),
            name: n,
            path: string_of(chars_of(path).as_slice()),
            dir: d,
            content: String::new(),
            size,
        }
    } else {
        DroppedFile {
            kind: string_of(chars_of("text").as_slice()),
            name: n,
            path: string_of(chars_of(path).as_slice()),
            dir: d,
            content: render_preview(bytes, 40_000),
            size,
        }
    }
}

// ───────────────────────── spreadsheets ─────────────────────────

/// The sheet to read: the requested one, or the first when none is requested.
pub fn choose_sheet(names: &Vec<String>, requested: &str) -> (r: Result<String, String>)
    ensures
        names@.len() == 0 ==> (r matches Err(e) && e@ == "workbook has no sheets"@),
        names@.len() > 0 && trim(requested@).len() == 0 ==> (r matches Ok(s) && s@ == names@[0]@),
        names@.len() > 0 && trim(requested@).len() != 0 ==> (r matches Ok(s) && s@ == requested@),
{
    if names.len() == 0 {
        return Err(string_of(chars_of("workbook has no sheets").as_slice()));
    }
    if is_blank(requested) {
        Ok(names[0].clone())
    } else {
        Ok(string_of(chars_of(requested).as_slice()))
    }
}

/// The maximum number of rows rendered.
pub open spec fn row_limit() -> nat {
    500
}

/// The rendered rows `rows[0..n]`: cells joined by tabs, one row per line.
pub open spec fn rows_text(rows: Seq<Vec<String>>, n: int) -> Seq<char>
    decreases n,
{
    if n <= 0 {
        Seq::empty()
    } else {
        rows_text(rows, n - 1) + join(string_views(rows[n - 1]@), "\t"@) + "\n"@
    }
}

/// A sheet as text: a header naming it and the sheet count, then at most
/// 500 rows, with a marker when rows were left out.
pub open spec fn sheet_text(sheet: Seq<char>, total: nat, rows: Seq<Vec<String>>) -> Seq<char> {
    let shown: int = if rows.len() > row_limit() { row_limit() as int } else { rows.len() as int };
    "Sheet: "@ + sheet + "  ("@ + decimal(total) + " sheets total)\n"@ + rows_text(rows, shown) + (if rows.len()
        > row_limit() {
        "\u{2026}[truncated at 500 rows]\n"@
    } else {
        Seq::<char>::empty()
    })
}

/// Render a sheet's rows (cells already written out as text).
pub fn render_sheet(sheet: &str, total: u64, rows: &Vec<Vec<String>>) -> (r: String)
    ensures
        r@ == sheet_text(sheet@, total as nat, rows@),
{
    let mut out = chars_of("Sheet: ");
    push_str(&mut out, sheet);
    push_str(&mut out, "  (");
    push_str(&mut out, u64_text(total).as_str());
    push_str(&mut out, " sheets total)\n");
    let ghost head = out@;
    let n: usize = if rows.len() > 500 { 500 } else { rows.len() };
    let mut i: usize = 0;
    while i < n
        invariant
            i <= n,
            n <= rows@.len(),
            out@ == head + rows_text(rows@, i as int),
        decreases n - i,
    {
        let line = join_strings(&rows[i], "\t");
        push_str(&mut out, line.as_str());
        push_str(&mut out, "\n");
        proof {
            assert(head + rows_text(rows@, i + 1) =~= head + rows_text(rows@, i as int) + join(string_views(rows@[i as int]@), "\t"@) + "\n"@);
        }
        i = i + 1;
    }
    if rows.len() > 500 {
        push_str(&mut out, "\u{2026}[truncated at 500 rows]\n");
    }
    proof {
        if rows@.len() <= 500 {
            assert(out@ =~= out@ + Seq::<char>::empty());
        }
    }
    string_of(out.as_slice())
}

/// The error for a sheet that cannot be read.
pub fn sheet_error(sheet: &str, err: &str) -> (r: String)
    ensures
        r@ == "sheet '"@ + sheet@ + "' not found: "@ + err@,
{
    let mut m = chars_of("sheet '");
    push_str(&mut m, sheet);
    push_str(&mut m, "' not found: ");
    push_str(&mut m, err);
    string_of(m.as_slice())
}

} // verus!

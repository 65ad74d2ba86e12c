//! Routing of agent shell commands between PowerShell and `cmd`, and the
//! bookkeeping around running them (script staging, polling, output capture).
use vstd::prelude::*;
use crate::text::{
    char_is_whitespace, chars_of, contains_char, contains_exec, contains_seq,
    is_whitespace, lit_list_contains, lowercased, skip_leading_ws, sub_chars, to_lowercase, trim_start,
    decimal, decimal_i64, decimal_u64, push_chars, push_string, signed_decimal, string_of, trim, trim_chars,
    trim_end, trim_end_chars, truncate_string,
};
use vstd::utf8::{decode_utf8, encode_utf8, is_char_boundary};

verus! {

/// The PowerShell comparison and logical operators that mark a command as PowerShell.
pub open spec fn ps_operators() -> Seq<Seq<char>> {
    seq![
        " -eq "@, " -ne "@, " -lt "@, " -gt "@, " -le "@, " -ge "@, " -match "@, " -notmatch "@,
        " -like "@, " -notlike "@, " -and "@, " -or "@, " -not "@, " -contains "@, " -in "@,
        " -notin "@,
    ]
}

/// PowerShell-only aliases (and common cmdlet aliases) recognised as a first word.
pub open spec fn ps_aliases() -> Seq<Seq<char>> {
    seq![
        "ls"@, "gci"@, "cat"@, "gc"@, "pwd"@, "gm"@, "gl"@, "select"@, "where"@, "measure"@,
        "sort"@, "foreach"@,
    ]
}

/// The leading run of non-whitespace characters of `s`.
pub open spec fn take_word(s: Seq<char>) -> Seq<char>
    decreases s.len(),
{
    if s.len() > 0 && !char_is_whitespace(s[0]) {
        seq![s[0]] + take_word(s.drop_first())
    } else {
        seq![]
    }
}

/// The first whitespace-separated word of `s` (empty when there is none),
/// as `split_whitespace().next().unwrap_or("")` gives it.
pub open spec fn first_word(s: Seq<char>) -> Seq<char> {
    take_word(trim_start(s))
}

/// An ASCII letter.
pub open spec fn is_ascii_alpha(c: char) -> bool {
    ('a' <= c && c <= 'z') || ('A' <= c && c <= 'Z')
}

/// A verb-noun cmdlet name: exactly one `-`, with a non-empty run of ASCII
/// letters on each side of it (e.g. `get-childitem`).
pub open spec fn is_cmdlet_name(w: Seq<char>) -> bool {
    exists|i: int|
        0 < i < w.len() - 1 && w[i] == '-' && forall|j: int|
            0 <= j < w.len() && j != i ==> is_ascii_alpha(#[trigger] w[j])
}

/// Whether a command has to run under PowerShell rather than `cmd /c`.
pub open spec fn needs_powershell(cmd: Seq<char>) -> bool {
    needs_powershell_given(cmd, lowercased(cmd))
}

/// The same decision once the command's lowercase form `lower` is known.
pub open spec fn needs_powershell_given(cmd: Seq<char>, lower: Seq<char>) -> bool {
    let first = first_word(lower);
    ||| cmd.contains('$')
    ||| cmd.contains('`')
    ||| cmd.contains('{')
    ||| cmd.contains('}')
    ||| cmd.contains('\n')
    ||| exists|k: int| 0 <= k < ps_operators().len() && contains_seq(lower, #[trigger] ps_operators()[k])
    ||| is_cmdlet_name(first)
    ||| ps_aliases().contains(first)
}

fn ps_operator_list() -> (r: Vec<&'static str>)
    ensures
        r@.len() == ps_operators().len(),
        forall|k: int| 0 <= k < r@.len() ==> (#[trigger] r@[k])@ == ps_operators()[k],
{
    let mut r: Vec<&'static str> = Vec::new();
    r.push(" -eq ");
    r.push(" -ne ");
    r.push(" -lt ");
    r.push(" -gt ");
    r.push(" -le ");
    r.push(" -ge ");
    r.push(" -match ");
    r.push(" -notmatch ");
    r.push(" -like ");
    r.push(" -notlike ");
    r.push(" -and ");
    r.push(" -or ");
    r.push(" -not ");
    r.push(" -contains ");
    r.push(" -in ");
    r.push(" -notin ");
    r
}

fn ps_alias_list() -> (r: Vec<&'static str>)
    ensures
        r@.len() == ps_aliases().len(),
        forall|k: int| 0 <= k < r@.len() ==> (#[trigger] r@[k])@ == ps_aliases()[k],
{
    let mut r: Vec<&'static str> = Vec::new();
    r.push("ls");
    r.push("gci");
    r.push("cat");
    r.push("gc");
    r.push("pwd");
    r.push("gm");
    r.push("gl");
    r.push("select");
    r.push("where");
    r.push("measure");
    r.push("sort");
    r.push("foreach");
    r
}

proof fn lemma_take_word_step(s: Seq<char>, a: int, e: int)
    requires
        0 <= a <= e < s.len(),
        !char_is_whitespace(s[e]),
        s.subrange(a, e) + take_word(s.subrange(e, s.len() as int)) == take_word(s.subrange(a, s.len() as int)),
    ensures
        s.subrange(a, e + 1) + take_word(s.subrange(e + 1, s.len() as int)) == take_word(s.subrange(a, s.len() as int)),
{
    let t = s.subrange(e, s.len() as int);
    assert(t.drop_first() =~= s.subrange(e + 1, s.len() as int));
    assert(t[0] == s[e]);
    assert(take_word(t) == seq![s[e]] + take_word(t.drop_first()));
    assert(s.subrange(a, e + 1) =~= s.subrange(a, e) + seq![s[e]]);
    assert(s.subrange(a, e + 1) + take_word(s.subrange(e + 1, s.len() as int)) =~= s.subrange(a, e) + (seq![s[e]] + take_word(s.subrange(e + 1, s.len() as int))));
}

/// The first whitespace-separated word of `v`.
pub fn first_word_chars(v: &Vec<char>) -> (r: Vec<char>)
    ensures
        r@ == first_word(v@),
{
    let a = skip_leading_ws(v);
    let mut e = a;
    proof {
        assert(v@.subrange(a as int, a as int) =~= Seq::<char>::empty());
        assert(v@.subrange(a as int, a as int) + take_word(v@.subrange(a as int, v.len() as int)) =~= take_word(v@.subrange(a as int, v.len() as int)));
    }
    while e < v.len()
        invariant
            a <= e <= v.len(),
            v@.subrange(a as int, e as int) + take_word(v@.subrange(e as int, v.len() as int)) == take_word(v@.subrange(a as int, v.len() as int)),
        ensures
            a <= e <= v.len(),
            v@.subrange(a as int, e as int) + take_word(v@.subrange(e as int, v.len() as int)) == take_word(v@.subrange(a as int, v.len() as int)),
            e == v.len() || char_is_whitespace(v@[e as int]),
        decreases v.len() - e,
    {
        if is_whitespace(v[e]) {
            break;
        }
        proof {
            lemma_take_word_step(v@, a as int, e as int);
        }
        e = e + 1;
    }
    proof {
        let t = v@.subrange(e as int, v.len() as int);
        if e < v.len() {
            assert(t[0] == v@[e as int]);
        }
        assert(take_word(t) =~= Seq::<char>::empty());
        assert(v@.subrange(a as int, e as int) + take_word(t) =~= v@.subrange(a as int, e as int));
    }
    sub_chars(v, a, e)
}

/// Whether `w` is a verb-noun cmdlet name.
pub fn is_cmdlet_name_exec(w: &Vec<char>) -> (r: bool)
    ensures
        r == is_cmdlet_name(w@),
{
    let mut dash: usize = 0;
    let mut dashes: usize = 0;
    let mut i: usize = 0;
    // count the dashes and check that every other character is a letter
    while i < w.len()
        invariant
            i <= w.len(),
            dashes <= i,
            dashes <= 1,
            dashes == 0 ==> forall|j: int| 0 <= j < i ==> is_ascii_alpha(#[trigger] w@[j]),
            dashes == 1 ==> dash < i && w@[dash as int] == '-' && forall|j: int|
                0 <= j < i && j != dash ==> is_ascii_alpha(#[trigger] w@[j]),
        decreases w.len() - i,
    {
        let c = w[i];
        if c == '-' {
            if dashes == 1 {
                proof {
                    assert forall|k: int| 0 < k < w@.len() - 1 && w@[k] == '-' implies !(forall|j: int|
                        0 <= j < w@.len() && j != k ==> is_ascii_alpha(#[trigger] w@[j])) by {
                        if k == dash {
                            assert(!is_ascii_alpha(w@[i as int]));
                        } else {
                            assert(!is_ascii_alpha(w@[dash as int]));
                        }
                    }
                }
                return false;
            }
            dashes = 1;
            dash = i;
        } else if !(('a' <= c && c <= 'z') || ('A' <= c && c <= 'Z')) {
            proof {
                assert forall|k: int| 0 < k < w@.len() - 1 && w@[k] == '-' implies !(forall|j: int|
                    0 <= j < w@.len() && j != k ==> is_ascii_alpha(#[trigger] w@[j])) by {
                    assert(!is_ascii_alpha(w@[i as int]));
                    assert(i != k);
                }
            }
            return false;
        }
        i = i + 1;
    }
    if dashes == 1 && dash > 0 && dash + 1 < w.len() {
        proof {
            assert(0 < dash < w@.len() - 1 && w@[dash as int] == '-' && forall|j: int|
                0 <= j < w@.len() && j != dash ==> is_ascii_alpha(#[trigger] w@[j]));
        }
        true
    } else {
        proof {
            assert forall|k: int| 0 < k < w@.len() - 1 && w@[k] == '-' implies !(forall|j: int|
                0 <= j < w@.len() && j != k ==> is_ascii_alpha(#[trigger] w@[j])) by {
                if dashes == 0 {
                    assert(!is_ascii_alpha(w@[k]));
                } else if k != dash {
                    assert(!is_ascii_alpha(w@[dash as int]));
                }
            }
        }
        false
    }
}

/// Decide whether a command needs PowerShell (so it gets a staged `.ps1`
/// script) or can run through `cmd /c`: anything with `$`-variables, braces,
/// backticks, several lines, PowerShell comparison operators, a verb-noun
/// cmdlet or a PowerShell-only alias as its first word goes to PowerShell.
pub fn command_needs_powershell(cmd: &str) -> (r: bool)
    ensures
        r == needs_powershell(cmd@),
{
    let lower = to_lowercase(cmd);
    powershell_needed(cmd, lower.as_str())
}

/// The decision of `command_needs_powershell` given the command and its
/// lowercase form.
pub fn powershell_needed(cmd: &str, lower: &str) -> (r: bool)
    ensures
        r == needs_powershell_given(cmd@, lower@),
{
    let v = chars_of(cmd);
    if contains_char(&v, '$') || contains_char(&v, '`') || contains_char(&v, '{')
        || contains_char(&v, '}') || contains_char(&v, '\n') {
        return true;
    }
    let lv = chars_of(lower);
    let ops = ps_operator_list();
    let mut k: usize = 0;
    while k < ops.len()
        invariant
            k <= ops.len(),
            ops@.len() == ps_operators().len(),
            forall|m: int| 0 <= m < ops@.len() ==> (#[trigger] ops@[m])@ == ps_operators()[m],
            lv@ == lower@,
            forall|m: int| 0 <= m < k ==> !contains_seq(lv@, #[trigger] ps_operators()[m]),
        decreases ops.len() - k,
    {
        let op = chars_of(ops[k]);
        if contains_exec(&lv, &op) {
            return true;
        }
        k = k + 1;
    }
    let first = first_word_chars(&lv);
    if is_cmdlet_name_exec(&first) {
        return true;
    }
    let aliases = ps_alias_list();
    let found = lit_list_contains(&aliases, &first);
    proof {
        if found {
            let k = choose|k: int| 0 <= k < aliases@.len() && (#[trigger] aliases@[k])@ == first@;
            assert(ps_aliases()[k] == first@);
            assert(ps_aliases().contains(first@));
        } else {
            if ps_aliases().contains(first@) {
                let k = choose|k: int| 0 <= k < ps_aliases().len() && ps_aliases()[k] == first@;
                assert(aliases@[k]@ == first@);
            }
        }
    }
    found
}

// ───────────────────────── launching ─────────────────────────

/// The byte-order mark that makes Windows PowerShell 5.1 read a script as UTF-8.
pub open spec fn utf8_bom() -> Seq<u8> {
    seq![0xEFu8, 0xBBu8, 0xBFu8]
}

/// How an agent shell command is run.
pub enum ShellPlan {
    /// Stage `script` in a temporary `.ps1` file and run it with `powershell -File`.
    PowerShell { script: Vec<u8> },
    /// Run through `cmd` with these arguments.
    Cmd { args: Vec<String> },
}

/// Decide how to run `command` (trailing whitespace removed first): PowerShell
/// code is staged verbatim behind a UTF-8 BOM, anything else goes to `cmd /c`.
pub fn shell_plan(command: &str) -> (r: ShellPlan)
    ensures
        needs_powershell(trim_end(command@)) ==> (r matches ShellPlan::PowerShell { script }
            && script@ == utf8_bom() + encode_utf8(trim_end(command@))),
        !needs_powershell(trim_end(command@)) ==> (r matches ShellPlan::Cmd { args } && args@.len() == 2
            && args@[0]@ == "/c"@ && args@[1]@ == trim_end(command@)),
{
    let v = chars_of(command);
    let t = trim_end_chars(&v);
    let c = string_of(t.as_slice());
    if command_needs_powershell(c.as_str()) {
        let mut script: Vec<u8> = Vec::new();
        script.push(0xEF);
        script.push(0xBB);
        script.push(0xBF);
        let bytes = c.as_str().as_bytes();
        let mut i: usize = 0;
        while i < bytes.len()
            invariant
                i <= bytes@.len(),
                bytes@ == encode_utf8(c@),
                script@ == utf8_bom() + bytes@.subrange(0, i as int),
            decreases bytes@.len() - i,
        {
            script.push(bytes[i]);
            proof {
                assert(bytes@.subrange(0, i + 1) =~= bytes@.subrange(0, i as int).push(bytes@[i as int]));
                assert(utf8_bom() + bytes@.subrange(0, i + 1) =~= (utf8_bom() + bytes@.subrange(0, i as int)).push(bytes@[i as int]));
            }
            i = i + 1;
        }
        proof {
            assert(bytes@.subrange(0, bytes@.len() as int) =~= bytes@);
        }
        ShellPlan::PowerShell { script }
    } else {
        let mut args: Vec<String> = Vec::new();
        args.push(string_of(chars_of("/c").as_slice()));
        args.push(c);
        ShellPlan::Cmd { args }
    }
}

/// The name of a staged script: `<prefix>_<pid>_<n>.<ext>`.
pub open spec fn script_name(prefix: Seq<char>, pid: nat, n: nat, ext: Seq<char>) -> Seq<char> {
    prefix + "_"@ + decimal(pid) + "_"@ + decimal(n) + "."@ + ext
}

/// File name for a staged script, unique per process id and sequence number.
pub fn script_file_name(prefix: &str, pid: u32, n: u32, ext: &str) -> (r: String)
    ensures
        r@ == script_name(prefix@, pid as nat, n as nat, ext@),
{
    let mut v = chars_of(prefix);
    push_chars(&mut v, &chars_of("_"));
    push_chars(&mut v, &decimal_u64(pid as u64));
    push_chars(&mut v, &chars_of("_"));
    push_chars(&mut v, &decimal_u64(n as u64));
    push_chars(&mut v, &chars_of("."));
    push_chars(&mut v, &chars_of(ext));
    string_of(v.as_slice())
}

/// The PowerShell arguments that run the script at `path`.
pub open spec fn powershell_file_args(path: Seq<char>) -> Seq<Seq<char>> {
    seq!["-NoProfile"@, "-NonInteractive"@, "-ExecutionPolicy"@, "Bypass"@, "-File"@, path]
}

/// Arguments that run a staged PowerShell script.
pub fn powershell_args(path: &str) -> (r: Vec<String>)
    ensures
        r@.len() == 6,
        forall|k: int| 0 <= k < 6 ==> (#[trigger] r@[k])@ == powershell_file_args(path@)[k],
{
    let mut r: Vec<String> = Vec::new();
    r.push(string_of(chars_of("-NoProfile").as_slice()));
    r.push(string_of(chars_of("-NonInteractive").as_slice()));
    r.push(string_of(chars_of("-ExecutionPolicy").as_slice()));
    r.push(string_of(chars_of("Bypass").as_slice()));
    r.push(string_of(chars_of("-File").as_slice()));
    r.push(string_of(chars_of(path).as_slice()));
    r
}

// ───────────────────────── waiting ─────────────────────────

/// What to do after one poll of a running child process.
#[derive(PartialEq, Eq, Structural, Clone, Copy, Debug)]
pub enum PollStep {
    /// The child exited with this code (-1 when it reported none).
    Exited(i32),
    /// The child outlived its time limit: kill it and report code -1.
    Kill,
    /// Sleep briefly and poll again.
    Wait,
}

/// Decide the next step from a poll: `status` is `Some(code)` once the child
/// has exited, `elapsed_nanos` the time since launch.
pub fn poll_step(status: Option<Option<i32>>, elapsed_nanos: u128, limit_nanos: u128) -> (r: PollStep)
    ensures
        r == match status {
            Some(Some(code)) => PollStep::Exited(code),
            Some(None) => PollStep::Exited(-1i32),
            None => if elapsed_nanos > limit_nanos { PollStep::Kill } else { PollStep::Wait },
        },
{
    match status {
        Some(Some(code)) => PollStep::Exited(code),
        Some(None) => PollStep::Exited(-1),
        None => if elapsed_nanos > limit_nanos { PollStep::Kill } else { PollStep::Wait },
    }
}

// ───────────────────────── capturing output ─────────────────────────

/// The captured form of one output line.
pub open spec fn captured_line(line: Seq<char>, is_err: bool) -> Seq<char> {
    (if is_err { "[stderr] "@ } else { Seq::<char>::empty() }) + line + "\n"@
}

/// Append one output line to the accumulated output: stderr lines get a
/// `[stderr] ` prefix, every line a newline.
pub fn capture_line(acc: &mut String, line: &str, is_err: bool)
    ensures
        final(acc)@ == old(acc)@ + captured_line(line@, is_err),
{
    if is_err {
        push_string(acc, "[stderr] ");
    }
    push_string(acc, line);
    push_string(acc, "\n");
    proof {
        if is_err {
            assert(old(acc)@ + "[stderr] "@ + line@ + "\n"@ =~= old(acc)@ + captured_line(line@, is_err));
        } else {
            assert(old(acc)@ + line@ + "\n"@ =~= old(acc)@ + captured_line(line@, is_err));
        }
    }
}

/// The stream tag of an output chunk sent to the frontend.
pub fn stream_name(is_err: bool) -> (r: &'static str)
    ensures
        r@ == (if is_err { "err"@ } else { "out"@ }),
{
    if is_err { "err" } else { "out" }
}

/// The byte budget of captured output.
pub open spec fn output_limit() -> nat {
    12_000
}

/// Captured output cut to its byte budget (with a marker when cut).
pub open spec fn clip_output(acc: Seq<char>) -> Seq<char> {
    let b = encode_utf8(acc);
    if b.len() > output_limit() {
        decode_utf8(b.subrange(0, output_limit() as int)) + "\n\u{2026}[truncated]"@
    } else {
        acc
    }
}

/// The report of a finished command: exit code, then the trimmed output,
/// with a note when it was killed after `timed_out_after` seconds.
pub open spec fn command_report(acc: Seq<char>, code: int, timed_out_after: Option<u64>) -> Seq<char> {
    let s = clip_output(acc);
    let s2 = match timed_out_after {
        Some(secs) => s + "\n[killed: timed out after "@ + decimal(secs as nat) + "s]"@,
        None => s,
    };
    "exit "@ + signed_decimal(code) + "\n"@ + trim(s2)
}

/// Whether the output can be cut at its byte budget (a cut must fall on a
/// character boundary).
pub open spec fn clip_allowed(acc: Seq<char>) -> bool {
    encode_utf8(acc).len() > output_limit() ==> is_char_boundary(encode_utf8(acc), output_limit() as int)
}

/// Finish a command's report: cut the output to 12 000 bytes (marking the
/// cut), note a timeout kill, and prefix the exit code.
pub fn finish_output(acc: String, code: i32, timed_out_after: Option<u64>) -> (r: String)
    requires
        clip_allowed(acc@),
    ensures
        r@ == command_report(acc@, code as int, timed_out_after),
{
    broadcast use vstd::utf8::encode_utf8_decode_utf8;
    let ghost c0 = clip_output(acc@);
    let mut s = acc;
    let n = s.as_str().as_bytes().len();
    assert(n == encode_utf8(acc@).len());
    if n > 12_000 {
        truncate_string(&mut s, 12_000);
        proof {
            assert(decode_utf8(encode_utf8(s@)) == s@);
        }
        push_string(&mut s, "\n\u{2026}[truncated]");
    }
    assert(s@ == c0);
    let ghost s2 = match timed_out_after {
        Some(secs) => c0 + "\n[killed: timed out after "@ + decimal(secs as nat) + "s]"@,
        None => c0,
    };
    match timed_out_after {
        Some(secs) => {
            push_string(&mut s, "\n[killed: timed out after ");
            let d = decimal_u64(secs);
            let ds = string_of(d.as_slice());
            push_string(&mut s, ds.as_str());
            push_string(&mut s, "s]");
        },
        None => {},
    }
    assert(s@ == s2);
    let sv = chars_of(s.as_str());
    let body = trim_chars(&sv);
    let mut out = chars_of("exit ");
    push_chars(&mut out, &decimal_i64(code as i64));
    push_chars(&mut out, &chars_of("\n"));
    push_chars(&mut out, &body);
    string_of(out.as_slice())
}

} // verus!

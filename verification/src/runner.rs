//! Choice of interpreter for the agent's code-running tool, and the plan
//! for staging and launching a snippet.
use vstd::prelude::*;
use crate::text::{chars_of, concat5, is_lit, lowercased, push_chars, string_of, to_lowercase, trim, trim_str};
use crate::shell::utf8_bom;
use vstd::utf8::encode_utf8;

verus! {

/// The languages the code runner knows.
#[derive(PartialEq, Eq, Structural, Clone, Copy, Debug)]
pub enum Language {
    Python,
    JavaScript,
    TypeScript,
    PowerShell,
    Bash,
    Ruby,
}

/// The language a (trimmed, lowercased) name stands for.
pub open spec fn language_named(key: Seq<char>) -> Option<Language> {
    if key == "python"@ || key == "py"@ || key == "python3"@ {
        Some(Language::Python)
    } else if key == "javascript"@ || key == "js"@ || key == "node"@ || key == "nodejs"@ {
        Some(Language::JavaScript)
    } else if key == "typescript"@ || key == "ts"@ {
        Some(Language::TypeScript)
    } else if key == "powershell"@ || key == "ps"@ || key == "ps1"@ || key == "pwsh"@ {
        Some(Language::PowerShell)
    } else if key == "bash"@ || key == "sh"@ || key == "shell"@ {
        Some(Language::Bash)
    } else if key == "ruby"@ || key == "rb"@ {
        Some(Language::Ruby)
    } else {
        None
    }
}

/// The interpreter program for a language.
pub open spec fn interpreter(l: Language) -> Seq<char> {
    match l {
        Language::Python => "python"@,
        Language::JavaScript => "node"@,
        Language::TypeScript => "npx"@,
        Language::PowerShell => "powershell"@,
        Language::Bash => "bash"@,
        Language::Ruby => "ruby"@,
    }
}

/// The argument template for a language; `{file}` stands for the script path.
pub open spec fn arg_template(l: Language) -> Seq<Seq<char>> {
    match l {
        Language::TypeScript => seq!["-y"@, "tsx"@, "{file}"@],
        Language::PowerShell => seq![
            "-NoProfile"@, "-NonInteractive"@, "-ExecutionPolicy"@, "Bypass"@, "-File"@, "{file}"@,
        ],
        _ => seq!["{file}"@],
    }
}

/// The script file extension for a language.
pub open spec fn extension(l: Language) -> Seq<char> {
    match l {
        Language::Python => "py"@,
        Language::JavaScript => "js"@,
        Language::TypeScript => "ts"@,
        Language::PowerShell => "ps1"@,
        Language::Bash => "sh"@,
        Language::Ruby => "rb"@,
    }
}

/// The message for a language name that is not supported.
pub open spec fn unsupported_message(key: Seq<char>) -> Seq<char> {
    "unsupported language '"@ + key
        + "' \u{2014} try python, javascript, powershell, bash, typescript or ruby"@
}

/// The views of a list of string slices.
pub open spec fn views(v: Seq<&'static str>) -> Seq<Seq<char>> {
    v.map_values(|s: &'static str| s@)
}

/// The language that `lang` names: trimmed, then lowercased, then looked up.
pub fn language_of(lang: &str) -> (r: Option<Language>)
    ensures
        r == language_named(lowercased(trim(lang@))),
{
    let t = trim_str(lang);
    let lower = to_lowercase(t.as_str());
    language_for_key(lower.as_str())
}

/// The language a trimmed, lowercased name stands for.
pub fn language_for_key(key: &str) -> (r: Option<Language>)
    ensures
        r == language_named(key@),
{
    let k = chars_of(key);
    if is_lit(&k, "python") || is_lit(&k, "py") || is_lit(&k, "python3") {
        Some(Language::Python)
    } else if is_lit(&k, "javascript") || is_lit(&k, "js") || is_lit(&k, "node") || is_lit(&k, "nodejs") {
        Some(Language::JavaScript)
    } else if is_lit(&k, "typescript") || is_lit(&k, "ts") {
        Some(Language::TypeScript)
    } else if is_lit(&k, "powershell") || is_lit(&k, "ps") || is_lit(&k, "ps1") || is_lit(&k, "pwsh") {
        Some(Language::PowerShell)
    } else if is_lit(&k, "bash") || is_lit(&k, "sh") || is_lit(&k, "shell") {
        Some(Language::Bash)
    } else if is_lit(&k, "ruby") || is_lit(&k, "rb") {
        Some(Language::Ruby)
    } else {
        None
    }
}

/// Interpreter, argument template and extension of a language.
pub fn runner_parts(l: Language) -> (r: (&'static str, Vec<&'static str>, &'static str))
    ensures
        r.0@ == interpreter(l),
        views(r.1@) == arg_template(l),
        r.2@ == extension(l),
{
    let mut args: Vec<&'static str> = Vec::new();
    let r = match l {
        Language::Python => {
            args.push("{file}");
            ("python", args, "py")
        },
        Language::JavaScript => {
            args.push("{file}");
            ("node", args, "js")
        },
        Language::TypeScript => {
            args.push("-y");
            args.push("tsx");
            args.push("{file}");
            ("npx", args, "ts")
        },
        Language::PowerShell => {
            args.push("-NoProfile");
            args.push("-NonInteractive");
            args.push("-ExecutionPolicy");
            args.push("Bypass");
            args.push("-File");
            args.push("{file}");
            ("powershell", args, "ps1")
        },
        Language::Bash => {
            args.push("{file}");
            ("bash", args, "sh")
        },
        Language::Ruby => {
            args.push("{file}");
            ("ruby", args, "rb")
        },
    };
    proof {
        assert(views(r.1@) =~= arg_template(l));
    }
    r
}

/// Map a loose language name to (interpreter, argument template, file
/// extension). The literal `{file}` in the arguments stands for the script path.
pub fn code_runner(lang: &str) -> (r: Result<(&'static str, Vec<&'static str>, &'static str), String>)
    ensures
        match language_named(lowercased(trim(lang@))) {
            Some(l) => r matches Ok(t) && t.0@ == interpreter(l) && views(t.1@) == arg_template(l)
                && t.2@ == extension(l),
            None => r matches Err(e) && e@ == unsupported_message(lowercased(trim(lang@))),
        },
{
    let t = trim_str(lang);
    let lower = to_lowercase(t.as_str());
    runner_for_key(lower.as_str())
}

/// `code_runner` for a name that is already trimmed and lowercased.
pub fn runner_for_key(key: &str) -> (r: Result<(&'static str, Vec<&'static str>, &'static str), String>)
    ensures
        match language_named(key@) {
            Some(l) => r matches Ok(t) && t.0@ == interpreter(l) && views(t.1@) == arg_template(l)
                && t.2@ == extension(l),
            None => r matches Err(e) && e@ == unsupported_message(key@),
        },
{
    match language_for_key(key) {
        Some(l) => Ok(runner_parts(l)),
        None => {
            let mut msg = chars_of("unsupported language '");
            let k = chars_of(key);
            push_chars(&mut msg, &k);
            let tail = chars_of("' \u{2014} try python, javascript, powershell, bash, typescript or ruby");
            push_chars(&mut msg, &tail);
            Err(string_of(msg.as_slice()))
        },
    }
}

/// The run time limit in seconds: 30 by default, kept within 1..=300.
pub open spec fn timeout_secs(requested: Option<u64>) -> u64 {
    let t = match requested {
        Some(t) => t,
        None => 30,
    };
    if t < 1 { 1 } else if t > 300 { 300 } else { t }
}

/// The time limit for a snippet.
pub fn run_timeout_secs(requested: Option<u64>) -> (r: u64)
    ensures
        r == timeout_secs(requested),
        1 <= r <= 300,
{
    let t = match requested {
        Some(t) => t,
        None => 30,
    };
    if t < 1 { 1 } else if t > 300 { 300 } else { t }
}

/// The staged snippet: PowerShell scripts get a UTF-8 byte-order mark.
pub open spec fn snippet(code: Seq<char>, ext: Seq<char>) -> Seq<u8> {
    if ext == "ps1"@ { utf8_bom() + encode_utf8(code) } else { encode_utf8(code) }
}

/// The bytes written to the snippet's temporary file.
pub fn snippet_bytes(code: &str, ext: &str) -> (r: Vec<u8>)
    ensures
        r@ == snippet(code@, ext@),
{
    let mut r: Vec<u8> = Vec::new();
    let e = chars_of(ext);
    let bom = is_lit(&e, "ps1");
    if bom {
        r.push(0xEF);
        r.push(0xBB);
        r.push(0xBF);
    }
    let ghost start = r@;
    let bytes = code.as_bytes();
    let mut i: usize = 0;
    while i < bytes.len()
        invariant
            i <= bytes@.len(),
            bytes@ == encode_utf8(code@),
            r@ == start + bytes@.subrange(0, i as int),
        decreases bytes@.len() - i,
    {
        r.push(bytes[i]);
        proof {
            assert(bytes@.subrange(0, i + 1) =~= bytes@.subrange(0, i as int).push(bytes@[i as int]));
            assert(start + bytes@.subrange(0, i + 1) =~= (start + bytes@.subrange(0, i as int)).push(bytes@[i as int]));
        }
        i = i + 1;
    }
    proof {
        assert(bytes@.subrange(0, bytes@.len() as int) =~= bytes@);
        if bom {
            assert(start =~= utf8_bom());
        } else {
            assert(start =~= Seq::<u8>::empty());
            assert(start + bytes@ =~= bytes@);
        }
    }
    r
}

/// One argument after `{file}` is replaced by the script path.
pub open spec fn expand_arg(a: Seq<char>, path: Seq<char>) -> Seq<char> {
    if a == "{file}"@ { path } else { a }
}

/// The interpreter arguments with `{file}` replaced by `path`.
pub fn expand_args(tmpl: &Vec<&'static str>, path: &str) -> (r: Vec<String>)
    ensures
        r@.len() == tmpl@.len(),
        forall|k: int| 0 <= k < tmpl@.len() ==> (#[trigger] r@[k])@ == expand_arg(tmpl@[k]@, path@),
{
    let mut r: Vec<String> = Vec::new();
    let mut k: usize = 0;
    while k < tmpl.len()
        invariant
            k <= tmpl.len(),
            r@.len() == k,
            forall|m: int| 0 <= m < k ==> (#[trigger] r@[m])@ == expand_arg(tmpl@[m]@, path@),
        decreases tmpl.len() - k,
    {
        let a = chars_of(tmpl[k]);
        if is_lit(&a, "{file}") {
            r.push(string_of(chars_of(path).as_slice()));
        } else {
            r.push(string_of(a.as_slice()));
        }
        k = k + 1;
    }
    r
}

/// Program and arguments to launch: on Windows `npx` is a `.cmd` shim that
/// has to go through `cmd /C`.
pub fn launch_command(is_windows: bool, interp: &str, args: Vec<String>) -> (r: (String, Vec<String>))
    ensures
        is_windows && interp@ == "npx"@ ==> r.0@ == "cmd"@ && r.1@.len() == args@.len() + 2
            && r.1@[0]@ == "/C"@ && r.1@[1]@ == "npx"@
            && forall|k: int| 0 <= k < args@.len() ==> #[trigger] r.1@[k + 2] == args@[k],
        !(is_windows && interp@ == "npx"@) ==> r.0@ == interp@ && r.1@ == args@,
{
    let i = chars_of(interp);
    if is_windows && is_lit(&i, "npx") {
        let mut all: Vec<String> = Vec::new();
        all.push(string_of(chars_of("/C").as_slice()));
        all.push(string_of(chars_of("npx").as_slice()));
        let mut k: usize = 0;
        while k < args.len()
            invariant
                k <= args.len(),
                all@.len() == k + 2,
                all@[0]@ == "/C"@,
                all@[1]@ == "npx"@,
                forall|m: int| 0 <= m < k ==> #[trigger] all@[m + 2] == args@[m],
            decreases args.len() - k,
        {
            all.push(args[k].clone());
            k = k + 1;
        }
        (string_of(chars_of("cmd").as_slice()), all)
    } else {
        (string_of(i.as_slice()), args)
    }
}

/// The message when an interpreter cannot be started.
pub fn launch_failure(interp: &str, err: &str) -> (r: String)
    ensures
        r@ == "failed to launch "@ + interp@ + " \u{2014} is it installed and on PATH? ("@ + err@ + ")"@,
{
    concat5("failed to launch ", interp, " \u{2014} is it installed and on PATH? (", err, ")")
}

} // verus!

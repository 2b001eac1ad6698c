//! Checks on a shell command before it runs, the text returned for its
//! output, and where the stores live under the base directory.
use vstd::prelude::*;
use crate::text::{chars_of, contains, contains_exec, lower_of, lowercase, string_of};

verus! {

/// The commands that may be run, matched exactly.
pub open spec fn allowed_commands() -> Seq<Seq<char>> {
    seq![
        "dir"@,
        "ls"@,
        "pwd"@,
        "cd"@,
        "echo"@,
        "type"@,
        "cat"@,
        "head"@,
        "tail"@,
        "Get-Date"@,
        "Get-Location"@,
        "Get-ChildItem"@,
        "Get-Content"@,
        "whoami"@,
        "hostname"@,
        "systeminfo"@,
        "git status"@,
        "git log"@,
        "git branch"@,
        "git diff"@,
        "git remote -v"@,
        "ollama list"@,
        "ollama ps"@,
        "ollama show"@,
        "node --version"@,
        "npm --version"@,
        "npm list"@,
        "python --version"@,
        "pip list"@,
    ]
}

/// The allowed commands, in the order of `allowed_commands()`.
pub fn allowed_command_list() -> (r: Vec<String>)
    ensures
        r@.map_values(|c: String| c@) == allowed_commands(),
{
    let mut v: Vec<String> = Vec::new();
    v.push(String::from_str("dir"));
    v.push(String::from_str("ls"));
    v.push(String::from_str("pwd"));
    v.push(String::from_str("cd"));
    v.push(String::from_str("echo"));
    v.push(String::from_str("type"));
    v.push(String::from_str("cat"));
    v.push(String::from_str("head"));
    v.push(String::from_str("tail"));
    v.push(String::from_str("Get-Date"));
    v.push(String::from_str("Get-Location"));
    v.push(String::from_str("Get-ChildItem"));
    v.push(String::from_str("Get-Content"));
    v.push(String::from_str("whoami"));
    v.push(String::from_str("hostname"));
    v.push(String::from_str("systeminfo"));
    v.push(String::from_str("git status"));
    v.push(String::from_str("git log"));
    v.push(String::from_str("git branch"));
    v.push(String::from_str("git diff"));
    v.push(String::from_str("git remote -v"));
    v.push(String::from_str("ollama list"));
    v.push(String::from_str("ollama ps"));
    v.push(String::from_str("ollama show"));
    v.push(String::from_str("node --version"));
    v.push(String::from_str("npm --version"));
    v.push(String::from_str("npm list"));
    v.push(String::from_str("python --version"));
    v.push(String::from_str("pip list"));
    assert(v@.map_values(|c: String| c@) =~= allowed_commands());
    v
}

/// Whether the allowlist holds exactly this command.
pub fn is_command_allowed(command: &str) -> (r: bool)
    ensures
        r == allowed_commands().contains(command@),
{
    let wanted = String::from_str(command);
    let allowed = allowed_command_list();
    let mut i: usize = 0;
    while i < allowed.len()
        invariant
            i <= allowed@.len(),
            wanted@ == command@,
            allowed@.map_values(|c: String| c@) == allowed_commands(),
            forall|k: int| 0 <= k < i ==> allowed_commands()[k] != command@,
        decreases allowed@.len() - i,
    {
        if allowed[i].eq(&wanted) {
            assert(allowed_commands()[i as int] == command@);
            return true;
        }
        i = i + 1;
    }
    false
}

/// The patterns that refuse a command when its lower-case form holds the
/// lower-case form of theirs, in the order they are checked.
pub open spec fn dangerous_pattern_texts() -> Seq<Seq<char>> {
    seq![
        "rm "@,
        "del "@,
        "rmdir"@,
        "format"@,
        "mkfs"@,
        ">"@,
        ">>"@,
        "|"@,
        "&"@,
        ";"@,
        "`"@,
        "$("@,
        "Remove-Item"@,
        "Clear-Content"@,
        "Set-Content"@,
        "Invoke-Expression"@,
        "iex"@,
        "Start-Process"@,
        "curl"@,
        "wget"@,
        "Invoke-WebRequest"@,
    ]
}

/// The dangerous patterns, in the order they are checked.
pub fn dangerous_patterns() -> (r: Vec<String>)
    ensures
        r@.map_values(|p: String| p@) == dangerous_pattern_texts(),
{
    let mut v: Vec<String> = Vec::new();
    v.push(String::from_str("rm "));
    v.push(String::from_str("del "));
    v.push(String::from_str("rmdir"));
    v.push(String::from_str("format"));
    v.push(String::from_str("mkfs"));
    v.push(String::from_str(">"));
    v.push(String::from_str(">>"));
    v.push(String::from_str("|"));
    v.push(String::from_str("&"));
    v.push(String::from_str(";"));
    v.push(String::from_str("`"));
    v.push(String::from_str("$("));
    v.push(String::from_str("Remove-Item"));
    v.push(String::from_str("Clear-Content"));
    v.push(String::from_str("Set-Content"));
    v.push(String::from_str("Invoke-Expression"));
    v.push(String::from_str("iex"));
    v.push(String::from_str("Start-Process"));
    v.push(String::from_str("curl"));
    v.push(String::from_str("wget"));
    v.push(String::from_str("Invoke-WebRequest"));
    assert(v@.map_values(|p: String| p@) =~= dangerous_pattern_texts());
    v
}

/// True when the lower-case form of `command` holds the lower-case form of
/// `pattern`.
pub open spec fn matches_pattern(command: Seq<char>, pattern: Seq<char>) -> bool {
    contains(lower_of(command), lower_of(pattern))
}

/// The position of the first of `pats` that occurs in `text`.
pub fn first_contained(text: &Vec<char>, pats: &Vec<Vec<char>>) -> (r: Option<usize>)
    ensures
        match r {
            Some(k) => k < pats@.len() && contains(text@, pats@[k as int]@) && forall|j: int|
                0 <= j < k ==> !contains(text@, pats@[j]@),
            None => forall|j: int| 0 <= j < pats@.len() ==> !contains(text@, pats@[j]@),
        },
{
    let mut k: usize = 0;
    while k < pats.len()
        invariant
            k <= pats@.len(),
            forall|j: int| 0 <= j < k ==> !contains(text@, pats@[j]@),
        decreases pats@.len() - k,
    {
        if contains_exec(text, &pats[k]) {
            return Some(k);
        }
        k = k + 1;
    }
    None
}

/// The position of the first pattern that `command` matches, ignoring case.
pub fn find_dangerous_pattern(command: &String, patterns: &Vec<String>) -> (r: Option<usize>)
    ensures
        match r {
            Some(k) => k < patterns@.len() && matches_pattern(command@, patterns@[k as int]@)
                && forall|j: int| 0 <= j < k ==> !matches_pattern(command@, patterns@[j]@),
            None => forall|j: int|
                0 <= j < patterns@.len() ==> !matches_pattern(command@, patterns@[j]@),
        },
{
    let lowered = lowercase(command.as_str());
    let text = chars_of(lowered.as_str());
    let mut pats: Vec<Vec<char>> = Vec::new();
    let mut k: usize = 0;
    while k < patterns.len()
        invariant
            k <= patterns@.len(),
            pats@.len() == k,
            forall|j: int| 0 <= j < k ==> pats@[j]@ == lower_of(patterns@[j]@),
        decreases patterns@.len() - k,
    {
        let pat = lowercase(patterns[k].as_str());
        pats.push(chars_of(pat.as_str()));
        k = k + 1;
    }
    let r = first_contained(&text, &pats);
    assert forall|j: int| 0 <= j < patterns@.len() implies matches_pattern(
        command@,
        patterns@[j]@,
    ) == contains(text@, pats@[j]@) by {}
    r
}

/// The text returned for a finished command: its standard output, its
/// standard error after a `[STDERR]: ` tag when there is any, the two
/// separated by a newline when both are there.
pub open spec fn combined_output(stdout: Seq<char>, stderr: Seq<char>) -> Seq<char> {
    if stderr.len() > 0 && stdout.len() > 0 {
        stdout + "\n[STDERR]: "@ + stderr
    } else if stderr.len() > 0 {
        "[STDERR]: "@ + stderr
    } else {
        stdout
    }
}

/// Joins a command's standard output and standard error into one text.
pub fn combine_output(stdout: String, stderr: String) -> (r: String)
    ensures
        r@ == combined_output(stdout@, stderr@),
{
    if !stderr.as_str().is_empty() && !stdout.as_str().is_empty() {
        stdout.concat("\n[STDERR]: ").concat(stderr.as_str())
    } else if !stderr.as_str().is_empty() {
        String::from_str("[STDERR]: ").concat(stderr.as_str())
    } else {
        stdout
    }
}

/// The file extensions, with their dot, that a saved file may not have.
pub open spec fn blocked_extensions() -> Seq<Seq<char>> {
    seq![
        ".exe"@,
        ".dll"@,
        ".bat"@,
        ".cmd"@,
        ".ps1"@,
        ".sh"@,
        ".msi"@,
    ]
}

/// Whether a file whose lower-case extension, with its dot, is `ext` may not
/// be written.
pub fn is_blocked_extension(ext: &String) -> (r: bool)
    ensures
        r == blocked_extensions().contains(ext@),
{
    let mut blocked: Vec<String> = Vec::new();
    blocked.push(String::from_str(".exe"));
    blocked.push(String::from_str(".dll"));
    blocked.push(String::from_str(".bat"));
    blocked.push(String::from_str(".cmd"));
    blocked.push(String::from_str(".ps1"));
    blocked.push(String::from_str(".sh"));
    blocked.push(String::from_str(".msi"));
    assert(blocked@.map_values(|e: String| e@) =~= blocked_extensions());
    let mut i: usize = 0;
    while i < blocked.len()
        invariant
            i <= blocked@.len(),
            blocked@.map_values(|e: String| e@) == blocked_extensions(),
            forall|k: int| 0 <= k < i ==> blocked_extensions()[k] != ext@,
        decreases blocked@.len() - i,
    {
        if blocked[i].eq(ext) {
            assert(blocked_extensions()[i as int] == ext@);
            return true;
        }
        i = i + 1;
    }
    false
}

/// `name` under the directory `base`: joined with `/` unless `base` is empty
/// or already ends with a separator.
pub open spec fn joined(base: Seq<char>, name: Seq<char>) -> Seq<char> {
    if base.len() == 0 {
        name
    } else if base.last() == '/' || base.last() == '\\' {
        base + name
    } else {
        base + seq!['/'] + name
    }
}

fn join_name(base: &String, name: &Vec<char>) -> (r: String)
    ensures
        r@ == joined(base@, name@),
{
    let b = chars_of(base.as_str());
    let mut out: Vec<char> = Vec::new();
    let mut i: usize = 0;
    while i < b.len()
        invariant
            i <= b@.len(),
            out@ == b@.take(i as int),
        decreases b@.len() - i,
    {
        out.push(b[i]);
        i = i + 1;
        assert(out@ =~= b@.take(i as int));
    }
    assert(b@.take(i as int) =~= b@);
    if b.len() > 0 && b[b.len() - 1] != '/' && b[b.len() - 1] != '\\' {
        out.push('/');
    }
    let ghost prefix = out@;
    let mut j: usize = 0;
    while j < name.len()
        invariant
            j <= name@.len(),
            out@ == prefix + name@.take(j as int),
        decreases name@.len() - j,
    {
        out.push(name[j]);
        j = j + 1;
        assert(out@ =~= prefix + name@.take(j as int));
    }
    assert(name@.take(j as int) =~= name@);
    string_of(&out)
}

/// The approval queue's file name.
pub open spec fn bridge_file() -> Seq<char> {
    seq!['b', 'r', 'i', 'd', 'g', 'e', '.', 'j', 's', 'o', 'n']
}

/// The memory store's file name.
pub open spec fn memory_file() -> Seq<char> {
    seq![
        'a', 'g', 'e', 'n', 't', '_', 'm', 'e', 'm', 'o', 'r', 'y', '.', 'j', 's', 'o', 'n'
    ]
}

/// Where the approval queue is stored under the base directory.
pub fn get_bridge_path(base_dir: &String) -> (r: String)
    ensures
        r@ == joined(base_dir@, bridge_file()),
{
    let name: Vec<char> = vec!['b', 'r', 'i', 'd', 'g', 'e', '.', 'j', 's', 'o', 'n'];
    assert(name@ =~= bridge_file());
    join_name(base_dir, &name)
}

/// Where the memory store is stored under the base directory.
pub fn get_memory_path(base_dir: &String) -> (r: String)
    ensures
        r@ == joined(base_dir@, memory_file()),
{
    let name: Vec<char> = vec![
        'a', 'g', 'e', 'n', 't', '_', 'm', 'e', 'm', 'o', 'r', 'y', '.', 'j', 's', 'o', 'n',
    ];
    assert(name@ =~= memory_file());
    join_name(base_dir, &name)
}

} // verus!

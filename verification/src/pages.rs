//! What the package, repository and driver pages decide: the commands they
//! run, how a result line is split into columns, how streamed output is cut
//! into complete lines, and how a finished command is reported.
use vstd::prelude::*;
use crate::process::{package_name_of, says_enabled, strs_view, ProcessRequest};
use crate::process::{extract_package_name, extract_repo_id, repo_is_enabled};
use crate::process::{
    kept_lines, lemma_parse_split_at_line_end, line_kept, parsed_output, trimmed_lines, LineKind,
};
use crate::text::{
    chars_equal, chars_of, push_str, first_word, matches_at, rows_view, split_chars, split_on, string_of,
    strings_view, sub_chars, trim, trim_chars, words, words_of, matches_at_chars,
    lemma_split_on_len, lemma_split_on_piece_then_rest, lemma_split_on_without_sep, contains,
};

verus! {

// ---------------------------------------------------------------------------
// Reporting a finished command
// ---------------------------------------------------------------------------

/// The character of a decimal digit.
pub open spec fn digit_char(d: nat) -> char {
    (48 + d) as char
}

/// The decimal digits of `n`, most significant first.
pub open spec fn digits_of(n: nat) -> Seq<char>
    decreases n,
{
    if n < 10 {
        seq![digit_char(n)]
    } else {
        digits_of(n / 10).push(digit_char(n % 10))
    }
}

/// The decimal form of `i`, with a minus sign when it is negative.
pub open spec fn decimal(i: int) -> Seq<char> {
    if i < 0 {
        seq!['-'] + digits_of((-i) as nat)
    } else {
        digits_of(i as nat)
    }
}

/// The line that ends the output of a command with exit code `code`
/// (`None` when the process could not be run or was killed).
pub open spec fn result_text(code: Option<i32>) -> Seq<char> {
    match code {
        Some(c) => if c == 0 {
            "\n[Done]"@
        } else {
            "\n[Failed \u{2014} exit code "@ + decimal(c as int) + "]"@
        },
        None => "\n[Failed \u{2014} process error]"@,
    }
}

fn push_digits(v: &mut Vec<char>, n: u32)
    ensures
        final(v)@ == old(v)@ + digits_of(n as nat),
    decreases n,
{
    if n >= 10 {
        push_digits(v, n / 10);
    }
    let d: u8 = (n % 10) as u8;
    let c = (48u8 + d) as char;
    assert(c == digit_char((n % 10) as nat));
    v.push(c);
    proof {
        if n >= 10 {
            assert(old(v)@ + digits_of(n as nat) =~= (old(v)@ + digits_of((n / 10) as nat)).push(c));
        } else {
            assert(old(v)@ + digits_of(n as nat) =~= old(v)@.push(c));
        }
    }
}

/// The decimal form of `c`.
pub fn decimal_string(c: i32) -> (r: String)
    ensures
        r@ == decimal(c as int),
{
    let mut v: Vec<char> = Vec::new();
    if c < 0 {
        v.push('-');
        let m: u32 = (0i64 - c as i64) as u32;
        push_digits(&mut v, m);
        assert(v@ =~= seq!['-'] + digits_of((-(c as int)) as nat));
    } else {
        push_digits(&mut v, c as u32);
        assert(v@ =~= digits_of(c as nat));
    }
    string_of(&v)
}

/// The line that ends the output of a command with exit code `code`.
pub fn format_result(code: Option<i32>) -> (r: String)
    ensures
        r@ == result_text(code),
{
    match code {
        Some(c) => {
            if c == 0 {
                string_of(&chars_of("\n[Done]"))
            } else {
                let mut v: Vec<char> = Vec::new();
                push_str(&mut v, "\n[Failed \u{2014} exit code ");
                let d = decimal_string(c);
                push_str(&mut v, d.as_str());
                push_str(&mut v, "]");
                string_of(&v)
            }
        },
        None => string_of(&chars_of("\n[Failed \u{2014} process error]")),
    }
}

// ---------------------------------------------------------------------------
// Commands
// ---------------------------------------------------------------------------

/// The texts of the strings `v`.
fn strings_from(v: &Vec<Vec<char>>) -> (r: Vec<String>)
    ensures
        strings_view(r@) == rows_view(v@),
{
    let mut out: Vec<String> = Vec::new();
    let mut i: usize = 0;
    while i < v.len()
        invariant
            i <= v@.len(),
            strings_view(out@) == rows_view(v@).take(i as int),
        decreases v@.len() - i,
    {
        let ghost before = out@;
        let s = string_of(&v[i]);
        assert(rows_view(v@)[i as int] == v@[i as int]@);
        out.push(s);
        assert(strings_view(out@) =~= strings_view(before).push(s@));
        assert(strings_view(out@) =~= rows_view(v@).take(i + 1));
        i = i + 1;
    }
    assert(rows_view(v@).take(v@.len() as int) =~= rows_view(v@));
    out
}

fn text(s: &str) -> (r: String)
    ensures
        r@ == s@,
{
    string_of(&chars_of(s))
}

/// dnf runs directly for `search` and `list`; any other dnf command
/// changes the system and runs through pkexec.
pub open spec fn dnf_request_spec(args: Seq<Seq<char>>) -> (Seq<char>, Seq<Seq<char>>) {
    if args.len() > 0 && (args[0] == "search"@ || args[0] == "list"@) {
        ("dnf"@, args)
    } else {
        ("pkexec"@, seq!["dnf"@] + args)
    }
}

/// The program and argument texts of a request.
pub open spec fn request_view(r: ProcessRequest) -> (Seq<char>, Seq<Seq<char>>) {
    (r.program@, strings_view(r.args@))
}

/// The request that runs dnf with `args`.
pub fn dnf_request(args: Vec<String>) -> (r: ProcessRequest)
    ensures
        request_view(r) == dnf_request_spec(strings_view(args@)),
{
    let direct = args.len() > 0 && {
        let first = chars_of(args[0].as_str());
        chars_equal(&first, &chars_of("search")) || chars_equal(
            &first,
            &chars_of("list"),
        )
    };
    if direct {
        ProcessRequest { program: text("dnf"), args }
    } else {
        let mut full: Vec<String> = Vec::new();
        full.push(text("dnf"));
        let mut i: usize = 0;
        while i < args.len()
            invariant
                i <= args@.len(),
                strings_view(full@) == seq!["dnf"@] + strings_view(args@).take(i as int),
            decreases args@.len() - i,
        {
            let ghost before = full@;
            let t = text(args[i].as_str());
            assert(strings_view(args@)[i as int] == args@[i as int]@);
            full.push(t);
            assert(strings_view(full@) =~= strings_view(before).push(t@));
            assert(strings_view(full@) =~= seq!["dnf"@] + strings_view(args@).take(i + 1));
            i = i + 1;
        }
        assert(strings_view(args@).take(args@.len() as int) =~= strings_view(args@));
        ProcessRequest { program: text("pkexec"), args: full }
    }
}

/// The request that installs (or removes) the package of a dnf result line,
/// when the line names one.
pub open spec fn package_request_spec(line: Seq<char>, verb: Seq<char>) -> Option<
    (Seq<char>, Seq<Seq<char>>),
> {
    if package_name_of(line).len() == 0 {
        None
    } else {
        Some(dnf_request_spec(seq![verb, "-y"@, package_name_of(line)]))
    }
}

fn package_request(line: &str, verb: &str) -> (r: Option<ProcessRequest>)
    ensures
        match r {
            Some(req) => package_request_spec(line@, verb@) == Some(request_view(req)),
            None => package_request_spec(line@, verb@) is None,
        },
{
    let pkg = extract_package_name(line);
    if pkg.as_str().is_empty() {
        return None;
    }
    let mut args: Vec<String> = Vec::new();
    args.push(text(verb));
    args.push(text("-y"));
    args.push(pkg);
    assert(strings_view(args@) =~= seq![verb@, "-y"@, package_name_of(line@)]);
    Some(dnf_request(args))
}

/// The request that installs the package named by a dnf result line.
pub fn install_request(line: &str) -> (r: Option<ProcessRequest>)
    ensures
        match r {
            Some(req) => package_request_spec(line@, "install"@) == Some(request_view(req)),
            None => package_request_spec(line@, "install"@) is None,
        },
{
    package_request(line, "install")
}

/// The request that removes the package named by a dnf result line.
pub fn remove_request(line: &str) -> (r: Option<ProcessRequest>)
    ensures
        match r {
            Some(req) => package_request_spec(line@, "remove"@) == Some(request_view(req)),
            None => package_request_spec(line@, "remove"@) is None,
        },
{
    package_request(line, "remove")
}

/// The dnf search for the text typed in the search bar, once trimmed;
/// nothing when that is empty.
pub open spec fn search_request_spec(query: Seq<char>) -> Option<(Seq<char>, Seq<Seq<char>>)> {
    if trim(query).len() == 0 {
        None
    } else {
        Some(("dnf"@, seq!["--assumeyes"@, "search"@, "--quiet"@, trim(query)]))
    }
}

/// The request that searches dnf for the typed text.
pub fn search_request(query: &str) -> (r: Option<ProcessRequest>)
    ensures
        match r {
            Some(req) => search_request_spec(query@) == Some(request_view(req)),
            None => search_request_spec(query@) is None,
        },
{
    let q = trim_chars(&chars_of(query));
    if q.len() == 0 {
        return None;
    }
    let mut args: Vec<String> = Vec::new();
    args.push(text("--assumeyes"));
    args.push(text("search"));
    args.push(text("--quiet"));
    args.push(string_of(&q));
    assert(strings_view(args@) =~= seq!["--assumeyes"@, "search"@, "--quiet"@, trim(query@)]);
    Some(ProcessRequest { program: text("dnf"), args })
}

/// The package in a driver line `description | package`: the second
/// `|`-separated column, trimmed; empty when there is none.
pub open spec fn driver_package_of(line: Seq<char>) -> Seq<char> {
    let cols = split_on(line, '|');
    if cols.len() > 1 {
        trim(cols[1])
    } else {
        Seq::<char>::empty()
    }
}

/// The package named by a driver line.
pub fn driver_package(line: &str) -> (r: String)
    ensures
        r@ == driver_package_of(line@),
{
    let cols = split_chars(&chars_of(line), '|');
    if cols.len() > 1 {
        assert(rows_view(cols@)[1] == cols@[1]@);
        string_of(&trim_chars(&cols[1]))
    } else {
        String::new()
    }
}

/// The request that installs the driver package of a driver line, when it names one.
pub open spec fn driver_request_spec(line: Seq<char>) -> Option<(Seq<char>, Seq<Seq<char>>)> {
    if driver_package_of(line).len() == 0 {
        None
    } else {
        Some(("pkexec"@, seq!["dnf"@, "install"@, "-y"@, driver_package_of(line)]))
    }
}

/// The request that installs the driver package named by a driver line.
pub fn driver_install_request(line: &str) -> (r: Option<ProcessRequest>)
    ensures
        match r {
            Some(req) => driver_request_spec(line@) == Some(request_view(req)),
            None => driver_request_spec(line@) is None,
        },
{
    let pkg = driver_package(line);
    if pkg.as_str().is_empty() {
        return None;
    }
    let mut args: Vec<String> = Vec::new();
    args.push(text("dnf"));
    args.push(text("install"));
    args.push(text("-y"));
    args.push(pkg);
    assert(strings_view(args@) =~= seq!["dnf"@, "install"@, "-y"@, driver_package_of(line@)]);
    Some(ProcessRequest { program: text("pkexec"), args })
}

/// The request that toggles the repository of a repolist line: an enabled
/// repository is disabled, any other is enabled.
pub open spec fn repo_toggle_spec(line: Seq<char>) -> (Seq<char>, Seq<Seq<char>>) {
    let action = if says_enabled(line) {
        "--disablerepo"@
    } else {
        "--enablerepo"@
    };
    ("pkexec"@, seq!["dnf"@, "config-manager"@, action, first_word(line)])
}

/// The request that enables or disables the repository of a repolist line.
pub fn repo_toggle_request(line: &str) -> (r: ProcessRequest)
    ensures
        request_view(r) == repo_toggle_spec(line@),
{
    let repo_id = extract_repo_id(line);
    let enabled = repo_is_enabled(line);
    let action = if enabled {
        text("--disablerepo")
    } else {
        text("--enablerepo")
    };
    let mut args: Vec<String> = Vec::new();
    args.push(text("dnf"));
    args.push(text("config-manager"));
    args.push(action);
    args.push(repo_id);
    assert(strings_view(args@) =~= repo_toggle_spec(line@).1);
    ProcessRequest { program: text("pkexec"), args }
}

/// The listing of available packages shown when the package page opens.
pub fn available_packages_request() -> (r: ProcessRequest)
    ensures
        request_view(r) == ("bash"@, seq![
            "-c"@,
            "dnf --assumeyes list available --quiet | head -n 100"@,
        ]),
{
    let r = ProcessRequest::new("bash", &["-c", "dnf --assumeyes list available --quiet | head -n 100"]);
    assert(strs_view(seq!["-c", "dnf --assumeyes list available --quiet | head -n 100"]) =~= seq![
        "-c"@,
        "dnf --assumeyes list available --quiet | head -n 100"@,
    ]);
    r
}

/// The listing of all repositories shown by the repository page.
pub fn repolist_request() -> (r: ProcessRequest)
    ensures
        request_view(r) == ("dnf"@, seq!["--assumeyes"@, "repolist"@, "all"@, "--quiet"@]),
{
    let r = ProcessRequest::new("dnf", &["--assumeyes", "repolist", "all", "--quiet"]);
    assert(strs_view(seq!["--assumeyes", "repolist", "all", "--quiet"]) =~= seq![
        "--assumeyes"@,
        "repolist"@,
        "all"@,
        "--quiet"@,
    ]);
    r
}

/// The hardware scan of the driver page: one line `description | package`
/// per graphics device, from lspci.
pub open spec fn detect_drivers_script() -> Seq<char> {
    "set -o pipefail; lspci -nn | awk 'BEGIN{IGNORECASE=1} /vga|3d|display/ {line=tolower($0); if (line ~ /nvidia/) print \"NVIDIA graphics | akmod-nvidia\"; else if (line ~ /amd|ati/) print \"AMD graphics | mesa-dri-drivers\"; else if (line ~ /intel/) print \"Intel graphics | mesa-dri-drivers\"; else print \"Unknown graphics device | mesa-dri-drivers\"}' | sort -u"@
}

/// The request that scans the hardware for graphics devices.
pub fn detect_drivers_request() -> (r: ProcessRequest)
    ensures
        request_view(r) == ("bash"@, seq!["-c"@, detect_drivers_script()]),
{
    let script = "set -o pipefail; lspci -nn | awk 'BEGIN{IGNORECASE=1} /vga|3d|display/ {line=tolower($0); if (line ~ /nvidia/) print \"NVIDIA graphics | akmod-nvidia\"; else if (line ~ /amd|ati/) print \"AMD graphics | mesa-dri-drivers\"; else if (line ~ /intel/) print \"Intel graphics | mesa-dri-drivers\"; else print \"Unknown graphics device | mesa-dri-drivers\"}' | sort -u";
    let r = ProcessRequest::new("bash", &["-c", script]);
    assert(strs_view(seq!["-c", script]) =~= seq!["-c"@, detect_drivers_script()]);
    r
}

// ---------------------------------------------------------------------------
// Result rows
// ---------------------------------------------------------------------------

/// The first position at or after `i` where `pat` occurs in `s`, or -1.
pub open spec fn find_from(s: Seq<char>, pat: Seq<char>, i: int) -> int
    decreases s.len() + 1 - i,
{
    if i < 0 || i + pat.len() > s.len() {
        -1
    } else if matches_at(s, pat, i) {
        i
    } else {
        find_from(s, pat, i + 1)
    }
}

/// The `k`-th word of `s`, or the empty text.
pub open spec fn word_at(s: Seq<char>, k: int) -> Seq<char> {
    if 0 <= k < words(s).len() {
        words(s)[k]
    } else {
        Seq::<char>::empty()
    }
}

/// The package, version and repository columns of a result row: a search
/// result `name : description` gives its name and description, any other
/// row its first three words.
pub open spec fn row_columns(v: Seq<char>) -> (Seq<char>, Seq<char>, Seq<char>) {
    let i = find_from(v, " : "@, 0);
    if i >= 0 {
        (v.take(i), v.skip(i + 3), Seq::<char>::empty())
    } else {
        (word_at(v, 0), word_at(v, 1), word_at(v, 2))
    }
}

proof fn lemma_find_from_bounds(s: Seq<char>, pat: Seq<char>, i: int)
    ensures
        find_from(s, pat, i) == -1 || (i <= find_from(s, pat, i) && matches_at(
            s,
            pat,
            find_from(s, pat, i),
        )),
    decreases s.len() + 1 - i,
{
    if !(i < 0 || i + pat.len() > s.len()) && !matches_at(s, pat, i) {
        lemma_find_from_bounds(s, pat, i + 1);
    }
}

fn find_chars(v: &Vec<char>, pat: &Vec<char>) -> (r: Option<usize>)
    ensures
        match r {
            Some(i) => find_from(v@, pat@, 0) == i as int,
            None => find_from(v@, pat@, 0) == -1,
        },
{
    if pat.len() == 0 {
        assert(v@.subrange(0, 0) =~= pat@);
        return Some(0);
    }
    let mut i: usize = 0;
    while i <= v.len() && pat.len() <= v.len() - i
        invariant
            pat@.len() > 0,
            i <= v.len() + 1,
            find_from(v@, pat@, 0) == find_from(v@, pat@, i as int),
        decreases v.len() + 1 - i,
    {
        if matches_at_chars(v, pat, i) {
            return Some(i);
        }
        i = i + 1;
    }
    None
}

fn word_at_exec(ws: &Vec<Vec<char>>, k: usize) -> (r: String)
    ensures
        k < ws@.len() ==> r@ == ws@[k as int]@,
        k >= ws@.len() ==> r@ == Seq::<char>::empty(),
{
    if k < ws.len() {
        string_of(&ws[k])
    } else {
        String::new()
    }
}

/// The package, version and repository columns shown for a result row.
pub fn package_row_columns(value: &str) -> (r: (String, String, String))
    ensures
        (r.0@, r.1@, r.2@) == row_columns(value@),
{
    let v = chars_of(value);
    match find_chars(&v, &chars_of(" : ")) {
        Some(i) => {
            proof {
                lemma_find_from_bounds(v@, " : "@, 0);
                reveal_strlit(" : ");
                assert(" : "@.len() == 3);
                assert(matches_at(v@, " : "@, i as int));
                assert(i + 3 <= v@.len());
            }
            assert(i + 3 <= v.len());
            let name = sub_chars(&v, 0, i);
            let rest = sub_chars(&v, i + 3, v.len());
            assert(name@ =~= v@.take(i as int));
            assert(rest@ =~= v@.skip(i + 3));
            (string_of(&name), string_of(&rest), String::new())
        },
        None => {
            let ws = words_of(&v);
            let a = word_at_exec(&ws, 0);
            let b = word_at_exec(&ws, 1);
            let c = word_at_exec(&ws, 2);
            proof {
                assert(rows_view(ws@).len() == ws@.len());
                if 0 < ws@.len() {
                    assert(rows_view(ws@)[0] == ws@[0]@);
                }
                if 1 < ws@.len() {
                    assert(rows_view(ws@)[1] == ws@[1]@);
                }
                if 2 < ws@.len() {
                    assert(rows_view(ws@)[2] == ws@[2]@);
                }
            }
            (a, b, c)
        },
    }
}

/// The position of the first selected row, when a row is selected.
pub fn first_selected(selected: &Vec<bool>) -> (r: Option<usize>)
    ensures
        match r {
            Some(i) => i < selected@.len() && selected@[i as int] && forall|k: int|
                0 <= k < i ==> !selected@[k],
            None => forall|k: int| 0 <= k < selected@.len() ==> !selected@[k],
        },
{
    let mut i: usize = 0;
    while i < selected.len()
        invariant
            i <= selected@.len(),
            forall|k: int| 0 <= k < i ==> !selected@[k],
        decreases selected@.len() - i,
    {
        if selected[i] {
            return Some(i);
        }
        i = i + 1;
    }
    None
}

// ---------------------------------------------------------------------------
// Streamed output
// ---------------------------------------------------------------------------

/// `s` holds no line break.
pub open spec fn no_newline(s: Seq<char>) -> bool {
    forall|i: int| 0 <= i < s.len() ==> s[i] != '\n'
}

/// The text up to and including its last line break; empty when it holds none.
pub open spec fn complete_part(s: Seq<char>) -> Seq<char>
    decreases s.len(),
{
    if s.len() == 0 || s.last() == '\n' {
        s
    } else {
        complete_part(s.drop_last())
    }
}

/// The text after its last line break; all of it when it holds none.
pub open spec fn incomplete_part(s: Seq<char>) -> Seq<char> {
    s.skip(complete_part(s).len() as int)
}

/// A text cut just after its last line break: the first part is empty or
/// ends with a line break, the second holds none, and together they are `s`.
pub proof fn lemma_complete_part(s: Seq<char>)
    ensures
        complete_part(s) + incomplete_part(s) == s,
        complete_part(s) == s.take(complete_part(s).len() as int),
        complete_part(s).len() == 0 || complete_part(s).last() == '\n',
        no_newline(incomplete_part(s)),
    decreases s.len(),
{
    if s.len() == 0 || s.last() == '\n' {
        assert(s.take(s.len() as int) =~= s);
        assert(s.skip(s.len() as int) =~= Seq::<char>::empty());
    } else {
        let d = s.drop_last();
        lemma_complete_part(d);
        let k = complete_part(d).len() as int;
        assert(d.take(k) =~= s.take(k));
        assert(s.skip(k) =~= d.skip(k).push(s.last()));
        assert(complete_part(s) + incomplete_part(s) =~= s);
    }
}

proof fn lemma_complete_part_at(s: Seq<char>, k: int)
    requires
        0 <= k <= s.len(),
        k == 0 || s[k - 1] == '\n',
        forall|j: int| k <= j < s.len() ==> s[j] != '\n',
    ensures
        complete_part(s) == s.take(k),
    decreases s.len(),
{
    if s.len() == k {
        assert(s.take(k) =~= s);
        if k == 0 {
            assert(complete_part(s) == s);
        }
    } else {
        lemma_complete_part_at(s.drop_last(), k);
        assert(s.drop_last().take(k) =~= s.take(k));
    }
}

/// Adds a chunk of output to the pending text and takes from it every
/// complete line: what is returned runs up to the last line break (and is
/// empty when there is none), and what stays pending is the rest, so that
/// nothing is lost or reordered.
pub fn take_complete_lines(pending: &mut String, chunk: &str) -> (ready: String)
    ensures
        ready@ == complete_part(old(pending)@ + chunk@),
        final(pending)@ == incomplete_part(old(pending)@ + chunk@),
        ready@ + final(pending)@ == old(pending)@ + chunk@,
        no_newline(final(pending)@),
        ready@.len() == 0 || ready@.last() == '\n',
{
    let mut all = chars_of(pending.as_str());
    push_str(&mut all, chunk);
    // Position just after the last line break, or 0.
    let mut k: usize = all.len();
    while k > 0 && all[k - 1] != '\n'
        invariant
            k <= all@.len(),
            forall|j: int| k <= j < all@.len() ==> all@[j] != '\n',
        decreases k,
    {
        k = k - 1;
    }
    proof {
        lemma_complete_part_at(all@, k as int);
        lemma_complete_part(all@);
    }
    let ready = sub_chars(&all, 0, k);
    let rest = sub_chars(&all, k, all.len());
    assert(ready@ =~= all@.take(k as int));
    assert(rest@ =~= all@.skip(k as int));
    *pending = string_of(&rest);
    string_of(&ready)
}

/// Takes the first complete line from the pending text, without its line
/// break; nothing when the pending text holds no line break.
pub fn next_line(pending: &mut String) -> (line: Option<String>)
    ensures
        match line {
            Some(l) => old(pending)@ == l@ + seq!['\n'] + final(pending)@ && no_newline(l@),
            None => no_newline(old(pending)@) && final(pending)@ == old(pending)@,
        },
{
    let all = chars_of(pending.as_str());
    let mut k: usize = 0;
    while k < all.len() && all[k] != '\n'
        invariant
            k <= all@.len(),
            forall|j: int| 0 <= j < k ==> all@[j] != '\n',
        decreases all@.len() - k,
    {
        k = k + 1;
    }
    if k == all.len() {
        return None;
    }
    let l = sub_chars(&all, 0, k);
    let rest = sub_chars(&all, k + 1, all.len());
    assert(l@ + seq!['\n'] + rest@ =~= all@);
    *pending = string_of(&rest);
    Some(string_of(&l))
}

/// Adds a chunk of output to the pending text and takes from it, one by one,
/// every line that a line break ends (without the break); what follows the
/// last line break stays pending.
pub fn drain_lines(pending: &mut String, chunk: &str) -> (lines: Vec<String>)
    ensures
        strings_view(lines@) == split_on(old(pending)@ + chunk@, '\n').drop_last(),
        final(pending)@ == split_on(old(pending)@ + chunk@, '\n').last(),
{
    let ghost whole = old(pending)@ + chunk@;
    let mut all = chars_of(pending.as_str());
    push_str(&mut all, chunk);
    *pending = string_of(&all);
    let mut lines: Vec<String> = Vec::new();
    proof {
        lemma_split_on_len(whole, '\n');
        assert(split_on(whole, '\n') =~= strings_view(lines@) + split_on(pending@, '\n'));
    }
    loop
        invariant
            split_on(whole, '\n') == strings_view(lines@) + split_on(pending@, '\n'),
        ensures
            strings_view(lines@) == split_on(whole, '\n').drop_last(),
            pending@ == split_on(whole, '\n').last(),
        decreases pending@.len(),
    {
        let ghost before = pending@;
        let ghost taken = lines@;
        match next_line(pending) {
            Some(l) => {
                proof {
                    assert(l@ + seq!['\n'] + pending@ =~= l@.push('\n') + pending@);
                    lemma_split_on_piece_then_rest(l@, '\n', pending@);
                }
                lines.push(l);
                assert(strings_view(lines@) =~= strings_view(taken).push(l@));
                assert(split_on(whole, '\n') =~= strings_view(lines@) + split_on(pending@, '\n'));
            },
            None => {
                proof {
                    lemma_split_on_without_sep(pending@, '\n');
                    let sv = strings_view(lines@);
                    assert((sv + seq![pending@]).drop_last() =~= sv);
                }
                break;
            },
        }
    }
    lines
}

/// Takes the pending text once output has ended, when it holds more than
/// whitespace; the pending text is then empty.
pub fn take_remaining(pending: &mut String) -> (rest: Option<String>)
    ensures
        match rest {
            Some(r) => r@ == old(pending)@ && trim(r@).len() > 0 && final(pending)@.len() == 0,
            None => trim(old(pending)@).len() == 0 && final(pending)@ == old(pending)@,
        },
{
    let all = chars_of(pending.as_str());
    if trim_chars(&all).len() == 0 {
        return None;
    }
    let r = string_of(&all);
    *pending = String::new();
    Some(r)
}

} // verus!

verus! {

// ---------------------------------------------------------------------------
// Reading a stream chunk by chunk
// ---------------------------------------------------------------------------

/// The whole output, as the concatenation of its chunks.
pub open spec fn joined(chunks: Seq<Seq<char>>) -> Seq<char>
    decreases chunks.len(),
{
    if chunks.len() == 0 {
        Seq::<char>::empty()
    } else {
        joined(chunks.drop_last()) + chunks.last()
    }
}

/// What stays pending after `take_complete_lines` has taken each chunk in turn.
pub open spec fn pending_after(chunks: Seq<Seq<char>>) -> Seq<char>
    decreases chunks.len(),
{
    if chunks.len() == 0 {
        Seq::<char>::empty()
    } else {
        incomplete_part(pending_after(chunks.drop_last()) + chunks.last())
    }
}

/// The text that `take_complete_lines` has handed out after each chunk in turn.
pub open spec fn ready_after(chunks: Seq<Seq<char>>) -> Seq<char>
    decreases chunks.len(),
{
    if chunks.len() == 0 {
        Seq::<char>::empty()
    } else {
        ready_after(chunks.drop_last()) + complete_part(
            pending_after(chunks.drop_last()) + chunks.last(),
        )
    }
}

/// The lines found by parsing, after each chunk, what `take_complete_lines`
/// hands out.
pub open spec fn lines_found(chunks: Seq<Seq<char>>, kind: LineKind) -> Seq<Seq<char>>
    decreases chunks.len(),
{
    if chunks.len() == 0 {
        Seq::<Seq<char>>::empty()
    } else {
        lines_found(chunks.drop_last(), kind) + parsed_output(
            complete_part(pending_after(chunks.drop_last()) + chunks.last()),
            kind,
        )
    }
}

proof fn lemma_chunked_state(chunks: Seq<Seq<char>>, kind: LineKind)
    ensures
        joined(chunks) == ready_after(chunks) + pending_after(chunks),
        ready_after(chunks).len() == 0 || ready_after(chunks).last() == '\n',
        lines_found(chunks, kind) == parsed_output(ready_after(chunks), kind),
    decreases chunks.len(),
{
    if chunks.len() == 0 {
        assert(joined(chunks) =~= ready_after(chunks) + pending_after(chunks));
        lemma_parse_split_at_line_end(Seq::<char>::empty(), Seq::<char>::empty(), kind);
        assert(Seq::<char>::empty() + Seq::<char>::empty() =~= Seq::<char>::empty());
        assert(parsed_output(Seq::<char>::empty(), kind) =~= Seq::<Seq<char>>::empty());
    } else {
        let d = chunks.drop_last();
        lemma_chunked_state(d, kind);
        let r = ready_after(d);
        let p = pending_after(d);
        let all = p + chunks.last();
        let c = complete_part(all);
        lemma_complete_part(all);
        assert(joined(chunks) =~= (r + c) + pending_after(chunks));
        lemma_parse_split_at_line_end(r, c, kind);
        if c.len() > 0 {
            assert((r + c).last() == c.last());
        } else {
            assert(r + c =~= r);
        }
    }
}

/// Reading a stream with `take_complete_lines`, parsing each handed-out part
/// and finally what stays pending, finds exactly the lines of the whole output.
pub proof fn lemma_chunked_reading(chunks: Seq<Seq<char>>, kind: LineKind)
    ensures
        lines_found(chunks, kind) + parsed_output(pending_after(chunks), kind) == parsed_output(
            joined(chunks),
            kind,
        ),
{
    lemma_chunked_state(chunks, kind);
    lemma_parse_split_at_line_end(ready_after(chunks), pending_after(chunks), kind);
}

// ---------------------------------------------------------------------------
// Reading a stream line by line
// ---------------------------------------------------------------------------

/// Lines, each followed by a line break.
pub open spec fn joined_lines(lines: Seq<Seq<char>>) -> Seq<char>
    decreases lines.len(),
{
    if lines.len() == 0 {
        Seq::<char>::empty()
    } else {
        joined_lines(lines.drop_last()) + lines.last().push('\n')
    }
}

/// The lines taken by `drain_lines` after each chunk in turn, and what then
/// stays pending.
pub open spec fn drained_after(chunks: Seq<Seq<char>>) -> (Seq<Seq<char>>, Seq<char>)
    decreases chunks.len(),
{
    if chunks.len() == 0 {
        (Seq::<Seq<char>>::empty(), Seq::<char>::empty())
    } else {
        let prev = drained_after(chunks.drop_last());
        let pieces = split_on(prev.1 + chunks.last(), '\n');
        (prev.0 + pieces.drop_last(), pieces.last())
    }
}

/// The lines found by parsing each of `lines` on its own, in order.
pub open spec fn parsed_each(lines: Seq<Seq<char>>, kind: LineKind) -> Seq<Seq<char>>
    decreases lines.len(),
{
    if lines.len() == 0 {
        Seq::<Seq<char>>::empty()
    } else {
        parsed_each(lines.drop_last(), kind) + parsed_output(lines.last(), kind)
    }
}

proof fn lemma_split_rejoin(s: Seq<char>)
    ensures
        s == joined_lines(split_on(s, '\n').drop_last()) + split_on(s, '\n').last(),
    decreases s.len(),
{
    lemma_split_on_len(s, '\n');
    if s.len() == 0 {
        assert(split_on(s, '\n').drop_last() =~= Seq::<Seq<char>>::empty());
        assert(s =~= Seq::<char>::empty());
        assert(joined_lines(Seq::<Seq<char>>::empty()) + Seq::<char>::empty() =~= s);
    } else {
        let d = s.drop_last();
        lemma_split_rejoin(d);
        lemma_split_on_len(d, '\n');
        let p = split_on(d, '\n');
        if s.last() == '\n' {
            assert(split_on(s, '\n').drop_last() =~= p);
            assert(p =~= p.drop_last().push(p.last()));
            assert(s =~= d.push('\n'));
            assert(joined_lines(p) + Seq::<char>::empty() =~= s);
        } else {
            let q = p.update(p.len() - 1, p.last().push(s.last()));
            assert(q.drop_last() =~= p.drop_last());
            assert(s =~= d.push(s.last()));
            assert(joined_lines(p.drop_last()) + p.last().push(s.last()) =~= s);
        }
    }
}

proof fn lemma_joined_lines_concat(l1: Seq<Seq<char>>, l2: Seq<Seq<char>>)
    ensures
        joined_lines(l1 + l2) == joined_lines(l1) + joined_lines(l2),
    decreases l2.len(),
{
    if l2.len() == 0 {
        assert(l1 + l2 =~= l1);
        assert(joined_lines(l1) + joined_lines(l2) =~= joined_lines(l1));
    } else {
        lemma_joined_lines_concat(l1, l2.drop_last());
        assert((l1 + l2).drop_last() =~= l1 + l2.drop_last());
        assert((l1 + l2).last() == l2.last());
        assert(joined_lines(l1 + l2) =~= joined_lines(l1) + joined_lines(l2));
    }
}

proof fn lemma_parse_trailing_newline(l: Seq<char>, kind: LineKind)
    ensures
        parsed_output(l.push('\n'), kind) == parsed_output(l, kind),
{
    let s = l.push('\n');
    assert(s.drop_last() =~= l);
    assert(split_on(s, '\n') == split_on(l, '\n').push(Seq::<char>::empty()));
    assert(trim(Seq::<char>::empty()) =~= Seq::<char>::empty());
    let t = trimmed_lines(l);
    assert(trimmed_lines(s) =~= t.push(Seq::<char>::empty()));
    assert(!line_kept(kind, Seq::<char>::empty()));
    assert(t.push(Seq::<char>::empty()).drop_last() =~= t);
    assert(kept_lines(t.push(Seq::<char>::empty()), kind) == kept_lines(t, kind));
}

proof fn lemma_parse_lines_then(lines: Seq<Seq<char>>, r: Seq<char>, kind: LineKind)
    ensures
        parsed_output(joined_lines(lines) + r, kind) == parsed_each(lines, kind) + parsed_output(
            r,
            kind,
        ),
    decreases lines.len(),
{
    if lines.len() == 0 {
        assert(joined_lines(lines) + r =~= r);
        assert(parsed_each(lines, kind) + parsed_output(r, kind) =~= parsed_output(r, kind));
    } else {
        let d = lines.drop_last();
        let l = lines.last();
        let r2 = l.push('\n') + r;
        lemma_parse_lines_then(d, r2, kind);
        assert(joined_lines(lines) + r =~= joined_lines(d) + r2);
        lemma_parse_split_at_line_end(l.push('\n'), r, kind);
        lemma_parse_trailing_newline(l, kind);
        assert(parsed_each(lines, kind) + parsed_output(r, kind) =~= parsed_each(d, kind) + (
        parsed_output(l, kind) + parsed_output(r, kind)));
    }
}

proof fn lemma_drained_state(chunks: Seq<Seq<char>>)
    ensures
        joined(chunks) == joined_lines(drained_after(chunks).0) + drained_after(chunks).1,
    decreases chunks.len(),
{
    if chunks.len() == 0 {
        assert(joined(chunks) =~= joined_lines(drained_after(chunks).0) + drained_after(
            chunks,
        ).1);
    } else {
        let d = chunks.drop_last();
        lemma_drained_state(d);
        let prev = drained_after(d);
        let s = prev.1 + chunks.last();
        let pieces = split_on(s, '\n');
        lemma_split_on_len(s, '\n');
        lemma_split_rejoin(s);
        lemma_joined_lines_concat(prev.0, pieces.drop_last());
        let a = joined_lines(prev.0);
        let b = joined_lines(pieces.drop_last());
        assert(joined(chunks) == joined(d) + chunks.last());
        assert(joined(d) + chunks.last() =~= a + s);
        assert(a + s == a + (b + pieces.last()));
        assert(a + (b + pieces.last()) =~= (a + b) + pieces.last());
        assert(drained_after(chunks).0 == prev.0 + pieces.drop_last());
        assert(drained_after(chunks).1 == pieces.last());
    }
}

/// Reading a stream with `drain_lines`, parsing each line taken on its own
/// and finally what stays pending, finds exactly the lines of the whole output.
pub proof fn lemma_line_by_line_reading(chunks: Seq<Seq<char>>, kind: LineKind)
    ensures
        parsed_each(drained_after(chunks).0, kind) + parsed_output(drained_after(chunks).1, kind)
            == parsed_output(joined(chunks), kind),
{
    lemma_drained_state(chunks);
    lemma_parse_lines_then(drained_after(chunks).0, drained_after(chunks).1, kind);
}

} // verus!

verus! {

// ---------------------------------------------------------------------------
// Laws of result messages and result rows
// ---------------------------------------------------------------------------

/// The number that decimal digits spell.
pub open spec fn digits_value(ds: Seq<char>) -> int
    decreases ds.len(),
{
    if ds.len() == 0 {
        0
    } else {
        digits_value(ds.drop_last()) * 10 + (ds.last() as int - 48)
    }
}

/// The decimal digits of `n` are digits, without a leading zero except for
/// zero itself, and spell `n`.
pub proof fn lemma_digits_spell_number(n: nat)
    ensures
        digits_of(n).len() > 0,
        forall|i: int| 0 <= i < digits_of(n).len() ==> '0' <= #[trigger] digits_of(n)[i] <= '9',
        n > 0 ==> digits_of(n)[0] != '0',
        digits_value(digits_of(n)) == n,
    decreases n,
{
    let r = n % 10;
    assert(digit_char(r) as int == 48 + r);
    if n < 10 {
        assert(digits_of(n).drop_last() =~= Seq::<char>::empty());
        assert(digits_of(n).last() == digit_char(n));
        assert(digit_char(n) as int == 48 + n);
        assert(digits_value(Seq::<char>::empty()) == 0);
        assert(digits_value(digits_of(n)) == digits_value(Seq::<char>::empty()) * 10 + (
        digit_char(n) as int - 48));
    }
    if n >= 10 {
        lemma_digits_spell_number(n / 10);
        let d = digits_of(n / 10);
        let ds = digits_of(n);
        assert(ds.drop_last() =~= d);
        assert(ds.last() == digit_char(r));
        assert(n == (n / 10) * 10 + r);
        assert(digits_value(ds) == digits_value(d) * 10 + (ds.last() as int - 48));
        assert(digits_value(d) * 10 == (n / 10) * 10);
        assert forall|i: int| 0 <= i < ds.len() implies '0' <= #[trigger] ds[i] <= '9' by {
            if i < d.len() {
                assert(ds[i] == d[i]);
            }
        }
        assert(ds[0] == d[0]);
    }
}

/// A failed command's message holds its exit code in decimal, with a minus
/// sign exactly when the code is negative; a code of zero reads `Done`.
pub proof fn lemma_result_text(code: i32)
    ensures
        code == 0 ==> result_text(Some(code)) == "\n[Done]"@,
        code != 0 ==> result_text(Some(code)) == "\n[Failed \u{2014} exit code "@ + decimal(
            code as int,
        ) + "]"@,
        code < 0 ==> decimal(code as int)[0] == '-' && digits_value(
            decimal(code as int).skip(1),
        ) == -code,
        code >= 0 ==> digits_value(decimal(code as int)) == code,
{
    if code < 0 {
        lemma_digits_spell_number((-(code as int)) as nat);
        assert(decimal(code as int).skip(1) =~= digits_of((-(code as int)) as nat));
    } else {
        lemma_digits_spell_number(code as nat);
    }
}

proof fn lemma_find_from_first(s: Seq<char>, pat: Seq<char>, i: int)
    requires
        0 <= i,
    ensures
        find_from(s, pat, i) == -1 || i <= find_from(s, pat, i),
        forall|j: int|
            i <= j && (find_from(s, pat, i) == -1 || j < find_from(s, pat, i)) ==> !matches_at(
                s,
                pat,
                j,
            ),
    decreases s.len() + 1 - i,
{
    if !(i + pat.len() > s.len()) && !matches_at(s, pat, i) {
        lemma_find_from_first(s, pat, i + 1);
    }
}

/// A search-result row `name : description` splits at its first ` : `: the
/// name, the separator and the description make up the row, and the name
/// holds no ` : `. Any other row shows its first three words.
pub proof fn lemma_row_columns(v: Seq<char>)
    ensures
        contains(v, " : "@) ==> row_columns(v).0 + " : "@ + row_columns(v).1 == v && !contains(
            row_columns(v).0,
            " : "@,
        ) && row_columns(v).2.len() == 0,
        !contains(v, " : "@) ==> row_columns(v) == (word_at(v, 0), word_at(v, 1), word_at(v, 2)),
{
    reveal_strlit(" : ");
    let pat = " : "@;
    lemma_find_from_bounds(v, pat, 0);
    lemma_find_from_first(v, pat, 0);
    let i = find_from(v, pat, 0);
    if contains(v, pat) {
        let k = choose|k: int| matches_at(v, pat, k);
        assert(i >= 0);
        let name = v.take(i);
        assert(name + pat + v.skip(i + 3) =~= v) by {
            assert(v.subrange(i, i + 3) == pat);
        }
        assert forall|m: int| !matches_at(name, pat, m) by {
            if matches_at(name, pat, m) {
                assert(v.subrange(m, m + 3) =~= name.subrange(m, m + 3));
                assert(matches_at(v, pat, m));
            }
        }
    } else {
        if i >= 0 {
            assert(matches_at(v, pat, i));
        }
    }
}

/// Commands that change the system run dnf through pkexec; only `search`
/// and `list` run dnf directly. Either way the given arguments are passed
/// on unchanged, after `dnf` when pkexec runs it.
pub proof fn lemma_dnf_request(args: Seq<Seq<char>>)
    ensures
        (dnf_request_spec(args).0 == "dnf"@) == (args.len() > 0 && (args[0] == "search"@
            || args[0] == "list"@)),
        dnf_request_spec(args).0 == "dnf"@ ==> dnf_request_spec(args).1 == args,
        dnf_request_spec(args).0 != "dnf"@ ==> dnf_request_spec(args).0 == "pkexec"@
            && dnf_request_spec(args).1 == seq!["dnf"@] + args,
{
    reveal_strlit("dnf");
    reveal_strlit("pkexec");
    assert("dnf"@ != "pkexec"@) by {
        assert("dnf"@.len() != "pkexec"@.len());
    }
}

} // verus!

//! Process requests and the parsing of command output (dnf, docker, distrobox).
use vstd::prelude::*;
use crate::text::{
    lemma_split_on_after_sep, lemma_split_on_without_sep, lemma_trim_idempotent, chars_equal, chars_of, contains, contains_chars, first_word, rows_view, split_chars,
    split_on, starts_with, starts_with_chars, string_of, strings_view, sub_chars, trim,
    trim_chars, words, words_of,
};

verus! {

/// Configuration for a process to run.
pub struct ProcessRequest {
    pub program: String,
    pub args: Vec<String>,
}

/// The texts of a slice of string slices.
pub open spec fn strs_view(v: Seq<&str>) -> Seq<Seq<char>> {
    v.map_values(|s: &str| s@)
}

impl ProcessRequest {
    /// A request to run `program` with `args`.
    pub fn new(program: &str, args: &[&str]) -> (r: Self)
        ensures
            r.program@ == program@,
            strings_view(r.args@) == strs_view(args@),
    {
        let mut out: Vec<String> = Vec::new();
        let mut i: usize = 0;
        while i < args.len()
            invariant
                i <= args@.len(),
                strings_view(out@) == strs_view(args@.take(i as int)),
            decreases args@.len() - i,
        {
            let a: &str = args[i];
            let s = string_of(&chars_of(a));
            let ghost before = out@;
            out.push(s);
            assert(strings_view(out@) =~= strings_view(before).push(a@));
            assert(strs_view(args@.take(i + 1)) =~= strs_view(args@.take(i as int)).push(a@));
            i = i + 1;
        }
        assert(args@.take(args@.len() as int) =~= args@);
        ProcessRequest { program: string_of(&chars_of(program)), args: out }
    }
}

/// One event from a running process: a chunk of its output, or its end
/// with the exit code when there is one.
pub enum ProcessMessage {
    Output { is_stdout: bool, text: String },
    Done(Option<i32>),
}

/// How many events of a running process the main loop handles in one turn
/// before it yields.
pub const MESSAGES_PER_TURN: usize = 32;

/// What the main loop does with one event of a running process.
pub enum PollAction {
    /// Hand `text` to the output callback; `is_list` says whether it is list data.
    Output { is_list: bool, text: String },
    /// Hand the exit code to the completion callback and stop polling.
    Finish(Option<i32>),
}

/// Routes one process event: standard output counts as list data exactly
/// when the command is a list command; standard error never does.
pub fn route_message(is_list_cmd: bool, msg: ProcessMessage) -> (r: PollAction)
    ensures
        match msg {
            ProcessMessage::Output { is_stdout, text } => r == PollAction::Output {
                is_list: is_stdout && is_list_cmd,
                text,
            },
            ProcessMessage::Done(code) => r == PollAction::Finish(code),
        },
{
    match msg {
        ProcessMessage::Output { is_stdout, text } => {
            if is_stdout {
                PollAction::Output { is_list: is_list_cmd, text }
            } else {
                PollAction::Output { is_list: false, text }
            }
        },
        ProcessMessage::Done(code) => PollAction::Finish(code),
    }
}

/// The command outputs that this module reads, each with its own line filter.
#[derive(Clone, Copy)]
pub enum LineKind {
    DnfSearch,
    DnfList,
    Listing,
    DockerPs,
    DistroboxList,
}

/// The lines of `data`, each without surrounding whitespace. Lines are the
/// pieces between `\n`: the `\r` of a `\r\n` ending is whitespace and goes
/// with the trim, and the empty piece after a final line break passes no filter.
pub open spec fn trimmed_lines(data: Seq<char>) -> Seq<Seq<char>> {
    split_on(data, '\n').map_values(|l: Seq<char>| trim(l))
}

/// Whether a trimmed line is kept when reading output of the given kind.
pub open spec fn line_kept(kind: LineKind, l: Seq<char>) -> bool {
    match kind {
        LineKind::DnfSearch => {
            &&& l.len() > 0
            &&& !starts_with(l, "="@)
            &&& !starts_with(l, "Last metadata expiration"@)
            &&& contains(l, " : "@)
        },
        LineKind::DnfList => {
            &&& l.len() > 0
            &&& !starts_with(l, "Available Packages"@)
            &&& !starts_with(l, "Installed Packages"@)
            &&& !starts_with(l, "Last metadata"@)
            &&& words(l).len() >= 3
            &&& contains(l, "."@)
        },
        LineKind::Listing => {
            &&& l.len() > 0
            &&& !starts_with(l, "repo id"@)
            &&& !starts_with(l, "Repo-id"@)
            &&& !starts_with(l, "CONTAINER"@)
            &&& !starts_with(l, "ID"@)
        },
        LineKind::DockerPs => l.len() > 0,
        LineKind::DistroboxList => {
            &&& l.len() > 0
            &&& !starts_with(l, "ID"@)
            &&& !starts_with(l, "---"@)
        },
    }
}

/// The lines among `lines` that are kept for the given kind, in order.
pub open spec fn kept_lines(lines: Seq<Seq<char>>, kind: LineKind) -> Seq<Seq<char>>
    decreases lines.len(),
{
    if lines.len() == 0 {
        lines
    } else {
        let r = kept_lines(lines.drop_last(), kind);
        if line_kept(kind, lines.last()) {
            r.push(lines.last())
        } else {
            r
        }
    }
}

/// The result of reading output `data` of the given kind: its trimmed lines
/// that pass the kind's filter.
pub open spec fn parsed_output(data: Seq<char>, kind: LineKind) -> Seq<Seq<char>> {
    kept_lines(trimmed_lines(data), kind)
}

/// The trimmed lines of `data`.
fn trimmed_lines_of(data: &str) -> (r: Vec<Vec<char>>)
    ensures
        rows_view(r@) == trimmed_lines(data@),
{
    let chars = chars_of(data);
    let lines = split_chars(&chars, '\n');
    let mut out: Vec<Vec<char>> = Vec::new();
    let mut i: usize = 0;
    while i < lines.len()
        invariant
            i <= lines@.len(),
            rows_view(lines@) == split_on(data@, '\n'),
            rows_view(out@) == trimmed_lines(data@).take(i as int),
        decreases lines@.len() - i,
    {
        let t = trim_chars(&lines[i]);
        let ghost before = out@;
        out.push(t);
        assert(rows_view(lines@)[i as int] == lines@[i as int]@);
        assert(split_on(data@, '\n')[i as int] == lines@[i as int]@);
        assert(trimmed_lines(data@)[i as int] == t@);
        assert(rows_view(out@) =~= rows_view(before).push(t@));
        assert(rows_view(out@) =~= trimmed_lines(data@).take(i + 1));
        i = i + 1;
    }
    assert(rows_view(out@) =~= trimmed_lines(data@));
    out
}

/// Whether the trimmed line `l` is kept for the given kind.
fn line_is_kept(kind: LineKind, l: &Vec<char>) -> (b: bool)
    ensures
        b == line_kept(kind, l@),
{
    if l.len() == 0 {
        return false;
    }
    match kind {
        LineKind::DnfSearch => {
            !starts_with_chars(l, &chars_of("=")) && !starts_with_chars(
                l,
                &chars_of("Last metadata expiration"),
            ) && contains_chars(l, &chars_of(" : "))
        },
        LineKind::DnfList => {
            !starts_with_chars(l, &chars_of("Available Packages")) && !starts_with_chars(
                l,
                &chars_of("Installed Packages"),
            ) && !starts_with_chars(l, &chars_of("Last metadata")) && words_of(l).len() >= 3
                && contains_chars(l, &chars_of("."))
        },
        LineKind::Listing => {
            !starts_with_chars(l, &chars_of("repo id")) && !starts_with_chars(
                l,
                &chars_of("Repo-id"),
            ) && !starts_with_chars(l, &chars_of("CONTAINER")) && !starts_with_chars(
                l,
                &chars_of("ID"),
            )
        },
        LineKind::DockerPs => true,
        LineKind::DistroboxList => {
            !starts_with_chars(l, &chars_of("ID")) && !starts_with_chars(l, &chars_of("---"))
        },
    }
}

/// The trimmed lines of `data` that pass the filter of `kind`, as strings.
pub fn parse_lines(data: &str, kind: LineKind) -> (r: Vec<String>)
    ensures
        strings_view(r@) == parsed_output(data@, kind),
{
    let lines = trimmed_lines_of(data);
    let mut out: Vec<String> = Vec::new();
    let mut i: usize = 0;
    while i < lines.len()
        invariant
            i <= lines@.len(),
            rows_view(lines@) == trimmed_lines(data@),
            strings_view(out@) == kept_lines(trimmed_lines(data@).take(i as int), kind),
        decreases lines@.len() - i,
    {
        let ghost before = out@;
        let ghost pre = trimmed_lines(data@).take(i + 1);
        assert(rows_view(lines@)[i as int] == lines@[i as int]@);
        assert(pre.drop_last() =~= trimmed_lines(data@).take(i as int));
        if line_is_kept(kind, &lines[i]) {
            out.push(string_of(&lines[i]));
            assert(strings_view(out@) =~= strings_view(before).push(lines@[i as int]@));
        }
        i = i + 1;
    }
    assert(trimmed_lines(data@).take(lines@.len() as int) =~= trimmed_lines(data@));
    out
}

/// Parse dnf search output: skip lines starting with "=" and empty lines.
pub fn parse_dnf_search_output(data: &str) -> (r: Vec<String>)
    ensures
        strings_view(r@) == parsed_output(data@, LineKind::DnfSearch),
{
    parse_lines(data, LineKind::DnfSearch)
}

/// Parse dnf list output: package lines with at least three columns and a dot.
pub fn parse_dnf_list_output(data: &str) -> (r: Vec<String>)
    ensures
        strings_view(r@) == parsed_output(data@, LineKind::DnfList),
{
    parse_lines(data, LineKind::DnfList)
}

/// Parse generic list output (repos, drivers, etc.).
pub fn parse_list_output(data: &str) -> (r: Vec<String>)
    ensures
        strings_view(r@) == parsed_output(data@, LineKind::Listing),
{
    parse_lines(data, LineKind::Listing)
}

/// Parse docker ps output (tab-separated: name, status, image).
pub fn parse_docker_ps_output(data: &str) -> (r: Vec<String>)
    ensures
        strings_view(r@) == parsed_output(data@, LineKind::DockerPs),
{
    parse_lines(data, LineKind::DockerPs)
}

/// Parse distrobox list output (pipe-separated columns).
pub fn parse_distrobox_list_output(data: &str) -> (r: Vec<String>)
    ensures
        strings_view(r@) == parsed_output(data@, LineKind::DistroboxList),
{
    parse_lines(data, LineKind::DistroboxList)
}

/// The position of the last `c` in `s`, or -1 when `s` holds none.
pub open spec fn last_index_of(s: Seq<char>, c: char) -> int
    decreases s.len(),
{
    if s.len() == 0 {
        -1
    } else if s.last() == c {
        s.len() - 1
    } else {
        last_index_of(s.drop_last(), c)
    }
}

/// `s` without its final `.`-part: what comes before its last dot, or `s`
/// itself when it holds no dot.
pub open spec fn without_last_dot_part(s: Seq<char>) -> Seq<char> {
    if last_index_of(s, '.') >= 0 {
        s.take(last_index_of(s, '.'))
    } else {
        s
    }
}

/// The package name in a dnf result line `name.arch : summary`: its first
/// word without the final `.arch` part (a name may itself hold dots).
pub open spec fn package_name_of(line: Seq<char>) -> Seq<char> {
    without_last_dot_part(first_word(line))
}

proof fn lemma_last_index_of(s: Seq<char>, c: char, k: int)
    requires
        -1 <= k < s.len(),
        k >= 0 ==> s[k] == c,
        forall|j: int| k < j < s.len() ==> s[j] != c,
    ensures
        last_index_of(s, c) == k,
    decreases s.len(),
{
    if s.len() > 0 && s.last() != c {
        lemma_last_index_of(s.drop_last(), c, k);
    }
}

/// The first word of `v`, or the empty text.
fn first_word_of(v: &Vec<char>) -> (r: Vec<char>)
    ensures
        r@ == first_word(v@),
{
    let ws = words_of(v);
    if ws.len() > 0 {
        assert(rows_view(ws@)[0] == ws@[0]@);
        sub_chars(&ws[0], 0, ws[0].len())
    } else {
        Vec::new()
    }
}

/// Extract package name from a dnf search result line.
/// e.g. "vim.x86_64 : Vi IMproved" -> "vim",
/// "python3.11.x86_64 : Python 3.11" -> "python3.11"
pub fn extract_package_name(line: &str) -> (r: String)
    ensures
        r@ == package_name_of(line@),
{
    let w = first_word_of(&chars_of(line));
    let mut k: usize = w.len();
    while k > 0 && w[k - 1] != '.'
        invariant
            k <= w@.len(),
            forall|j: int| k <= j < w@.len() ==> w@[j] != '.',
        decreases k,
    {
        k = k - 1;
    }
    if k == 0 {
        proof {
            lemma_last_index_of(w@, '.', -1);
        }
        string_of(&w)
    } else {
        proof {
            lemma_last_index_of(w@, '.', k - 1);
        }
        string_of(&sub_chars(&w, 0, k - 1))
    }
}

/// Extract repo id from a dnf repolist line.
/// e.g. "fedora    Fedora 40 - aarch64    enabled" -> "fedora"
pub fn extract_repo_id(line: &str) -> (r: String)
    ensures
        r@ == first_word(line@),
{
    string_of(&first_word_of(&chars_of(line)))
}

/// A repolist line says "enabled" when its last word is `enabled`.
pub open spec fn says_enabled(line: Seq<char>) -> bool {
    words(line).len() > 0 && words(line).last() == "enabled"@
}

/// Check if a repo line says "enabled".
pub fn repo_is_enabled(line: &str) -> (b: bool)
    ensures
        b == says_enabled(line@),
{
    let ws = words_of(&chars_of(line));
    if ws.len() == 0 {
        return false;
    }
    assert(rows_view(ws@)[ws@.len() - 1] == ws@[ws@.len() - 1]@);
    chars_equal(&ws[ws.len() - 1], &chars_of("enabled"))
}

/// Extract container name from a docker ps line (tab-separated, first column).
pub fn extract_docker_name(line: &str) -> (r: String)
    ensures
        r@ == trim(split_on(line@, '\t')[0]),
{
    let parts = split_chars(&chars_of(line), '\t');
    assert(rows_view(parts@)[0] == parts@[0]@);
    string_of(&trim_chars(&parts[0]))
}

/// The container name in a distrobox list line: the second `|`-separated
/// column, or else the first word, trimmed.
pub open spec fn distrobox_name_of(line: Seq<char>) -> Seq<char> {
    let cols = split_on(line, '|');
    if cols.len() > 1 {
        trim(cols[1])
    } else {
        trim(first_word(line))
    }
}

/// Extract container name from a distrobox list line (pipe-separated, first column after header).
pub fn extract_distrobox_name(line: &str) -> (r: String)
    ensures
        r@ == distrobox_name_of(line@),
{
    let chars = chars_of(line);
    let cols = split_chars(&chars, '|');
    if cols.len() > 1 {
        assert(rows_view(cols@)[1] == cols@[1]@);
        string_of(&trim_chars(&cols[1]))
    } else {
        string_of(&trim_chars(&first_word_of(&chars)))
    }
}

} // verus!

verus! {

proof fn lemma_kept_lines_members(lines: Seq<Seq<char>>, kind: LineKind)
    ensures
        kept_lines(lines, kind).len() <= lines.len(),
        forall|i: int|
            0 <= i < kept_lines(lines, kind).len() ==> line_kept(kind, #[trigger] kept_lines(
                lines,
                kind,
            )[i]) && exists|j: int| 0 <= j < lines.len() && lines[j] == kept_lines(lines, kind)[i],
    decreases lines.len(),
{
    if lines.len() > 0 {
        lemma_kept_lines_members(lines.drop_last(), kind);
        let r = kept_lines(lines.drop_last(), kind);
        assert forall|i: int| 0 <= i < kept_lines(lines, kind).len() implies line_kept(
            kind,
            #[trigger] kept_lines(lines, kind)[i],
        ) && exists|j: int| 0 <= j < lines.len() && lines[j] == kept_lines(lines, kind)[i] by {
            if i < r.len() {
                assert(kept_lines(lines, kind)[i] == r[i]);
                let j = choose|j: int| 0 <= j < lines.drop_last().len() && lines.drop_last()[j] == r[i];
                assert(lines[j] == r[i]);
            } else {
                assert(kept_lines(lines, kind)[i] == lines.last());
                assert(lines[lines.len() - 1] == lines.last());
            }
        }
    }
}

/// Every line that a parse returns is non-empty, has no surrounding
/// whitespace, and passes the filter of its kind.
pub proof fn lemma_parsed_lines_clean(data: Seq<char>, kind: LineKind)
    ensures
        forall|i: int|
            0 <= i < parsed_output(data, kind).len() ==> {
                let l = #[trigger] parsed_output(data, kind)[i];
                &&& l.len() > 0
                &&& trim(l) == l
                &&& line_kept(kind, l)
            },
{
    let lines = trimmed_lines(data);
    lemma_kept_lines_members(lines, kind);
    assert forall|i: int| 0 <= i < parsed_output(data, kind).len() implies {
        let l = #[trigger] parsed_output(data, kind)[i];
        &&& l.len() > 0
        &&& trim(l) == l
        &&& line_kept(kind, l)
    } by {
        let l = parsed_output(data, kind)[i];
        let j = choose|j: int| 0 <= j < lines.len() && lines[j] == l;
        lemma_trim_idempotent(split_on(data, '\n')[j]);
    }
}

} // verus!

verus! {

proof fn lemma_kept_lines_concat(l1: Seq<Seq<char>>, l2: Seq<Seq<char>>, kind: LineKind)
    ensures
        kept_lines(l1 + l2, kind) == kept_lines(l1, kind) + kept_lines(l2, kind),
    decreases l2.len(),
{
    if l2.len() == 0 {
        assert(l1 + l2 =~= l1);
        assert(kept_lines(l1, kind) + kept_lines(l2, kind) =~= kept_lines(l1, kind));
    } else {
        lemma_kept_lines_concat(l1, l2.drop_last(), kind);
        assert((l1 + l2).drop_last() =~= l1 + l2.drop_last());
        assert((l1 + l2).last() == l2.last());
        let k1 = kept_lines(l1, kind);
        let k2 = kept_lines(l2.drop_last(), kind);
        if line_kept(kind, l2.last()) {
            assert((k1 + k2).push(l2.last()) =~= k1 + k2.push(l2.last()));
        }
    }
}

/// Output cut after a line break parses as the two parts parsed one after
/// the other, so that reading a stream chunk by chunk at line boundaries
/// (see `take_complete_lines`) finds the same lines as reading it whole.
pub proof fn lemma_parse_split_at_line_end(a: Seq<char>, b: Seq<char>, kind: LineKind)
    requires
        a.len() == 0 || a.last() == '\n',
    ensures
        parsed_output(a + b, kind) == parsed_output(a, kind) + parsed_output(b, kind),
{
    let e = Seq::<Seq<char>>::empty();
    assert(!line_kept(kind, Seq::<char>::empty()));
    assert(trim(Seq::<char>::empty()) =~= Seq::<char>::empty());
    if a.len() == 0 {
        assert(a + b =~= b);
        assert(split_on(a, '\n') == seq![Seq::<char>::empty()]);
        assert(trimmed_lines(a) =~= seq![Seq::<char>::empty()]);
        assert(seq![Seq::<char>::empty()].drop_last() =~= e);
        assert(seq![Seq::<char>::empty()].last() == Seq::<char>::empty());
        assert(kept_lines(e, kind) == e);
        assert(kept_lines(seq![Seq::<char>::empty()], kind) == e);
        assert(parsed_output(a, kind) =~= e);
        assert(parsed_output(a, kind) + parsed_output(b, kind) =~= parsed_output(b, kind));
    } else {
        let x = a.drop_last();
        assert(x.push('\n') =~= a);
        lemma_split_on_after_sep(x, '\n', b);
        lemma_split_on_after_sep(x, '\n', Seq::<char>::empty());
        assert(a + Seq::<char>::empty() =~= a);
        let px = split_on(x, '\n');
        let pb = split_on(b, '\n');
        let tx = px.map_values(|l: Seq<char>| trim(l));
        let tb = pb.map_values(|l: Seq<char>| trim(l));
        assert(trimmed_lines(a + b) =~= tx + tb);
        assert(split_on(Seq::<char>::empty(), '\n') == seq![Seq::<char>::empty()]);
        assert(trimmed_lines(a) =~= tx.push(Seq::<char>::empty()));
        lemma_kept_lines_concat(tx, tb, kind);
        assert(tx.push(Seq::<char>::empty()).drop_last() =~= tx);
        assert(parsed_output(a, kind) == kept_lines(tx, kind));
    }
}

} // verus!

verus! {

// ---------------------------------------------------------------------------
// What each reader keeps of a single line
// ---------------------------------------------------------------------------

proof fn lemma_single_line(data: Seq<char>, kind: LineKind)
    requires
        forall|i: int| 0 <= i < data.len() ==> data[i] != '\n',
    ensures
        parsed_output(data, kind) == if line_kept(kind, trim(data)) {
            seq![trim(data)]
        } else {
            Seq::<Seq<char>>::empty()
        },
{
    lemma_split_on_without_sep(data, '\n');
    let t = trimmed_lines(data);
    assert(t =~= seq![trim(data)]);
    assert(t.drop_last() =~= Seq::<Seq<char>>::empty());
    assert(t.last() == trim(data));
    assert(kept_lines(Seq::<Seq<char>>::empty(), kind) == Seq::<Seq<char>>::empty());
    if line_kept(kind, trim(data)) {
        assert(Seq::<Seq<char>>::empty().push(trim(data)) =~= seq![trim(data)]);
    }
}

/// A line of dnf search output is returned, trimmed, exactly when it is
/// non-empty after trimming, holds ` : `, and starts neither with `=` nor
/// with `Last metadata expiration`, whatever else it holds.
pub proof fn lemma_dnf_search_line(line: Seq<char>)
    requires
        forall|i: int| 0 <= i < line.len() ==> line[i] != '\n',
    ensures
        parsed_output(line, LineKind::DnfSearch) == if trim(line).len() > 0 && contains(
            trim(line),
            " : "@,
        ) && !starts_with(trim(line), "="@) && !starts_with(
            trim(line),
            "Last metadata expiration"@,
        ) {
            seq![trim(line)]
        } else {
            Seq::<Seq<char>>::empty()
        },
{
    lemma_single_line(line, LineKind::DnfSearch);
}

/// A line of dnf list output is returned, trimmed, exactly when it has at
/// least three words, holds a dot, and starts with none of the headers
/// `Available Packages`, `Installed Packages`, `Last metadata`.
pub proof fn lemma_dnf_list_line(line: Seq<char>)
    requires
        forall|i: int| 0 <= i < line.len() ==> line[i] != '\n',
    ensures
        parsed_output(line, LineKind::DnfList) == if trim(line).len() > 0 && words(trim(line)).len()
            >= 3 && contains(trim(line), "."@) && !starts_with(
            trim(line),
            "Available Packages"@,
        ) && !starts_with(trim(line), "Installed Packages"@) && !starts_with(
            trim(line),
            "Last metadata"@,
        ) {
            seq![trim(line)]
        } else {
            Seq::<Seq<char>>::empty()
        },
{
    lemma_single_line(line, LineKind::DnfList);
}

/// A line of repository or driver listing is returned, trimmed, exactly when
/// it is non-empty after trimming and does not start with `repo id`,
/// `Repo-id`, `CONTAINER` or `ID`; what it holds further on does not matter.
pub proof fn lemma_listing_line(line: Seq<char>)
    requires
        forall|i: int| 0 <= i < line.len() ==> line[i] != '\n',
    ensures
        parsed_output(line, LineKind::Listing) == if trim(line).len() > 0 && !starts_with(
            trim(line),
            "repo id"@,
        ) && !starts_with(trim(line), "Repo-id"@) && !starts_with(trim(line), "CONTAINER"@)
            && !starts_with(trim(line), "ID"@) {
            seq![trim(line)]
        } else {
            Seq::<Seq<char>>::empty()
        },
{
    lemma_single_line(line, LineKind::Listing);
}

/// A line of docker ps output is returned, trimmed, exactly when it is
/// non-empty after trimming.
pub proof fn lemma_docker_ps_line(line: Seq<char>)
    requires
        forall|i: int| 0 <= i < line.len() ==> line[i] != '\n',
    ensures
        parsed_output(line, LineKind::DockerPs) == if trim(line).len() > 0 {
            seq![trim(line)]
        } else {
            Seq::<Seq<char>>::empty()
        },
{
    lemma_single_line(line, LineKind::DockerPs);
}

/// A line of distrobox list output is returned, trimmed, exactly when it is
/// non-empty after trimming and starts neither with `ID` nor with `---`.
pub proof fn lemma_distrobox_line(line: Seq<char>)
    requires
        forall|i: int| 0 <= i < line.len() ==> line[i] != '\n',
    ensures
        parsed_output(line, LineKind::DistroboxList) == if trim(line).len() > 0 && !starts_with(
            trim(line),
            "ID"@,
        ) && !starts_with(trim(line), "---"@) {
            seq![trim(line)]
        } else {
            Seq::<Seq<char>>::empty()
        },
{
    lemma_single_line(line, LineKind::DistroboxList);
}

} // verus!

verus! {

proof fn lemma_last_index_of_props(s: Seq<char>, c: char)
    ensures
        -1 <= last_index_of(s, c) < s.len(),
        last_index_of(s, c) >= 0 ==> s[last_index_of(s, c)] == c,
        forall|j: int| last_index_of(s, c) < j < s.len() ==> s[j] != c,
    decreases s.len(),
{
    if s.len() > 0 && s.last() != c {
        lemma_last_index_of_props(s.drop_last(), c);
        assert forall|j: int| last_index_of(s, c) < j < s.len() implies s[j] != c by {
            if j < s.len() - 1 {
                assert(s[j] == s.drop_last()[j]);
            }
        }
    }
}

/// The package name is the first word of the line up to its last dot: the
/// word is the name, then (when the word holds a dot) a dot and an
/// architecture that holds no dot. A word without a dot is the name whole.
pub proof fn lemma_package_name_shape(line: Seq<char>)
    ensures
        package_name_of(line).len() <= first_word(line).len(),
        first_word(line).take(package_name_of(line).len() as int) == package_name_of(line),
        (package_name_of(line) == first_word(line) && forall|i: int|
            0 <= i < first_word(line).len() ==> first_word(line)[i] != '.') || (
        package_name_of(line).len() < first_word(line).len() && first_word(
            line,
        )[package_name_of(line).len() as int] == '.' && forall|j: int|
            package_name_of(line).len() < j < first_word(line).len() ==> first_word(line)[j]
                != '.'),
{
    let w = first_word(line);
    lemma_last_index_of_props(w, '.');
    if last_index_of(w, '.') < 0 {
        assert(w.take(w.len() as int) =~= w);
    }
}

} // verus!

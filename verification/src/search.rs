//! The file-search tools: where they look, how matches are ordered and
//! capped, and how results are reported. Walking the file system is the
//! caller's part.
use vstd::prelude::*;
use crate::tasks::Timestamp;
use crate::text::{chars_of, decimal, push_decimal, push_str};
use crate::tools::{error_view, success_view, ToolOutput, ToolOutputView};

verus! {

broadcast use vstd::string::group_string_axioms;

/// Joining path `part` onto `base` as `std::path::Path::join` documents it on
/// Unix: an absolute `part` (starting with `/`) replaces `base`; otherwise a `/`
/// is put between them unless `base` is empty or already ends with one.
pub open spec fn joined_path(base: Seq<char>, part: Seq<char>) -> Seq<char> {
    if part.len() > 0 && part[0] == '/' {
        part
    } else if base.len() == 0 || base.last() == '/' {
        base + part
    } else {
        base + "/"@ + part
    }
}

/// Joins two paths.
///
/// Calls `std::path::Path::join` and reads the result back as UTF-8 text with
/// `to_string_lossy`; both inputs are UTF-8, so nothing is lost. The contract is
/// std's documented rule for Unix paths (see [`joined_path`]).
#[verifier::external_body]
fn path_join(base: &str, part: &str) -> (r: String)
    ensures
        r@ == joined_path(base@, part@),
{
    std::path::Path::new(base).join(part).to_string_lossy().into_owned()
}

/// The directory a search runs in: the given path when it is absolute, the
/// given path under the working directory when it is relative, else the
/// working directory.
pub open spec fn search_base(cwd: Seq<char>, path: Option<Seq<char>>) -> Seq<char> {
    match path {
        Some(p) => if p.len() > 0 && p[0] == '/' {
            p
        } else {
            joined_path(cwd, p)
        },
        None => cwd,
    }
}

/// The directory a search runs in (see [`search_base`]).
pub fn resolve_base(cwd: &str, path: Option<&str>) -> (r: String)
    ensures
        r@ == search_base(cwd@, match path {
            Some(p) => Some(p@),
            None => None,
        }),
{
    match path {
        Some(p) => {
            let cs = chars_of(p);
            if cs.len() > 0 && cs[0] == '/' {
                p.to_owned()
            } else {
                path_join(cwd, p)
            }
        },
        None => cwd.to_owned(),
    }
}

/// Lines joined with `\n` between them.
pub open spec fn join_lines(lines: Seq<Seq<char>>) -> Seq<char>
    decreases lines.len(),
{
    if lines.len() == 0 {
        Seq::empty()
    } else if lines.len() == 1 {
        lines[0]
    } else {
        join_lines(lines.drop_last()) + "\n"@ + lines.last()
    }
}

/// Joins lines with `\n` (see [`join_lines`]).
pub fn join_with_newlines(lines: &Vec<String>) -> (r: String)
    ensures
        r@ == join_lines(lines@.map_values(|s: String| s@)),
{
    let ghost lv = lines@.map_values(|s: String| s@);
    let mut r = String::new();
    let mut i: usize = 0;
    while i < lines.len()
        invariant
            i <= lines@.len(),
            lv == lines@.map_values(|s: String| s@),
            r@ == join_lines(lv.take(i as int)),
        decreases lines@.len() - i,
    {
        proof {
            assert(lv.take(i + 1).drop_last() =~= lv.take(i as int));
            assert(lv.take(i + 1).last() == lines@[i as int]@);
        }
        if i > 0 {
            push_str(&mut r, "\n");
        } else {
            proof {
                assert(lv.take(0) =~= Seq::<Seq<char>>::empty());
            }
        }
        push_str(&mut r, lines[i].as_str());
        i = i + 1;
    }
    proof {
        assert(lv.take(lines@.len() as int) =~= lv);
    }
    r
}

/// The report of a search: the matches one per line, or a note that nothing
/// matched.
pub open spec fn listing_output(lines: Seq<Seq<char>>) -> ToolOutputView {
    if lines.len() == 0 {
        success_view("(no matches)"@)
    } else {
        success_view(join_lines(lines))
    }
}

fn listing(lines: &Vec<String>) -> (o: ToolOutput)
    ensures
        o@ == listing_output(lines@.map_values(|s: String| s@)),
{
    if lines.len() == 0 {
        ToolOutput::success(String::from_str("(no matches)"))
    } else {
        ToolOutput::success(join_with_newlines(lines))
    }
}

/// `a` is strictly later than `b`.
pub open spec fn later(a: Timestamp, b: Timestamp) -> bool {
    a.secs > b.secs || (a.secs == b.secs && a.nanos > b.nanos)
}

/// Whether `a` is strictly later than `b`.
pub fn is_later(a: Timestamp, b: Timestamp) -> (r: bool)
    ensures
        r == later(a, b),
{
    a.secs > b.secs || (a.secs == b.secs && a.nanos > b.nanos)
}

/// A file found by a glob search and its modification time.
pub struct FoundFile {
    pub path: String,
    pub modified: Timestamp,
}

/// Inserting `x` into a list ordered newest first: after every entry at least
/// as new as it.
pub open spec fn insert_newest_first(s: Seq<FoundFile>, x: FoundFile) -> Seq<FoundFile>
    decreases s.len(),
{
    if s.len() == 0 {
        seq![x]
    } else if !later(x.modified, s.last().modified) {
        s.push(x)
    } else {
        insert_newest_first(s.drop_last(), x).push(s.last())
    }
}

/// Ordering found files newest first, files of the same time in the order
/// found (a stable sort).
pub open spec fn newest_first(s: Seq<FoundFile>) -> Seq<FoundFile>
    decreases s.len(),
{
    if s.len() == 0 {
        Seq::empty()
    } else {
        insert_newest_first(newest_first(s.drop_last()), s.last())
    }
}

/// Ordered newest first.
pub open spec fn is_newest_first(s: Seq<FoundFile>) -> bool {
    forall|i: int, j: int| 0 <= i < j < s.len() ==> !later(s[j].modified, s[i].modified)
}

proof fn lemma_insert_newest_first(s: Seq<FoundFile>, x: FoundFile)
    requires
        is_newest_first(s),
    ensures
        is_newest_first(insert_newest_first(s, x)),
        insert_newest_first(s, x).to_multiset() == s.to_multiset().insert(x),
        insert_newest_first(s, x).len() == s.len() + 1,
    decreases s.len(),
{
    broadcast use vstd::seq_lib::group_to_multiset_ensures;
    if s.len() == 0 {
        assert(seq![x] =~= Seq::<FoundFile>::empty().push(x));
    } else if !later(x.modified, s.last().modified) {
        let t = s.push(x);
        assert forall|i: int, j: int| 0 <= i < j < t.len() implies !later(t[j].modified, t[i].modified) by {
            if j == t.len() - 1 && i < s.len() - 1 {
                assert(!later(s[s.len() - 1].modified, s[i].modified));
            }
        }
    } else {
        let r = insert_newest_first(s.drop_last(), x);
        assert(is_newest_first(s.drop_last()));
        lemma_insert_newest_first(s.drop_last(), x);
        assert(s.drop_last().push(s.last()) =~= s);
        let t = r.push(s.last());
        assert forall|i: int, j: int| 0 <= i < j < t.len() implies !later(t[j].modified, t[i].modified) by {
            if j == t.len() - 1 {
                assert(r.to_multiset().count(r[i]) > 0);
                assert(s.drop_last().to_multiset().insert(x).count(r[i]) > 0);
                if r[i] != x {
                    assert(s.drop_last().to_multiset().count(r[i]) > 0);
                    assert(s.drop_last().contains(r[i]));
                    let k = choose|k: int| 0 <= k < s.drop_last().len() && s.drop_last()[k] == r[i];
                    assert(s[k] == r[i]);
                }
            }
        }
    }
}

/// Sorting newest first gives an ordered rearrangement of the files.
pub proof fn lemma_newest_first(s: Seq<FoundFile>)
    ensures
        is_newest_first(newest_first(s)),
        newest_first(s).to_multiset() == s.to_multiset(),
        newest_first(s).len() == s.len(),
    decreases s.len(),
{
    broadcast use vstd::seq_lib::group_to_multiset_ensures;
    if s.len() > 0 {
        lemma_newest_first(s.drop_last());
        lemma_insert_newest_first(newest_first(s.drop_last()), s.last());
        assert(s.drop_last().push(s.last()) =~= s);
    }
}

/// The glob tool: finds files matching a pattern, newest first.
pub struct GlobTool;

impl GlobTool {
    pub fn name(&self) -> (r: &'static str)
        ensures
            r@ == "glob"@,
    {
        "glob"
    }

    pub fn description(&self) -> (r: &'static str)
        ensures
            r@ == "Find files matching a glob pattern (e.g. \"**/*.rs\", \"src/**/*.ts\"). Returns matching paths sorted by modification time, newest first. Use this to discover files before reading them."@,
    {
        "Find files matching a glob pattern (e.g. \"**/*.rs\", \"src/**/*.ts\"). Returns matching paths sorted by modification time, newest first. Use this to discover files before reading them."
    }

    /// The JSON schema of the tool's input: a required `pattern` and an
    /// optional `path`.
    pub fn input_schema(&self) -> (r: &'static str)
        ensures
            r@ == "{\"type\":\"object\",\"properties\":{\"pattern\":{\"type\":\"string\",\"description\":\"Glob pattern to match (e.g. \\\"**/*.rs\\\")\"},\"path\":{\"type\":\"string\",\"description\":\"Directory to search in (default: cwd)\"}},\"required\":[\"pattern\"]}"@,
    {
        "{\"type\":\"object\",\"properties\":{\"pattern\":{\"type\":\"string\",\"description\":\"Glob pattern to match (e.g. \\\"**/*.rs\\\")\"},\"path\":{\"type\":\"string\",\"description\":\"Directory to search in (default: cwd)\"}},\"required\":[\"pattern\"]}"
    }

    pub fn is_read_only(&self) -> (r: bool)
        ensures
            r,
    {
        true
    }

    /// The full pattern searched: the pattern under the search base.
    pub fn full_pattern(base: &str, pattern: &str) -> (r: String)
        ensures
            r@ == joined_path(base@, pattern@),
    {
        path_join(base, pattern)
    }

    /// The report for a pattern the glob library rejected.
    pub fn pattern_error(message: &str) -> (o: ToolOutput)
        ensures
            o@ == error_view("invalid glob pattern: "@ + message@),
    {
        let mut m = String::from_str("invalid glob pattern: ");
        push_str(&mut m, message);
        ToolOutput::error(m)
    }

    /// Orders found files newest first, stably (see [`newest_first`]).
    pub fn sort_newest_first(files: Vec<FoundFile>) -> (r: Vec<FoundFile>)
        ensures
            r@ == newest_first(files@),
    {
        let ghost fs = files@;
        let mut out: Vec<FoundFile> = Vec::new();
        let mut rest = files;
        let mut taken: Vec<FoundFile> = Vec::new();
        // Take the files in order: reverse `rest` into `taken` so that popping
        // yields them first to last.
        while rest.len() > 0
            invariant
                rest@.len() + taken@.len() == fs.len(),
                forall|k: int| 0 <= k < rest@.len() ==> rest@[k] == fs[k],
                forall|k: int| 0 <= k < taken@.len() ==> taken@[k] == fs[fs.len() - 1 - k],
            decreases rest@.len(),
        {
            let x = rest.pop().unwrap();
            taken.push(x);
        }
        let n = taken.len();
        while taken.len() > 0
            invariant
                n == fs.len(),
                taken@.len() <= n,
                forall|k: int| 0 <= k < taken@.len() ==> taken@[k] == fs[n - 1 - k],
                out@ == newest_first(fs.take(n - taken@.len())),
            decreases taken@.len(),
        {
            let x = taken.pop().unwrap();
            let ghost i = n - 1 - taken@.len();
            proof {
                assert(x == fs[i]);
                assert(fs.take(i + 1).drop_last() =~= fs.take(i));
            }
            let ghost before = out@;
            let mut p = out.len();
            proof {
                assert(before.take(p as int) =~= before);
                assert(before.skip(p as int) =~= Seq::<FoundFile>::empty());
                assert(insert_newest_first(before, x) + Seq::<FoundFile>::empty() =~= insert_newest_first(before, x));
            }
            while p > 0 && is_later(x.modified, out[p - 1].modified)
                invariant
                    p <= out@.len(),
                    out@ == before,
                    insert_newest_first(before, x) == insert_newest_first(before.take(p as int), x) + before.skip(p as int),
                decreases p,
            {
                proof {
                    let t = before.take(p as int);
                    assert(t.drop_last() =~= before.take(p - 1));
                    assert(t.last() == before[p - 1]);
                    assert(before.skip(p - 1) =~= seq![before[p - 1]] + before.skip(p as int));
                    assert(insert_newest_first(t, x) == insert_newest_first(t.drop_last(), x).push(t.last()));
                    assert(insert_newest_first(t.drop_last(), x).push(t.last()) + before.skip(p as int)
                        =~= insert_newest_first(before.take(p - 1), x) + before.skip(p - 1));
                }
                p = p - 1;
            }
            proof {
                let t = before.take(p as int);
                if p == 0 {
                    assert(t =~= Seq::<FoundFile>::empty());
                    assert(insert_newest_first(t, x) =~= seq![x]);
                } else {
                    assert(insert_newest_first(t, x) == t.push(x));
                }
                assert(insert_newest_first(before, x) =~= before.take(p as int).push(x) + before.skip(p as int));
                assert(insert_newest_first(before, x) =~= before.insert(p as int, x));
            }
            out.insert(p, x);
        }
        proof {
            assert(fs.take(n as int) =~= fs);
        }
        out
    }

    /// The tool's report for files found: their paths newest first, one per
    /// line, or a note that nothing matched.
    pub fn render(files: Vec<FoundFile>) -> (o: ToolOutput)
        ensures
            o@ == listing_output(newest_first(files@).map_values(|f: FoundFile| f.path@)),
    {
        let sorted = GlobTool::sort_newest_first(files);
        let mut lines: Vec<String> = Vec::new();
        let mut i: usize = 0;
        while i < sorted.len()
            invariant
                i <= sorted@.len(),
                lines@.map_values(|s: String| s@) == sorted@.take(i as int).map_values(|f: FoundFile| f.path@),
            decreases sorted@.len() - i,
        {
            let ghost prev = lines@.map_values(|s: String| s@);
            lines.push(sorted[i].path.clone());
            proof {
                assert(sorted@.take(i + 1) =~= sorted@.take(i as int).push(sorted@[i as int]));
                assert(lines@.map_values(|s: String| s@) =~= prev.push(sorted@[i as int].path@));
                assert(lines@.map_values(|s: String| s@) =~= sorted@.take(i + 1).map_values(
                    |f: FoundFile| f.path@,
                ));
            }
            i = i + 1;
        }
        proof {
            assert(sorted@.take(sorted@.len() as int) =~= sorted@);
        }
        listing(&lines)
    }
}

#[verifier::external_type_specification]
#[verifier::external_body]
pub struct ExRegex(regex::Regex);

/// What `regex` makes of a pattern: `None` when the pattern compiles (with or
/// without case-insensitive matching as asked), else `Some` of the error's text.
pub uninterp spec fn regex_build_error(pattern: Seq<char>, case_insensitive: bool) -> Option<Seq<char>>;

/// Whether the compiled form of a pattern matches somewhere in `line`.
pub uninterp spec fn regex_matches(pattern: Seq<char>, case_insensitive: bool, line: Seq<char>) -> bool;

/// A compiled search pattern, with the text and flag it was compiled from.
pub struct SearchPattern {
    re: regex::Regex,
    pattern: String,
    case_insensitive: bool,
}

impl SearchPattern {
    pub closed spec fn pattern(&self) -> Seq<char> {
        self.pattern@
    }

    pub closed spec fn case_insensitive(&self) -> bool {
        self.case_insensitive
    }
}

/// Compiles a search pattern.
///
/// Calls `regex::RegexBuilder::new(pattern).case_insensitive(..).build()` and, on
/// failure, the error's `Display` text. Whether and how it fails is named
/// [`regex_build_error`], a function of the pattern and the flag.
#[verifier::external_body]
fn build_regex(pattern: &str, case_insensitive: bool) -> (r: Result<SearchPattern, String>)
    ensures
        match r {
            Ok(p) => regex_build_error(pattern@, case_insensitive) is None && p.pattern() == pattern@
                && p.case_insensitive() == case_insensitive,
            Err(e) => regex_build_error(pattern@, case_insensitive) == Some(e@),
        },
{
    match regex::RegexBuilder::new(pattern).case_insensitive(case_insensitive).build() {
        Ok(re) => Ok(SearchPattern { re, pattern: pattern.to_owned(), case_insensitive }),
        Err(e) => Err(e.to_string()),
    }
}

/// Whether a compiled pattern matches somewhere in `line`.
///
/// Calls `regex::Regex::is_match`; a `SearchPattern` is only made by
/// [`build_regex`], so its regex is the compiled form of its pattern and flag,
/// and the result is named [`regex_matches`] of those and the line.
#[verifier::external_body]
fn regex_is_match(p: &SearchPattern, line: &str) -> (r: bool)
    ensures
        r == regex_matches(p.pattern(), p.case_insensitive(), line@),
{
    p.re.is_match(line)
}

/// The position of the first `\n` in `s` at or after `from`, or `s.len()`.
pub open spec fn next_newline(s: Seq<char>, from: int) -> int
    decreases s.len() - from,
{
    if from >= s.len() {
        s.len() as int
    } else if from >= 0 && s[from] == '\n' {
        from
    } else {
        next_newline(s, from + 1)
    }
}

pub proof fn lemma_next_newline(s: Seq<char>, from: int)
    requires
        0 <= from <= s.len(),
    ensures
        from <= next_newline(s, from) <= s.len(),
        next_newline(s, from) < s.len() ==> s[next_newline(s, from)] == '\n',
        forall|k: int| from <= k < next_newline(s, from) ==> s[k] != '\n',
    decreases s.len() - from,
{
    if from < s.len() && s[from] != '\n' {
        lemma_next_newline(s, from + 1);
    }
}

/// `line` without one trailing `\r`.
pub open spec fn strip_cr(line: Seq<char>) -> Seq<char> {
    if line.len() > 0 && line.last() == '\r' {
        line.drop_last()
    } else {
        line
    }
}

/// The lines of `s` from position `from` on, as `str::lines` gives them: split
/// at each `\n`, a `\r` right before the `\n` removed, and no empty line after
/// a final `\n`.
pub open spec fn lines_from(s: Seq<char>, from: int) -> Seq<Seq<char>>
    decreases s.len() - from,
{
    if from >= s.len() || from < 0 {
        Seq::empty()
    } else {
        let i = next_newline(s, from);
        proof {
            lemma_next_newline(s, from);
        }
        if i < s.len() {
            seq![strip_cr(s.subrange(from, i))] + lines_from(s, i + 1)
        } else {
            seq![s.subrange(from, s.len() as int)]
        }
    }
}

proof fn lemma_scan_is_next_newline(s: Seq<char>, from: int, i: int)
    requires
        0 <= from <= i <= s.len(),
        i < s.len() ==> s[i] == '\n',
        forall|k: int| from <= k < i ==> s[k] != '\n',
    ensures
        i == next_newline(s, from),
{
    lemma_next_newline(s, from);
    let j = next_newline(s, from);
    if j < i {
        assert(s[j] != '\n');
    } else if i < j {
        assert(s[i] != '\n');
    }
}

/// The lines of `text`, as `str::lines` gives them (see [`lines_from`]).
pub fn split_lines(text: &str) -> (r: Vec<String>)
    ensures
        r@.map_values(|l: String| l@) == lines_from(text@, 0),
{
    let cs = chars_of(text);
    let ghost s = cs@;
    let n = cs.len();
    let mut r: Vec<String> = Vec::new();
    let mut from: usize = 0;
    proof {
        assert(r@.map_values(|l: String| l@) + lines_from(s, 0) =~= lines_from(s, 0));
    }
    while from < n
        invariant
            s == cs@,
            n == s.len(),
            from <= n,
            r@.map_values(|l: String| l@) + lines_from(s, from as int) == lines_from(s, 0),
        decreases n - from,
    {
        let mut i = from;
        while i < n && cs[i] != '\n'
            invariant
                s == cs@,
                n == s.len(),
                from <= i <= n,
                forall|k: int| from <= k < i ==> s[k] != '\n',
            decreases n - i,
        {
            i = i + 1;
        }
        proof {
            lemma_scan_is_next_newline(s, from as int, i as int);
        }
        let ghost prev = r@.map_values(|l: String| l@);
        if i < n {
            let end = if i > from && cs[i - 1] == '\r' { i - 1 } else { i };
            let line = crate::text::string_from_range(cs.as_slice(), from, end);
            proof {
                assert(line@ == strip_cr(s.subrange(from as int, i as int)));
            }
            r.push(line);
            proof {
                assert(r@.map_values(|l: String| l@) =~= prev.push(line@));
                assert(lines_from(s, from as int) == seq![line@] + lines_from(s, i + 1));
                assert(prev.push(line@) + lines_from(s, i + 1) =~= prev + (seq![line@] + lines_from(s, i + 1)));
            }
            from = i + 1;
        } else {
            let line = crate::text::string_from_range(cs.as_slice(), from, n);
            r.push(line);
            proof {
                assert(r@.map_values(|l: String| l@) =~= prev.push(line@));
                assert(lines_from(s, from as int) == seq![line@]);
                assert(lines_from(s, n as int) =~= Seq::<Seq<char>>::empty());
                assert(prev.push(line@) + lines_from(s, n as int) =~= prev + seq![line@]);
            }
            from = n;
        }
    }
    proof {
        assert(lines_from(s, from as int) =~= Seq::<Seq<char>>::empty());
        assert(r@.map_values(|l: String| l@) + Seq::<Seq<char>>::empty() =~= r@.map_values(|l: String| l@));
    }
    r
}

/// The most matches a search reports.
pub const MAX_RESULTS: usize = 500;

/// The report line for a match: the path, the line number (from 1) and the line.
pub open spec fn hit_line(path: Seq<char>, number: nat, line: Seq<char>) -> Seq<char> {
    path + ":"@ + decimal(number) + ":"@ + line
}

/// The report lines for the lines of a file that the pattern matches, in order.
pub open spec fn file_hits(path: Seq<char>, lines: Seq<Seq<char>>, pattern: Seq<char>, ci: bool) -> Seq<Seq<char>>
    decreases lines.len(),
{
    if lines.len() == 0 {
        Seq::empty()
    } else {
        let rest = file_hits(path, lines.drop_last(), pattern, ci);
        if regex_matches(pattern, ci, lines.last()) {
            rest.push(hit_line(path, lines.len(), lines.last()))
        } else {
            rest
        }
    }
}

proof fn lemma_file_hits_prefix(path: Seq<char>, lines: Seq<Seq<char>>, pattern: Seq<char>, ci: bool, j: int)
    requires
        0 <= j <= lines.len(),
    ensures
        file_hits(path, lines.take(j), pattern, ci).len() <= file_hits(path, lines, pattern, ci).len(),
        file_hits(path, lines, pattern, ci).take(file_hits(path, lines.take(j), pattern, ci).len() as int)
            == file_hits(path, lines.take(j), pattern, ci),
    decreases lines.len() - j,
{
    if j == lines.len() {
        assert(lines.take(j) =~= lines);
        assert(file_hits(path, lines, pattern, ci).take(file_hits(path, lines, pattern, ci).len() as int)
            =~= file_hits(path, lines, pattern, ci));
    } else {
        lemma_file_hits_prefix(path, lines, pattern, ci, j + 1);
        assert(lines.take(j + 1).drop_last() =~= lines.take(j));
        let a = file_hits(path, lines.take(j), pattern, ci);
        let b = file_hits(path, lines.take(j + 1), pattern, ci);
        let c = file_hits(path, lines, pattern, ci);
        assert(b.take(a.len() as int) =~= a);
        assert(c.take(a.len() as int) =~= b.take(b.len() as int).take(a.len() as int));
        assert(b.take(b.len() as int) =~= b);
    }
}

/// The truncation note that closes a capped search.
pub open spec fn truncation_note() -> Seq<char> {
    "(truncated at 500 matches)"@
}

/// Adding a file's hits to a search: nothing once the search is capped;
/// otherwise the hits are appended, and if that reaches the cap, only the
/// hits up to it are kept, followed by the truncation note, and the search is
/// capped.
pub open spec fn add_hits(results: Seq<Seq<char>>, capped: bool, hits: Seq<Seq<char>>) -> (Seq<Seq<char>>, bool) {
    if capped {
        (results, true)
    } else if results.len() + hits.len() >= MAX_RESULTS {
        (results + hits.take(MAX_RESULTS - results.len()) + seq![truncation_note()], true)
    } else {
        (results + hits, false)
    }
}

/// The grep tool: searches file contents for a regular expression.
pub struct GrepTool;

impl GrepTool {
    pub fn name(&self) -> (r: &'static str)
        ensures
            r@ == "grep"@,
    {
        "grep"
    }

    pub fn description(&self) -> (r: &'static str)
        ensures
            r@ == "Search for a regex pattern in file contents. Returns matching lines with file path and line number. Optionally restrict to files matching a glob pattern."@,
    {
        "Search for a regex pattern in file contents. Returns matching lines with file path and line number. Optionally restrict to files matching a glob pattern."
    }

    /// The JSON schema of the tool's input: a required `pattern`, and optional
    /// `path`, `glob` and `case_insensitive`.
    pub fn input_schema(&self) -> (r: &'static str)
        ensures
            r@ == "{\"type\":\"object\",\"properties\":{\"pattern\":{\"type\":\"string\",\"description\":\"Regular expression to search for\"},\"path\":{\"type\":\"string\",\"description\":\"Directory or file to search (default: cwd)\"},\"glob\":{\"type\":\"string\",\"description\":\"Only search files matching this glob (e.g. \\\"*.rs\\\")\"},\"case_insensitive\":{\"type\":\"boolean\",\"description\":\"Case-insensitive matching (default: false)\"}},\"required\":[\"pattern\"]}"@,
    {
        "{\"type\":\"object\",\"properties\":{\"pattern\":{\"type\":\"string\",\"description\":\"Regular expression to search for\"},\"path\":{\"type\":\"string\",\"description\":\"Directory or file to search (default: cwd)\"},\"glob\":{\"type\":\"string\",\"description\":\"Only search files matching this glob (e.g. \\\"*.rs\\\")\"},\"case_insensitive\":{\"type\":\"boolean\",\"description\":\"Case-insensitive matching (default: false)\"}},\"required\":[\"pattern\"]}"
    }

    pub fn is_read_only(&self) -> (r: bool)
        ensures
            r,
    {
        true
    }

    /// Compiles the search pattern, or gives the report for an invalid one.
    pub fn compile(pattern: &str, case_insensitive: bool) -> (r: Result<SearchPattern, ToolOutput>)
        ensures
            match regex_build_error(pattern@, case_insensitive) {
                None => r matches Ok(p) && p.pattern() == pattern@ && p.case_insensitive() == case_insensitive,
                Some(e) => r matches Err(o) && o@ == error_view("invalid regex: "@ + e),
            },
    {
        match build_regex(pattern, case_insensitive) {
            Ok(p) => Ok(p),
            Err(e) => {
                let mut m = String::from_str("invalid regex: ");
                push_str(&mut m, e.as_str());
                Err(ToolOutput::error(m))
            },
        }
    }

    /// The pattern of files to search: everything below the base, or the
    /// files matching `glob` anywhere below it.
    pub fn walk_pattern(base: &str, glob: Option<&str>) -> (r: String)
        ensures
            r@ == joined_path(joined_path(base@, "**"@), match glob {
                Some(g) => g@,
                None => "*"@,
            }),
    {
        let deep = path_join(base, "**");
        match glob {
            Some(g) => path_join(deep.as_str(), g),
            None => path_join(deep.as_str(), "*"),
        }
    }

    /// What a search covers: a base that is a file is searched itself;
    /// otherwise the files matching [`GrepTool::walk_pattern`] are searched.
    /// Whether the base is a file is the caller's to find out.
    pub fn target(base: &str, glob: Option<&str>, base_is_file: bool) -> (r: GrepTarget)
        ensures
            base_is_file ==> (r matches GrepTarget::File(f) && f@ == base@),
            !base_is_file ==> (r matches GrepTarget::Walk(w) && w@ == joined_path(
                joined_path(base@, "**"@),
                match glob {
                    Some(g) => g@,
                    None => "*"@,
                },
            )),
    {
        if base_is_file {
            GrepTarget::File(base.to_string())
        } else {
            GrepTarget::Walk(GrepTool::walk_pattern(base, glob))
        }
    }
}

/// The files a grep search covers.
#[derive(Clone, Debug)]
pub enum GrepTarget {
    /// This one file.
    File(String),
    /// The files that this glob pattern names.
    Walk(String),
}

/// The state of a grep search across files.
pub struct GrepSearch {
    results: Vec<String>,
    capped: bool,
}

impl GrepSearch {
    /// The report lines so far.
    pub closed spec fn results(&self) -> Seq<Seq<char>> {
        self.results@.map_values(|l: String| l@)
    }

    /// Whether the cap was reached (no further file is searched).
    pub closed spec fn capped(&self) -> bool {
        self.capped
    }

    /// Below the cap, fewer than the maximum lines are held.
    pub open spec fn well_formed(&self) -> bool {
        !self.capped() ==> self.results().len() < MAX_RESULTS
    }

    pub fn new() -> (g: Self)
        ensures
            g.well_formed(),
            g.results() == Seq::<Seq<char>>::empty(),
            !g.capped(),
    {
        let g = GrepSearch { results: Vec::new(), capped: false };
        proof {
            assert(g.results() =~= Seq::<Seq<char>>::empty());
        }
        g
    }

    pub fn is_capped(&self) -> (r: bool)
        ensures
            r == self.capped(),
    {
        self.capped
    }

    /// Searches one file's content (see [`add_hits`] and [`file_hits`]).
    pub fn scan_file(&mut self, path: &str, content: &str, pattern: &SearchPattern)
        requires
            old(self).well_formed(),
        ensures
            final(self).well_formed(),
            (final(self).results(), final(self).capped()) == add_hits(
                old(self).results(),
                old(self).capped(),
                file_hits(path@, lines_from(content@, 0), pattern.pattern(), pattern.case_insensitive()),
            ),
    {
        if self.capped {
            return;
        }
        let lines = split_lines(content);
        let ghost lv = lines@.map_values(|l: String| l@);
        proof {
            assert(lv == lines_from(content@, 0));
        }
        let ghost all = file_hits(path@, lv, pattern.pattern(), pattern.case_insensitive());
        let ghost start = self.results();
        let mut i: usize = 0;
        while i < lines.len()
            invariant
                start == old(self).results(),
                !old(self).capped(),
                i <= lines@.len(),
                lv == lines@.map_values(|l: String| l@),
                lv == lines_from(content@, 0),
                all == file_hits(path@, lv, pattern.pattern(), pattern.case_insensitive()),
                !self.capped,
                self.results() == start + file_hits(path@, lv.take(i as int), pattern.pattern(), pattern.case_insensitive()),
                self.results().len() < MAX_RESULTS,
            decreases lines@.len() - i,
        {
            proof {
                assert(lv.take(i + 1).drop_last() =~= lv.take(i as int));
                assert(lv.take(i + 1).last() == lines@[i as int]@);
                assert(lv.take(i + 1).len() == i + 1);
            }
            if regex_is_match(pattern, lines[i].as_str()) {
                let mut hit = String::new();
                push_str(&mut hit, path);
                push_str(&mut hit, ":");
                push_decimal(&mut hit, i + 1);
                push_str(&mut hit, ":");
                push_str(&mut hit, lines[i].as_str());
                let ghost prev = self.results();
                self.results.push(hit);
                proof {
                    assert(hit@ == hit_line(path@, (i + 1) as nat, lv[i as int]));
                    assert(self.results() =~= prev.push(hit@));
                    assert(self.results() =~= start + file_hits(
                        path@,
                        lv.take(i + 1),
                        pattern.pattern(),
                        pattern.case_insensitive(),
                    ));
                }
                if self.results.len() >= MAX_RESULTS {
                    let ghost got = self.results();
                    self.results.push(String::from_str("(truncated at 500 matches)"));
                    self.capped = true;
                    proof {
                        lemma_file_hits_prefix(path@, lv, pattern.pattern(), pattern.case_insensitive(), i + 1);
                        let part = file_hits(path@, lv.take(i + 1), pattern.pattern(), pattern.case_insensitive());
                        assert(part.len() == MAX_RESULTS - start.len());
                        assert(all.take(MAX_RESULTS - start.len()) == part);
                        assert(self.results() =~= got.push(truncation_note()));
                        assert(self.results() =~= start + all.take(MAX_RESULTS - start.len()) + seq![truncation_note()]);
                        assert(start.len() + all.len() >= MAX_RESULTS);
                        assert((self.results(), self.capped()) == add_hits(start, false, all));
                    }
                    return;
                }
            } else {
                proof {
                    assert(self.results() =~= start + file_hits(
                        path@,
                        lv.take(i + 1),
                        pattern.pattern(),
                        pattern.case_insensitive(),
                    ));
                }
            }
            i = i + 1;
        }
        proof {
            assert(lv.take(lines@.len() as int) =~= lv);
        }
    }

    /// The tool's report: the report lines, one per line, or a note that
    /// nothing matched.
    pub fn render(&self) -> (o: ToolOutput)
        ensures
            o@ == listing_output(self.results()),
    {
        listing(&self.results)
    }
}

} // verus!

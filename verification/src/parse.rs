//! The status parser: from the raw report text to an ordered sequence of
//! [`GitFileStatus`] records.
//!
//! A report is line-oriented. Each line starts with two state characters,
//! followed by whitespace-separated path tokens; a standalone `->` token
//! marks a rename and separates the original path from the destination.
//! Every function here is total over its model: the `spec` functions below
//! say exactly what is produced for every input, and the executable
//! functions are proved to return it.

use vstd::prelude::*;

use crate::status::{ErrorView, FileStatusView, GitError, GitFileStatus};

verus! {

/// Whitespace that separates the tokens of a status line.
pub open spec fn spec_is_space(c: char) -> bool {
    c == ' ' || c == '\t'
}

fn is_space(c: char) -> (r: bool)
    ensures
        r == spec_is_space(c),
{
    c == ' ' || c == '\t'
}

/// The character sequences of a sequence of strings.
pub open spec fn seq_views(strings: Seq<String>) -> Seq<Seq<char>> {
    strings.map_values(|s: String| s@)
}

proof fn lemma_seq_views_push(strings: Seq<String>, s: String)
    ensures
        seq_views(strings.push(s)) == seq_views(strings).push(s@),
{
    assert(seq_views(strings.push(s)) =~= seq_views(strings).push(s@));
}

/// The whitespace-separated tokens of `s`, with `cur` the partial token read
/// so far: the continuation form of a left-to-right scan.
pub open spec fn spec_tokens_from(s: Seq<char>, cur: Seq<char>) -> Seq<Seq<char>>
    decreases s.len(),
{
    if s.len() == 0 {
        if cur.len() == 0 {
            Seq::empty()
        } else {
            seq![cur]
        }
    } else if spec_is_space(s[0]) {
        if cur.len() == 0 {
            spec_tokens_from(s.skip(1), Seq::empty())
        } else {
            seq![cur] + spec_tokens_from(s.skip(1), Seq::empty())
        }
    } else {
        spec_tokens_from(s.skip(1), cur.push(s[0]))
    }
}

/// The whitespace-separated tokens of `s`, in order, each non-empty.
pub open spec fn spec_tokens(s: Seq<char>) -> Seq<Seq<char>> {
    spec_tokens_from(s, Seq::empty())
}

proof fn lemma_skip_step<A>(s: Seq<A>, i: int)
    requires
        0 <= i < s.len(),
    ensures
        s.skip(i)[0] == s[i],
        s.skip(i).skip(1) == s.skip(i + 1),
        s.skip(i).len() == s.len() - i,
{
    assert(s.skip(i).skip(1) =~= s.skip(i + 1));
}

/// Splits a line into its whitespace-separated tokens, in order.
pub fn split_tokens(line: &str) -> (tokens: Vec<String>)
    ensures
        seq_views(tokens@) == spec_tokens(line@),
{
    let n: usize = line.unicode_len();
    let mut tokens: Vec<String> = Vec::new();
    // Start of the token being read, while one is open.
    let mut token_start: Option<usize> = None;
    let mut i: usize = 0;
    proof {
        assert(line@.skip(0) =~= line@);
        assert(seq_views(tokens@) + spec_tokens_from(line@, Seq::empty()) =~= spec_tokens(
            line@,
        ));
    }
    while i < n
        invariant
            i <= n,
            n == line@.len(),
            match token_start {
                None => spec_tokens(line@) == seq_views(tokens@) + spec_tokens_from(
                    line@.skip(i as int),
                    Seq::empty(),
                ),
                Some(start) => start < i && spec_tokens(line@) == seq_views(tokens@)
                    + spec_tokens_from(
                    line@.skip(i as int),
                    line@.subrange(start as int, i as int),
                ),
            },
        decreases n - i,
    {
        proof {
            lemma_skip_step(line@, i as int);
        }
        let c = line.get_char(i);
        match token_start {
            None => {
                if !is_space(c) {
                    token_start = Some(i);
                    proof {
                        let ghost c0 = line@[i as int];
                        assert(line@.subrange(i as int, i + 1) =~= Seq::empty().push(c0));
                    }
                }
            },
            Some(start) => {
                if is_space(c) {
                    let token = line.substring_char(start, i).to_owned();
                    proof {
                        lemma_seq_views_push(tokens@, token);
                    }
                    tokens.push(token);
                    token_start = None;
                } else {
                    proof {
                        assert(line@.subrange(start as int, i + 1) =~= line@.subrange(
                            start as int,
                            i as int,
                        ).push(line@[i as int]));
                    }
                }
            },
        }
        i = i + 1;
    }
    if let Some(start) = token_start {
        let token = line.substring_char(start, n).to_owned();
        proof {
            lemma_seq_views_push(tokens@, token);
            assert(line@.skip(n as int) =~= Seq::<char>::empty());
            assert(seq_views(tokens@).push(token@) =~= seq_views(tokens@) + seq![token@]);
        }
        tokens.push(token);
    } else {
        proof {
            assert(line@.skip(n as int) =~= Seq::<char>::empty());
            assert(seq_views(tokens@) + Seq::<Seq<char>>::empty() =~= seq_views(tokens@));
        }
    }
    tokens
}

/// The rename marker: `->` somewhere in the line means the entry is a rename
/// or move.
pub open spec fn spec_has_marker(s: Seq<char>) -> bool {
    exists|i: int| 0 <= i && i + 1 < s.len() && s[i] == '-' && #[trigger] s[i + 1] == '>'
}

fn has_marker(line: &str) -> (r: bool)
    ensures
        r == spec_has_marker(line@),
{
    let n: usize = line.unicode_len();
    if n < 2 {
        return false;
    }
    let mut i: usize = 0;
    while i + 1 < n
        invariant
            i < n,
            n == line@.len(),
            forall|j: int| 0 <= j < i ==> !(line@[j] == '-' && #[trigger] line@[j + 1] == '>'),
        decreases n - i,
    {
        if line.get_char(i) == '-' && line.get_char(i + 1) == '>' {
            proof {
                assert(line@[i as int] == '-' && line@[i as int + 1] == '>');
            }
            return true;
        }
        i = i + 1;
    }
    false
}

/// The marker token itself.
pub open spec fn spec_marker() -> Seq<char> {
    seq!['-', '>']
}

/// The index of the first `->` token at or after `i`, if any.
pub open spec fn spec_first_marker_token(toks: Seq<Seq<char>>, i: int) -> Option<int>
    decreases toks.len() - i,
{
    if i < 0 || i >= toks.len() {
        None
    } else if toks[i] == spec_marker() {
        Some(i)
    } else {
        spec_first_marker_token(toks, i + 1)
    }
}

fn first_marker_token(tokens: &Vec<String>) -> (r: Option<usize>)
    ensures
        match r {
            Some(m) => spec_first_marker_token(seq_views(tokens@), 0) == Some(m as int),
            None => spec_first_marker_token(seq_views(tokens@), 0) is None,
        },
{
    let marker: String = String::from_str("->");
    proof {
        reveal_strlit("->");
        assert(marker@ =~= spec_marker());
    }
    let mut i: usize = 0;
    while i < tokens.len()
        invariant
            i <= tokens@.len(),
            marker@ == spec_marker(),
            spec_first_marker_token(seq_views(tokens@), 0) == spec_first_marker_token(
                seq_views(tokens@),
                i as int,
            ),
        decreases tokens@.len() - i,
    {
        if tokens[i] == marker {
            return Some(i);
        }
        i = i + 1;
    }
    None
}

/// What one status line yields: the record, or the error it is rejected
/// with. The first two characters are the two state codes; the second
/// whitespace token is the default path; a `->` token reinterprets its
/// neighbours as original and destination path of a rename.
pub open spec fn spec_parse_line(line: Seq<char>) -> Result<FileStatusView, ErrorView> {
    if line.len() < 2 {
        Err(ErrorView::MalformedStatusLine { line })
    } else {
        let toks = spec_tokens(line);
        if toks.len() < 2 {
            Err(ErrorView::MalformedStatusLine { line })
        } else if spec_has_marker(line) {
            match spec_first_marker_token(toks, 0) {
                Some(m) => if 2 <= m && m + 1 < toks.len() {
                    Ok(
                        FileStatusView {
                            x: line[0],
                            y: line[1],
                            filename: toks[m + 1],
                            origname: Some(toks[m - 1]),
                        },
                    )
                } else {
                    Err(ErrorView::MalformedRenameLine { line })
                },
                None => Err(ErrorView::MalformedRenameLine { line }),
            }
        } else {
            Ok(
                FileStatusView {
                    x: line[0],
                    y: line[1],
                    filename: toks[1],
                    origname: None,
                },
            )
        }
    }
}

/// The model of a single-record parse result.
pub open spec fn spec_record_result_view(r: Result<GitFileStatus, GitError>) -> Result<
    FileStatusView,
    ErrorView,
> {
    match r {
        Ok(f) => Ok(f@),
        Err(e) => Err(e@),
    }
}

/// Parses one status line into a record, exactly as [`spec_parse_line`]
/// says: rejected with `MalformedStatusLine` when the two state characters
/// or the path token are missing, with `MalformedRenameLine` when a rename
/// marker is not flanked by its two paths, and accepted otherwise.
pub fn parse_status_line(line: &str) -> (r: Result<GitFileStatus, GitError>)
    ensures
        spec_record_result_view(r) == spec_parse_line(line@),
{
    let n: usize = line.unicode_len();
    if n < 2 {
        return Err(GitError::MalformedStatusLine { line: line.to_owned() });
    }
    let x = line.get_char(0);
    let y = line.get_char(1);
    let tokens = split_tokens(line);
    if tokens.len() < 2 {
        return Err(GitError::MalformedStatusLine { line: line.to_owned() });
    }
    if has_marker(line) {
        match first_marker_token(&tokens) {
            Some(m) => {
                if 2 <= m && m < tokens.len() - 1 {
                    Ok(
                        GitFileStatus {
                            x,
                            y,
                            filename: tokens[m + 1].clone(),
                            origname: Some(tokens[m - 1].clone()),
                        },
                    )
                } else {
                    Err(GitError::MalformedRenameLine { line: line.to_owned() })
                }
            },
            None => Err(GitError::MalformedRenameLine { line: line.to_owned() }),
        }
    } else {
        Ok(GitFileStatus { x, y, filename: tokens[1].clone(), origname: None })
    }
}

/// A line terminated by `\n` sheds one trailing `\r`, so that reports with
/// either line ending read the same.
pub open spec fn spec_strip_cr(line: Seq<char>) -> Seq<char> {
    if line.len() > 0 && line[line.len() - 1] == '\r' {
        line.drop_last()
    } else {
        line
    }
}

/// The lines of `s`, with `cur` the partial line read so far: lines are cut
/// at each `\n`, a final piece without `\n` counts only when non-empty.
pub open spec fn spec_lines_from(s: Seq<char>, cur: Seq<char>) -> Seq<Seq<char>>
    decreases s.len(),
{
    if s.len() == 0 {
        if cur.len() == 0 {
            Seq::empty()
        } else {
            seq![cur]
        }
    } else if s[0] == '\n' {
        seq![spec_strip_cr(cur)] + spec_lines_from(s.skip(1), Seq::empty())
    } else {
        spec_lines_from(s.skip(1), cur.push(s[0]))
    }
}

/// The lines of a report text, in order.
pub open spec fn spec_lines(s: Seq<char>) -> Seq<Seq<char>> {
    spec_lines_from(s, Seq::empty())
}

/// Splits the report text into its lines, in order.
pub fn split_lines(text: &str) -> (lines: Vec<String>)
    ensures
        seq_views(lines@) == spec_lines(text@),
{
    let n: usize = text.unicode_len();
    let mut lines: Vec<String> = Vec::new();
    let mut start: usize = 0;
    let mut i: usize = 0;
    proof {
        assert(text@.skip(0) =~= text@);
        assert(text@.subrange(0, 0) =~= Seq::<char>::empty());
        assert(seq_views(lines@) + spec_lines_from(text@, Seq::empty()) =~= spec_lines(text@));
    }
    while i < n
        invariant
            start <= i <= n,
            n == text@.len(),
            spec_lines(text@) == seq_views(lines@) + spec_lines_from(
                text@.skip(i as int),
                text@.subrange(start as int, i as int),
            ),
        decreases n - i,
    {
        proof {
            lemma_skip_step(text@, i as int);
        }
        let c = text.get_char(i);
        if c == '\n' {
            let mut end = i;
            if end > start && text.get_char(end - 1) == '\r' {
                end = end - 1;
            }
            proof {
                assert(spec_strip_cr(text@.subrange(start as int, i as int)) =~= text@.subrange(
                    start as int,
                    end as int,
                ));
            }
            let line = text.substring_char(start, end).to_owned();
            proof {
                lemma_seq_views_push(lines@, line);
                assert(seq_views(lines@).push(line@) =~= seq_views(lines@) + seq![line@]);
            }
            lines.push(line);
            start = i + 1;
            proof {
                assert(text@.subrange(start as int, start as int) =~= Seq::<char>::empty());
            }
        } else {
            proof {
                let ghost c0 = text@[i as int];
                assert(text@.subrange(start as int, i + 1) =~= text@.subrange(
                    start as int,
                    i as int,
                ).push(c0));
            }
        }
        i = i + 1;
    }
    if start < n {
        let line = text.substring_char(start, n).to_owned();
        proof {
            lemma_seq_views_push(lines@, line);
            assert(text@.skip(n as int) =~= Seq::<char>::empty());
            assert(seq_views(lines@).push(line@) =~= seq_views(lines@) + seq![line@]);
        }
        lines.push(line);
    } else {
        proof {
            assert(text@.skip(n as int) =~= Seq::<char>::empty());
            assert(text@.subrange(start as int, n as int) =~= Seq::<char>::empty());
            assert(seq_views(lines@) + Seq::<Seq<char>>::empty() =~= seq_views(lines@));
        }
    }
    lines
}

/// What a sequence of status lines yields: one record per line, in line
/// order, unless some line is rejected; then the error of the first
/// rejected line, fail-fast.
pub open spec fn spec_parse_lines(lines: Seq<Seq<char>>) -> Result<Seq<FileStatusView>, ErrorView>
    decreases lines.len(),
{
    if lines.len() == 0 {
        Ok(Seq::empty())
    } else {
        match spec_parse_line(lines[0]) {
            Ok(f) => match spec_parse_lines(lines.skip(1)) {
                Ok(rest) => Ok(seq![f] + rest),
                Err(e) => Err(e),
            },
            Err(e) => Err(e),
        }
    }
}

/// What a whole report text yields.
pub open spec fn spec_parse_report(text: Seq<char>) -> Result<Seq<FileStatusView>, ErrorView> {
    spec_parse_lines(spec_lines(text))
}

/// The models of a sequence of records.
pub open spec fn record_views(records: Seq<GitFileStatus>) -> Seq<FileStatusView> {
    records.map_values(|f: GitFileStatus| f@)
}

/// The model of a many-record parse result.
pub open spec fn spec_records_result_view(r: Result<Vec<GitFileStatus>, GitError>) -> Result<
    Seq<FileStatusView>,
    ErrorView,
> {
    match r {
        Ok(records) => Ok(record_views(records@)),
        Err(e) => Err(e@),
    }
}

/// Parses a sequence of status lines, exactly as [`spec_parse_lines`] says:
/// one record per line in line order, or the error of the first rejected
/// line and no records.
pub fn parse_status_lines(lines: &Vec<String>) -> (r: Result<Vec<GitFileStatus>, GitError>)
    ensures
        spec_records_result_view(r) == spec_parse_lines(seq_views(lines@)),
{
    let mut records: Vec<GitFileStatus> = Vec::new();
    let mut i: usize = 0;
    proof {
        assert(seq_views(lines@).skip(0) =~= seq_views(lines@));
        assert(record_views(records@) =~= Seq::<FileStatusView>::empty());
    }
    while i < lines.len()
        invariant
            i <= lines@.len(),
            match spec_parse_lines(seq_views(lines@).skip(i as int)) {
                Ok(rest) => spec_parse_lines(seq_views(lines@)) == Ok::<
                    Seq<FileStatusView>,
                    ErrorView,
                >(record_views(records@) + rest),
                Err(e) => spec_parse_lines(seq_views(lines@)) == Err::<
                    Seq<FileStatusView>,
                    ErrorView,
                >(e),
            },
        decreases lines@.len() - i,
    {
        proof {
            lemma_skip_step(seq_views(lines@), i as int);
        }
        match parse_status_line(lines[i].as_str()) {
            Ok(f) => {
                proof {
                    assert(record_views(records@.push(f)) =~= record_views(records@).push(f@));
                    let ghost rest = spec_parse_lines(seq_views(lines@).skip(i + 1));
                    if rest is Ok {
                        assert(record_views(records@) + (seq![f@] + rest->Ok_0) =~= record_views(
                            records@.push(f),
                        ) + rest->Ok_0);
                    }
                }
                records.push(f);
            },
            Err(e) => {
                return Err(e);
            },
        }
        i = i + 1;
    }
    proof {
        assert(seq_views(lines@).skip(lines@.len() as int) =~= Seq::<Seq<char>>::empty());
        assert(record_views(records@) + Seq::<FileStatusView>::empty() =~= record_views(records@));
    }
    Ok(records)
}

/// Parses the raw report text: splits it into lines and parses each, giving
/// one record per line in input order, or the first line's error.
pub fn parse_status_report(report: &str) -> (r: Result<Vec<GitFileStatus>, GitError>)
    ensures
        spec_records_result_view(r) == spec_parse_report(report@),
{
    let lines = split_lines(report);
    parse_status_lines(&lines)
}

/// Round-trip ordering: when a report parses, it yields exactly one record
/// per line, and the record at each position is the parse of the line at
/// that position.
pub proof fn lemma_roundtrip_ordering(lines: Seq<Seq<char>>)
    ensures
        spec_parse_lines(lines) matches Ok(records) ==> records.len() == lines.len() && (forall|
            i: int,
        |
            0 <= i < lines.len() ==> spec_parse_line(lines[i]) == Ok::<FileStatusView, ErrorView>(
                #[trigger] records[i],
            )),
    decreases lines.len(),
{
    if lines.len() > 0 && spec_parse_lines(lines) is Ok {
        lemma_roundtrip_ordering(lines.skip(1));
        let records = spec_parse_lines(lines)->Ok_0;
        let rest = spec_parse_lines(lines.skip(1))->Ok_0;
        assert forall|i: int| 0 <= i < lines.len() implies spec_parse_line(lines[i]) == Ok::<
            FileStatusView,
            ErrorView,
        >(#[trigger] records[i]) by {
            if i > 0 {
                assert(lines.skip(1)[i - 1] == lines[i]);
                assert(records[i] == rest[i - 1]);
            }
        }
    }
}

/// Malformed input rejection: if the first rejected line is line `i`, the
/// whole parse fails with that line's error, and yields no records.
pub proof fn lemma_malformed_rejected(lines: Seq<Seq<char>>, i: int)
    requires
        0 <= i < lines.len(),
        forall|j: int| 0 <= j < i ==> #[trigger] spec_parse_line(lines[j]) is Ok,
        spec_parse_line(lines[i]) is Err,
    ensures
        spec_parse_line(lines[i]) matches Err(e) ==> spec_parse_lines(lines) == Err::<
            Seq<FileStatusView>,
            ErrorView,
        >(e),
    decreases i,
{
    if i > 0 {
        lemma_malformed_rejected(lines.skip(1), i - 1);
        assert forall|j: int| 0 <= j < i - 1 implies #[trigger] spec_parse_line(
            lines.skip(1)[j],
        ) is Ok by {
            assert(lines.skip(1)[j] == lines[j + 1]);
        }
        assert(lines.skip(1)[i - 1] == lines[i]);
    }
}

/// Idempotence: parsing is a pure function of the report text, so two
/// parses of the same text yield the same outcome. The executable parser's
/// contract equates its result with `spec_parse_report`, which this law
/// turns into equality of the two results.
pub proof fn lemma_parse_deterministic(
    text: Seq<char>,
    r1: Result<Seq<FileStatusView>, ErrorView>,
    r2: Result<Seq<FileStatusView>, ErrorView>,
)
    requires
        r1 == spec_parse_report(text),
        r2 == spec_parse_report(text),
    ensures
        r1 == r2,
{
}

} // verus!

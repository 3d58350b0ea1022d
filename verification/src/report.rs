//! Report building: what one run of the search prints.
//!
//! For each file with at least one match, the report holds a header line
//! naming the file, then one line per match carrying the zero-based index
//! of the first line of the file whose text equals the match text, and
//! the match text itself. The index is found by re-locating the match
//! text among the file's lines; in case-insensitive mode the match text
//! is trimmed, so this lookup can fail (no line equals the trimmed text),
//! and under identical lines it names the first of them, whichever one
//! actually matched. The failure is reported as `None`.

use vstd::prelude::*;

use crate::config::{Config, InputType};
use crate::matcher::{matcher_result, search, search_case_insensitive, sensitive_matches};
use crate::text::{split_lines, split_lines_str, str_eq};

verus! {

/// One file handed to the search: its path and its full contents.
pub struct FileEntry {
    pub path: String,
    pub contents: String,
}

/// The mathematical value of a `FileEntry`.
pub struct FileEntryView {
    pub path: Seq<char>,
    pub contents: Seq<char>,
}

impl View for FileEntry {
    type V = FileEntryView;

    open spec fn view(&self) -> FileEntryView {
        FileEntryView { path: self.path@, contents: self.contents@ }
    }
}

/// One line of the printed report.
#[derive(Debug, PartialEq, Eq)]
pub enum ReportLine {
    /// Names the file the following matches were found in.
    Header(String),
    /// One match: the index of the first equal line of the file, and the
    /// match text.
    Matched(usize, String),
    /// The empty separator line printed after each file of a directory.
    Blank,
}

/// The mathematical value of a `ReportLine`.
pub enum ReportLineView {
    Header(Seq<char>),
    Matched(int, Seq<char>),
    Blank,
}

impl View for ReportLine {
    type V = ReportLineView;

    open spec fn view(&self) -> ReportLineView {
        match self {
            ReportLine::Header(p) => ReportLineView::Header(p@),
            ReportLine::Matched(i, t) => ReportLineView::Matched(*i as int, t@),
            ReportLine::Blank => ReportLineView::Blank,
        }
    }
}

/// `i` is the index of the first line of `lines` equal to `text`.
pub open spec fn is_first_index_of(lines: Seq<Seq<char>>, text: Seq<char>, i: int) -> bool {
    0 <= i < lines.len() && lines[i] == text && forall|j: int| 0 <= j < i ==> lines[j] != text
}

/// The index of the first line of `lines` equal to `text`, defined when
/// some line equals `text`.
pub open spec fn first_index_of(lines: Seq<Seq<char>>, text: Seq<char>) -> int {
    choose|i: int| is_first_index_of(lines, text, i)
}

/// A line equal to `text` exists, so a first one does, and it is unique.
proof fn lemma_first_index_of(lines: Seq<Seq<char>>, text: Seq<char>)
    requires
        lines.contains(text),
    ensures
        is_first_index_of(lines, text, first_index_of(lines, text)),
    decreases lines.len(),
{
    if lines[0] == text {
        assert(is_first_index_of(lines, text, 0));
    } else {
        let rest = lines.skip(1);
        let w = choose|w: int| 0 <= w < lines.len() && lines[w] == text;
        assert(rest[w - 1] == text);
        assert(rest.contains(text));
        lemma_first_index_of(rest, text);
        let i = first_index_of(rest, text);
        assert(rest[i] == lines[i + 1]);
        assert forall|j: int| 0 <= j < i + 1 implies lines[j] != text by {
            if j > 0 {
                assert(rest[j - 1] == lines[j]);
            }
        }
        assert(is_first_index_of(lines, text, i + 1));
    }
}

/// Finds the first line of `lines` whose text equals `text`, if any.
fn position_of_line(lines: &Vec<&str>, text: &str) -> (r: Option<usize>)
    ensures
        match r {
            Some(i) => is_first_index_of(lines@.map_values(|l: &str| l@), text@, i as int),
            None => !lines@.map_values(|l: &str| l@).contains(text@),
        },
{
    let ghost lseq = lines@.map_values(|l: &str| l@);
    let mut i: usize = 0;
    while i < lines.len()
        invariant
            i <= lines@.len(),
            lseq == lines@.map_values(|l: &str| l@),
            forall|j: int| 0 <= j < i ==> lseq[j] != text@,
        decreases lines@.len() - i,
    {
        if str_eq(lines[i], text) {
            return Some(i);
        }
        i = i + 1;
    }
    proof {
        assert forall|j: int| 0 <= j < lseq.len() implies lseq[j] != text@ by {}
    }
    None
}

/// The report block of one file: empty when nothing matched; otherwise a
/// header naming the file, then one `Matched` line per match, in match
/// order, each carrying the index of the first line of the file equal to
/// the match text. `None` when some match text equals no line of the file.
pub open spec fn file_report(
    path: Seq<char>,
    contents: Seq<char>,
    query: Seq<char>,
    case_sensitive: bool,
) -> Option<Seq<ReportLineView>> {
    let matched = matcher_result(query, contents, case_sensitive);
    let lines = split_lines(contents);
    if matched.len() == 0 {
        Some(Seq::empty())
    } else if forall|k: int| 0 <= k < matched.len() ==> lines.contains(#[trigger] matched[k]) {
        Some(
            seq![ReportLineView::Header(path)] + Seq::new(
                matched.len(),
                |k: int| ReportLineView::Matched(first_index_of(lines, matched[k]), matched[k]),
            ),
        )
    } else {
        None
    }
}

/// Searches one file and builds its report block. Returns `None` exactly
/// when a match text (trimmed, in case-insensitive mode) equals no line
/// of the file; in case-sensitive mode that cannot happen.
pub fn search_single_file(path: &str, contents: &str, config: &Config) -> (r: Option<
    Vec<ReportLine>,
>)
    ensures
        match r {
            Some(v) => file_report(path@, contents@, config.query@, config.case_sensitive) == Some(
                v@.map_values(|x: ReportLine| x@),
            ),
            None => file_report(path@, contents@, config.query@, config.case_sensitive) is None,
        },
        config.case_sensitive ==> r is Some,
{
    let matched: Vec<&str> = if config.case_sensitive {
        search(config.query.as_str(), contents)
    } else {
        search_case_insensitive(config.query.as_str(), contents)
    };
    let ghost mseq = matched@.map_values(|l: &str| l@);
    if matched.len() == 0 {
        let out: Vec<ReportLine> = Vec::new();
        proof {
            assert(out@.map_values(|x: ReportLine| x@) =~= Seq::<ReportLineView>::empty());
        }
        return Some(out);
    }
    let lines = split_lines_str(contents);
    let ghost lseq = lines@.map_values(|l: &str| l@);
    let mut out: Vec<ReportLine> = Vec::new();
    out.push(ReportLine::Header(path.to_owned()));
    let mut k: usize = 0;
    proof {
        assert(out@.map_values(|x: ReportLine| x@) =~= seq![ReportLineView::Header(path@)]
            + Seq::new(0, |j: int| ReportLineView::Matched(first_index_of(lseq, mseq[j]), mseq[j])));
    }
    while k < matched.len()
        invariant
            k <= matched@.len(),
            mseq == matched@.map_values(|l: &str| l@),
            lseq == lines@.map_values(|l: &str| l@),
            lseq == split_lines(contents@),
            mseq == matcher_result(config.query@, contents@, config.case_sensitive),
            forall|j: int| 0 <= j < k ==> lseq.contains(#[trigger] mseq[j]),
            out@.map_values(|x: ReportLine| x@) == seq![ReportLineView::Header(path@)] + Seq::new(
                k as nat,
                |j: int| ReportLineView::Matched(first_index_of(lseq, mseq[j]), mseq[j]),
            ),
        decreases matched@.len() - k,
    {
        match position_of_line(&lines, matched[k]) {
            Some(i) => {
                out.push(ReportLine::Matched(i, matched[k].to_owned()));
                proof {
                    assert(lseq.contains(mseq[k as int]));
                    lemma_first_index_of(lseq, mseq[k as int]);
                    assert(i as int == first_index_of(lseq, mseq[k as int]));
                    let f = |j: int|
                        ReportLineView::Matched(first_index_of(lseq, mseq[j]), mseq[j]);
                    let newview = ReportLineView::Matched(i as int, mseq[k as int]);
                    assert(out@.last()@ == newview);
                    assert(out@.map_values(|x: ReportLine| x@) =~= out@.drop_last().map_values(
                        |x: ReportLine| x@,
                    ).push(newview));
                    assert(f(k as int) == newview);
                    assert(seq![ReportLineView::Header(path@)] + Seq::new((k + 1) as nat, f) =~= (
                    seq![ReportLineView::Header(path@)] + Seq::new(k as nat, f)).push(f(k as int)));
                }
            },
            None => {
                proof {
                    assert(!lseq.contains(mseq[k as int]));
                    if config.case_sensitive {
                        crate::matcher::lemma_sensitive_matches_are_lines(
                            config.query@,
                            contents@,
                        );
                    }
                }
                return None;
            },
        }
        k = k + 1;
    }
    proof {
        assert(Seq::new(
            matched@.len() as nat,
            |j: int| ReportLineView::Matched(first_index_of(lseq, mseq[j]), mseq[j]),
        ) =~= Seq::new(
            mseq.len(),
            |j: int| ReportLineView::Matched(first_index_of(lseq, mseq[j]), mseq[j]),
        ));
    }
    Some(out)
}

/// In case-sensitive mode the report of a file always exists: every match
/// is an unchanged line of the file, so the index lookup cannot fail.
pub proof fn lemma_sensitive_report_exists(path: Seq<char>, contents: Seq<char>, query: Seq<char>)
    ensures
        file_report(path, contents, query, true) is Some,
{
    crate::matcher::lemma_sensitive_matches_are_lines(query, contents);
    let matched = matcher_result(query, contents, true);
    assert(matched == sensitive_matches(query, contents));
}

/// The report of a directory: the block of each file in the order given,
/// each followed by one blank separator line; `None` when any file's
/// block is `None`.
pub open spec fn directory_report(
    files: Seq<FileEntryView>,
    query: Seq<char>,
    case_sensitive: bool,
) -> Option<Seq<ReportLineView>>
    decreases files.len(),
{
    if files.len() == 0 {
        Some(Seq::empty())
    } else {
        match file_report(files[0].path, files[0].contents, query, case_sensitive) {
            Some(block) => match directory_report(files.skip(1), query, case_sensitive) {
                Some(rest) => Some(block + seq![ReportLineView::Blank] + rest),
                None => None,
            },
            None => None,
        }
    }
}

/// In case-sensitive mode the report of a directory always exists, since
/// every file's block does.
pub proof fn lemma_sensitive_directory_report_exists(files: Seq<FileEntryView>, query: Seq<char>)
    ensures
        directory_report(files, query, true) is Some,
    decreases files.len(),
{
    if files.len() > 0 {
        lemma_sensitive_report_exists(files[0].path, files[0].contents, query);
        lemma_sensitive_directory_report_exists(files.skip(1), query);
    }
}

/// Builds the report of a directory traversal: the files are given in
/// traversal order, and each file's block is followed by a blank line,
/// whether or not it matched anything.
pub fn search_directory(files: &Vec<FileEntry>, config: &Config) -> (r: Option<Vec<ReportLine>>)
    ensures
        match r {
            Some(v) => directory_report(
                files@.map_values(|f: FileEntry| f@),
                config.query@,
                config.case_sensitive,
            ) == Some(v@.map_values(|x: ReportLine| x@)),
            None => directory_report(
                files@.map_values(|f: FileEntry| f@),
                config.query@,
                config.case_sensitive,
            ) is None,
        },
        config.case_sensitive ==> r is Some,
{
    let ghost fseq = files@.map_values(|f: FileEntry| f@);
    let mut out: Vec<ReportLine> = Vec::new();
    let mut i: usize = 0;
    proof {
        assert(fseq.skip(0) =~= fseq);
        assert(out@.map_values(|x: ReportLine| x@) =~= Seq::<ReportLineView>::empty());
    }
    while i < files.len()
        invariant
            i <= files@.len(),
            fseq == files@.map_values(|f: FileEntry| f@),
            directory_report(fseq, config.query@, config.case_sensitive) == match directory_report(
                fseq.skip(i as int),
                config.query@,
                config.case_sensitive,
            ) {
                Some(rest) => Some(out@.map_values(|x: ReportLine| x@) + rest),
                None => None::<Seq<ReportLineView>>,
            },
        decreases files@.len() - i,
    {
        let ghost tail = fseq.skip(i as int);
        proof {
            assert(tail[0] == fseq[i as int]);
            assert(tail.skip(1) =~= fseq.skip(i as int + 1));
        }
        let file = &files[i];
        match search_single_file(file.path.as_str(), file.contents.as_str(), config) {
            Some(mut block) => {
                let ghost old_out = out@;
                let ghost block_seq = block@.map_values(|x: ReportLine| x@);
                out.append(&mut block);
                out.push(ReportLine::Blank);
                proof {
                    assert(out@.map_values(|x: ReportLine| x@) =~= old_out.map_values(
                        |x: ReportLine| x@,
                    ) + block_seq + seq![ReportLineView::Blank]);
                    if directory_report(fseq.skip(i as int + 1), config.query@, config.case_sensitive)
                        is Some {
                        let rest = directory_report(
                            fseq.skip(i as int + 1),
                            config.query@,
                            config.case_sensitive,
                        )->Some_0;
                        assert(old_out.map_values(|x: ReportLine| x@) + (block_seq + seq![
                            ReportLineView::Blank,
                        ] + rest) =~= (old_out.map_values(|x: ReportLine| x@) + block_seq + seq![
                            ReportLineView::Blank,
                        ]) + rest);
                    }
                }
            },
            None => {
                return None;
            },
        }
        i = i + 1;
    }
    proof {
        assert(fseq.skip(files@.len() as int) =~= Seq::<FileEntryView>::empty());
        assert(out@.map_values(|x: ReportLine| x@) + Seq::<ReportLineView>::empty()
            =~= out@.map_values(|x: ReportLine| x@));
    }
    Some(out)
}

/// The report of one whole run: a single file's block when the target is
/// a file, the directory report when it is a directory.
pub open spec fn run_report(config: Config, files: Seq<FileEntryView>) -> Option<
    Seq<ReportLineView>,
> {
    match config.input_type {
        InputType::File => file_report(
            files[0].path,
            files[0].contents,
            config.query@,
            config.case_sensitive,
        ),
        InputType::Directory => directory_report(files, config.query@, config.case_sensitive),
    }
}

/// Runs the search over the resolved target: `files` holds the single
/// target file, or the files found under the target directory in
/// traversal order. Returns the lines to print, or `None` when a
/// case-insensitive match text equals no line of its file.
pub fn run(config: &Config, files: &Vec<FileEntry>) -> (r: Option<Vec<ReportLine>>)
    requires
        config.input_type is File ==> files@.len() == 1,
    ensures
        match r {
            Some(v) => run_report(*config, files@.map_values(|f: FileEntry| f@)) == Some(
                v@.map_values(|x: ReportLine| x@),
            ),
            None => run_report(*config, files@.map_values(|f: FileEntry| f@)) is None,
        },
        config.case_sensitive ==> r is Some,
{
    match config.input_type {
        InputType::File => {
            let file = &files[0];
            proof {
                assert(files@.map_values(|f: FileEntry| f@)[0] == files@[0]@);
            }
            search_single_file(file.path.as_str(), file.contents.as_str(), config)
        },
        InputType::Directory => search_directory(files, config),
    }
}

} // verus!

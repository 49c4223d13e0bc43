//! Decisions of the PDF directory merger: which files are collected, how they
//! are grouped by directory, when a group is merged, the output name, the
//! backend's arguments, and which backend is used.
use vstd::prelude::*;
use vstd::string::*;
use crate::names::{is_mergeable_pdf, is_mergeable_pdf_name};
use crate::store::strings_view;

verus! {

/// One PDF found by the walk: its parent directory and its file name.
#[derive(Debug)]
pub struct PdfFile {
    pub dir: String,
    pub name: String,
}

/// The files of one directory that are merged together, in sorted order.
#[derive(Debug)]
pub struct MergeGroup {
    pub dir: String,
    pub names: Vec<String>,
}

pub open spec fn files_view(files: Seq<PdfFile>) -> Seq<(Seq<char>, Seq<char>)> {
    files.map_values(|f: PdfFile| (f.dir@, f.name@))
}

/// The collected file names of directory `dir`, in the order of `files`.
pub open spec fn names_in(files: Seq<(Seq<char>, Seq<char>)>, dir: Seq<char>) -> Seq<Seq<char>>
    decreases files.len(),
{
    if files.len() == 0 {
        Seq::empty()
    } else {
        let rest = names_in(files.drop_last(), dir);
        if files.last().0 == dir && is_mergeable_pdf_name(files.last().1) {
            rest.push(files.last().1)
        } else {
            rest
        }
    }
}

/// Lexicographic order of strings by character, which is the order of their
/// UTF-8 bytes.
pub open spec fn lex_le(a: Seq<char>, b: Seq<char>) -> bool
    decreases a.len(),
{
    if a.len() == 0 {
        true
    } else if b.len() == 0 {
        false
    } else if a[0] != b[0] {
        (a[0] as u32) < (b[0] as u32)
    } else {
        lex_le(a.drop_first(), b.drop_first())
    }
}

pub open spec fn is_sorted(v: Seq<Seq<char>>) -> bool {
    forall|i: int, j: int| 0 <= i < j < v.len() ==> lex_le(#[trigger] v[i], #[trigger] v[j])
}

/// Relies on `slice::sort` for `String`: the same strings, ordered by their bytes.
#[verifier::external_body]
fn sort_strings(v: &mut Vec<String>)
    ensures
        strings_view(final(v)@).to_multiset() == strings_view(old(v)@).to_multiset(),
        is_sorted(strings_view(final(v)@)),
{
    v.sort()
}

/// Whether some collected file lies in directory `dir`.
pub open spec fn holds_pdf(files: Seq<(Seq<char>, Seq<char>)>, dir: Seq<char>) -> bool {
    exists|j: int| 0 <= j < files.len() && #[trigger] files[j].0 == dir && is_mergeable_pdf_name(files[j].1)
}

proof fn lemma_holds_pdf_step(files: Seq<(Seq<char>, Seq<char>)>, i: int, dir: Seq<char>)
    requires
        0 <= i < files.len(),
    ensures
        holds_pdf(files.subrange(0, i + 1), dir) <==> (holds_pdf(files.subrange(0, i), dir) || (
        files[i].0 == dir && is_mergeable_pdf_name(files[i].1))),
{
    let pre = files.subrange(0, i);
    let next = files.subrange(0, i + 1);
    if holds_pdf(next, dir) {
        let j = choose|j: int| 0 <= j < next.len() && #[trigger] next[j].0 == dir && is_mergeable_pdf_name(next[j].1);
        if j < i {
            assert(pre[j] == next[j]);
        }
    }
    if holds_pdf(pre, dir) {
        let j = choose|j: int| 0 <= j < pre.len() && #[trigger] pre[j].0 == dir && is_mergeable_pdf_name(pre[j].1);
        assert(next[j] == pre[j]);
    }
    if files[i].0 == dir && is_mergeable_pdf_name(files[i].1) {
        assert(next[i] == files[i]);
    }
}

/// Position of the entry `dir` in `dirs`, if there is one.
fn find_dir(dirs: &Vec<String>, dir: &String) -> (r: Option<usize>)
    ensures
        match r {
            Some(k) => k < dirs@.len() && dirs@[k as int]@ == dir@,
            None => !strings_view(dirs@).contains(dir@),
        },
{
    let mut k: usize = 0;
    while k < dirs.len()
        invariant
            k <= dirs@.len(),
            forall|j: int| 0 <= j < k ==> (#[trigger] dirs@[j])@ != dir@,
        decreases dirs.len() - k,
    {
        if dirs[k] == *dir {
            return Some(k);
        }
        k = k + 1;
    }
    assert forall|j: int| 0 <= j < dirs@.len() implies strings_view(dirs@)[j] != dir@ by {
        assert(dirs@[j]@ != dir@);
    }
    None
}

/// The directories that hold a collected file, each once, in order of first appearance.
fn group_dirs(files: &Vec<PdfFile>) -> (r: Vec<String>)
    ensures
        strings_view(r@).no_duplicates(),
        forall|d: Seq<char>| holds_pdf(files_view(files@), d) <==> strings_view(r@).contains(d),
{
    let ghost fv = files_view(files@);
    let mut dirs: Vec<String> = Vec::new();
    let mut i: usize = 0;
    assert(strings_view(dirs@) =~= Seq::<Seq<char>>::empty());
    while i < files.len()
        invariant
            i <= files@.len(),
            fv == files_view(files@),
            strings_view(dirs@).no_duplicates(),
            forall|d: Seq<char>| holds_pdf(fv.subrange(0, i as int), d) <==> strings_view(dirs@).contains(d),
        decreases files.len() - i,
    {
        let f = &files[i];
        let ghost before = strings_view(dirs@);
        assert(fv[i as int] == (f.dir@, f.name@));
        if is_mergeable_pdf(f.name.as_str()) {
            match find_dir(&dirs, &f.dir) {
                Some(k) => {
                    assert(before[k as int] == f.dir@);
                    assert forall|d: Seq<char>| strings_view(dirs@).contains(d) <==> (before.contains(d)
                        || d == f.dir@) by {
                        if d == f.dir@ {
                            assert(before[k as int] == d);
                        }
                    }
                },
                None => {
                    dirs.push(f.dir.clone());
                    assert(strings_view(dirs@) =~= before.push(f.dir@));
                    assert(strings_view(dirs@)[before.len() as int] == f.dir@);
                    assert forall|d: Seq<char>| before.contains(d) implies strings_view(dirs@).contains(d) by {
                        let k = choose|k: int| 0 <= k < before.len() && before[k] == d;
                        assert(strings_view(dirs@)[k] == d);
                    }
                    assert forall|d: Seq<char>| strings_view(dirs@).contains(d) implies (before.contains(d) || d == f.dir@) by {
                        let k = choose|k: int| 0 <= k < strings_view(dirs@).len() && strings_view(dirs@)[k] == d;
                        if k < before.len() {
                            assert(before[k] == d);
                        }
                    }
                },
            }
            assert forall|d: Seq<char>| holds_pdf(fv.subrange(0, i + 1), d) <==> strings_view(dirs@).contains(d) by {
                lemma_holds_pdf_step(fv, i as int, d);
                assert(holds_pdf(fv.subrange(0, i as int), d) <==> before.contains(d));
                assert(is_mergeable_pdf_name(fv[i as int].1));
                assert(fv[i as int].0 == f.dir@);
                assert(strings_view(dirs@).contains(d) <==> (before.contains(d) || d == f.dir@));
            }
        } else {
            assert forall|d: Seq<char>| holds_pdf(fv.subrange(0, i + 1), d) <==> strings_view(dirs@).contains(d) by {
                lemma_holds_pdf_step(fv, i as int, d);
            }
        }
        i = i + 1;
    }
    assert(fv.subrange(0, files.len() as int) =~= fv);
    dirs
}

/// The collected names of directory `dir`, in the order of `files`.
fn names_of_dir(files: &Vec<PdfFile>, dir: &String) -> (r: Vec<String>)
    ensures
        strings_view(r@) == names_in(files_view(files@), dir@),
{
    let mut r: Vec<String> = Vec::new();
    let mut i: usize = 0;
    while i < files.len()
        invariant
            i <= files@.len(),
            strings_view(r@) == names_in(files_view(files@).subrange(0, i as int), dir@),
        decreases files.len() - i,
    {
        let ghost all = files_view(files@);
        assert(all.subrange(0, i + 1).drop_last() =~= all.subrange(0, i as int));
        let f = &files[i];
        if f.dir == *dir && is_mergeable_pdf(f.name.as_str()) {
            r.push(f.name.clone());
        }
        assert(strings_view(r@) =~= names_in(all.subrange(0, i + 1), dir@));
        i = i + 1;
    }
    assert(files_view(files@).subrange(0, files.len() as int) =~= files_view(files@));
    r
}

pub open spec fn group_dirs_view(groups: Seq<MergeGroup>) -> Seq<Seq<char>> {
    groups.map_values(|g: MergeGroup| g.dir@)
}

/// Groups the collected PDFs by parent directory: one group per directory
/// that holds a collected file, with that directory's collected names sorted.
pub fn group_pdfs(files: &Vec<PdfFile>) -> (r: Vec<MergeGroup>)
    ensures
        group_dirs_view(r@).no_duplicates(),
        forall|d: Seq<char>| holds_pdf(files_view(files@), d) <==> group_dirs_view(r@).contains(d),
        forall|k: int|
            0 <= k < r@.len() ==> strings_view((#[trigger] r@[k]).names@).to_multiset()
                == names_in(files_view(files@), r@[k].dir@).to_multiset() && is_sorted(
                strings_view(r@[k].names@),
            ),
{
    let dirs = group_dirs(files);
    let mut groups: Vec<MergeGroup> = Vec::new();
    let mut k: usize = 0;
    while k < dirs.len()
        invariant
            k <= dirs@.len(),
            groups@.len() == k,
            group_dirs_view(groups@) == strings_view(dirs@).subrange(0, k as int),
            forall|m: int|
                0 <= m < k ==> strings_view((#[trigger] groups@[m]).names@).to_multiset()
                    == names_in(files_view(files@), groups@[m].dir@).to_multiset() && is_sorted(
                    strings_view(groups@[m].names@),
                ),
        decreases dirs.len() - k,
    {
        let mut names = names_of_dir(files, &dirs[k]);
        sort_strings(&mut names);
        groups.push(MergeGroup { dir: dirs[k].clone(), names });
        assert(group_dirs_view(groups@) =~= strings_view(dirs@).subrange(0, k + 1));
        k = k + 1;
    }
    assert(group_dirs_view(groups@) =~= strings_view(dirs@));
    groups
}

/// What the merger does with one directory's group.
#[derive(Debug, Clone, Copy, PartialEq, Eq, Structural)]
pub enum GroupStep {
    /// An empty group: nothing to do or report.
    Ignore,
    /// A single file: nothing to merge, reported as skipped.
    SkipSingle,
    /// The output file already exists and is never overwritten.
    SkipExisting,
    /// The backend is run on the group.
    Merge,
}

/// Merges a group of two or more files whose output does not exist yet.
pub fn plan_group(count: usize, output_exists: bool) -> (r: GroupStep)
    ensures
        count == 0 ==> r == GroupStep::Ignore,
        count == 1 ==> r == GroupStep::SkipSingle,
        count >= 2 && output_exists ==> r == GroupStep::SkipExisting,
        count >= 2 && !output_exists ==> r == GroupStep::Merge,
{
    if count == 0 {
        GroupStep::Ignore
    } else if count == 1 {
        GroupStep::SkipSingle
    } else if output_exists {
        GroupStep::SkipExisting
    } else {
        GroupStep::Merge
    }
}

/// The name of a directory's merged output: `<directory>_merged.pdf`, or
/// `merged_merged.pdf` for a directory without a usable name.
pub fn merged_output_name(dir_name: Option<&str>) -> (r: String)
    ensures
        r@ == match dir_name {
            Some(n) => n@ + "_merged.pdf"@,
            None => "merged"@ + "_merged.pdf"@,
        },
{
    let base = match dir_name {
        Some(n) => String::from_str(n),
        None => String::from_str("merged"),
    };
    base.concat("_merged.pdf")
}

/// The page-selection arguments of the concatenating backend: each input
/// followed by `1-z`, all of its pages.
pub open spec fn page_args(inputs: Seq<Seq<char>>) -> Seq<Seq<char>>
    decreases inputs.len(),
{
    if inputs.len() == 0 {
        Seq::empty()
    } else {
        page_args(inputs.drop_last()) + seq![inputs.last(), "1-z"@]
    }
}

/// The concatenating backend's arguments:
/// `--empty --pages <in1> 1-z <in2> 1-z ... -- <output>`.
pub fn qpdf_args(inputs: &Vec<String>, output: &str) -> (r: Vec<String>)
    ensures
        strings_view(r@) == seq!["--empty"@, "--pages"@] + page_args(strings_view(inputs@))
            + seq!["--"@, output@],
{
    let mut r: Vec<String> = Vec::new();
    r.push(String::from_str("--empty"));
    r.push(String::from_str("--pages"));
    let ghost head = seq!["--empty"@, "--pages"@];
    assert(strings_view(r@) =~= head + page_args(strings_view(inputs@).subrange(0, 0)));
    let mut i: usize = 0;
    while i < inputs.len()
        invariant
            i <= inputs@.len(),
            head == seq!["--empty"@, "--pages"@],
            strings_view(r@) == head + page_args(strings_view(inputs@).subrange(0, i as int)),
        decreases inputs.len() - i,
    {
        let ghost all = strings_view(inputs@);
        assert(all.subrange(0, i + 1).drop_last() =~= all.subrange(0, i as int));
        let ghost prev = strings_view(r@);
        r.push(inputs[i].clone());
        r.push(String::from_str("1-z"));
        assert(strings_view(r@) =~= prev + seq![all[i as int], "1-z"@]);
        assert(page_args(all.subrange(0, i + 1)) =~= page_args(all.subrange(0, i as int)) + seq![
            all[i as int],
            "1-z"@,
        ]);
        assert(strings_view(r@) =~= head + page_args(all.subrange(0, i + 1)));
        i = i + 1;
    }
    assert(strings_view(inputs@).subrange(0, inputs.len() as int) =~= strings_view(inputs@));
    let ghost before = strings_view(r@);
    r.push(String::from_str("--"));
    r.push(String::from_str(output));
    assert(strings_view(r@) =~= before + seq!["--"@, output@]);
    r
}

/// The rasterizing backend's arguments:
/// `-dBATCH -dNOPAUSE -q -sDEVICE=pdfwrite -sOutputFile=<output> <in1> <in2> ...`.
pub fn gs_args(inputs: &Vec<String>, output: &str) -> (r: Vec<String>)
    ensures
        strings_view(r@) == seq![
            "-dBATCH"@,
            "-dNOPAUSE"@,
            "-q"@,
            "-sDEVICE=pdfwrite"@,
            "-sOutputFile="@ + output@,
        ] + strings_view(inputs@),
{
    let mut r: Vec<String> = Vec::new();
    r.push(String::from_str("-dBATCH"));
    r.push(String::from_str("-dNOPAUSE"));
    r.push(String::from_str("-q"));
    r.push(String::from_str("-sDEVICE=pdfwrite"));
    r.push(String::from_str("-sOutputFile=").concat(output));
    let ghost head = strings_view(r@);
    let mut i: usize = 0;
    while i < inputs.len()
        invariant
            i <= inputs@.len(),
            strings_view(r@) == head + strings_view(inputs@).subrange(0, i as int),
        decreases inputs.len() - i,
    {
        let ghost prev = strings_view(r@);
        r.push(inputs[i].clone());
        assert(strings_view(r@) =~= prev.push(inputs@[i as int]@));
        assert(strings_view(r@) =~= head + strings_view(inputs@).subrange(0, i + 1));
        i = i + 1;
    }
    assert(strings_view(inputs@).subrange(0, inputs.len() as int) =~= strings_view(inputs@));
    r
}

/// A merge backend.
#[derive(Debug, Clone, Copy, PartialEq, Eq, Structural)]
pub enum Backend {
    /// The page-concatenating tool, preferred.
    Qpdf,
    /// The rasterizing writer, the alternate.
    Ghostscript,
}

/// What has been learned so far about the tools on the host.
#[derive(Debug, Clone, Copy, PartialEq, Eq, Structural)]
pub struct ToolFacts {
    /// Whether the preferred tool was found, once checked.
    pub primary: Option<bool>,
    /// Whether the preferred tool was found after an install attempt, once tried.
    pub primary_after_install: Option<bool>,
    /// Whether the alternate tool was found, once checked.
    pub alternate: Option<bool>,
}

/// The next step of backend selection.
#[derive(Debug, Clone, Copy, PartialEq, Eq, Structural)]
pub enum ToolAction {
    /// Check whether the preferred tool is on the host.
    CheckPrimary,
    /// Try to install the preferred tool, then check for it again.
    InstallPrimary,
    /// Check whether the alternate tool is on the host.
    CheckAlternate,
    /// Selection is over: use this backend.
    Use(Backend),
    /// Selection is over: no backend is available, which is fatal.
    Unavailable,
}

/// Backend selection, one step at a time: the alternate tool when it is
/// forced; otherwise the preferred tool when present, or after an install
/// attempt that is allowed and succeeds; otherwise the alternate tool when present.
pub fn next_tool_action(force_alternate: bool, allow_install: bool, facts: ToolFacts) -> (r:
    ToolAction)
    ensures
        force_alternate ==> r == match facts.alternate {
            None => ToolAction::CheckAlternate,
            Some(true) => ToolAction::Use(Backend::Ghostscript),
            Some(false) => ToolAction::Unavailable,
        },
        !force_alternate && facts.primary is None ==> r == ToolAction::CheckPrimary,
        !force_alternate && facts.primary == Some(true) ==> r == ToolAction::Use(Backend::Qpdf),
        !force_alternate && facts.primary == Some(false) && allow_install
            && facts.primary_after_install is None ==> r == ToolAction::InstallPrimary,
        !force_alternate && facts.primary == Some(false) && allow_install
            && facts.primary_after_install == Some(true) ==> r == ToolAction::Use(Backend::Qpdf),
        !force_alternate && facts.primary == Some(false) && (!allow_install
            || facts.primary_after_install == Some(false)) ==> r == match facts.alternate {
            None => ToolAction::CheckAlternate,
            Some(true) => ToolAction::Use(Backend::Ghostscript),
            Some(false) => ToolAction::Unavailable,
        },
{
    let fallback = match facts.alternate {
        None => ToolAction::CheckAlternate,
        Some(true) => ToolAction::Use(Backend::Ghostscript),
        Some(false) => ToolAction::Unavailable,
    };
    if force_alternate {
        return fallback;
    }
    match facts.primary {
        None => ToolAction::CheckPrimary,
        Some(true) => ToolAction::Use(Backend::Qpdf),
        Some(false) => {
            if allow_install {
                match facts.primary_after_install {
                    None => ToolAction::InstallPrimary,
                    Some(true) => ToolAction::Use(Backend::Qpdf),
                    Some(false) => fallback,
                }
            } else {
                fallback
            }
        },
    }
}

} // verus!

//! Decisions of the Markdown batch converter: which files are candidates,
//! where each output goes, when a file is skipped, and what the compiler is
//! handed.
use vstd::prelude::*;
use vstd::string::*;
use crate::names::{file_stem, is_markdown_candidate, is_markdown_name, stem_of};
use crate::store::strings_view;

verus! {

/// The candidates among a list of file names, in their order.
pub open spec fn markdown_selection(names: Seq<Seq<char>>) -> Seq<Seq<char>>
    decreases names.len(),
{
    if names.len() == 0 {
        Seq::empty()
    } else {
        let rest = markdown_selection(names.drop_last());
        if is_markdown_name(names.last()) {
            rest.push(names.last())
        } else {
            rest
        }
    }
}

/// The converter's selection is the sequence of names filtered by the name
/// rule: order kept, nothing added.
pub proof fn markdown_selection_is_filter(names: Seq<Seq<char>>)
    ensures
        markdown_selection(names) == names.filter(|n: Seq<char>| is_markdown_name(n)),
    decreases names.len(),
{
    reveal(Seq::filter);
    if names.len() > 0 {
        markdown_selection_is_filter(names.drop_last());
    }
}

/// The names of the regular files of a directory (or the matches of a glob)
/// that the converter takes, in their order.
pub fn markdown_candidates(names: &Vec<String>) -> (r: Vec<String>)
    ensures
        strings_view(r@) == markdown_selection(strings_view(names@)),
{
    let mut r: Vec<String> = Vec::new();
    let mut i: usize = 0;
    while i < names.len()
        invariant
            i <= names.len(),
            strings_view(r@) == markdown_selection(strings_view(names@).subrange(0, i as int)),
        decreases names.len() - i,
    {
        let ghost all = strings_view(names@);
        assert(all.subrange(0, i + 1).drop_last() =~= all.subrange(0, i as int));
        if is_markdown_candidate(names[i].as_str()) {
            r.push(names[i].clone());
        }
        assert(strings_view(r@) =~= markdown_selection(all.subrange(0, i + 1)));
        i = i + 1;
    }
    assert(strings_view(names@).subrange(0, names.len() as int) =~= strings_view(names@));
    r
}

pub open spec fn pdf_suffix() -> Seq<char> {
    seq!['.', 'p', 'd', 'f']
}

pub open spec fn default_output_stem() -> Seq<char> {
    seq!['o', 'u', 't', 'p', 'u', 't']
}

/// The file name of the PDF made from an input file: its stem with `.pdf`,
/// or `output.pdf` for a path without a file name.
pub open spec fn pdf_name_of(file_name: Option<Seq<char>>) -> Seq<char> {
    match file_name {
        Some(n) => stem_of(n) + pdf_suffix(),
        None => default_output_stem() + pdf_suffix(),
    }
}

/// The file name of the PDF that an input file is converted to.
pub fn pdf_output_name(file_name: Option<&str>) -> (r: String)
    ensures
        r@ == pdf_name_of(
            match file_name {
                Some(n) => Some(n@),
                None => None,
            },
        ),
{
    let fallback = "output";
    let suffix = ".pdf";
    proof {
        reveal_strlit("output");
        reveal_strlit(".pdf");
        assert(fallback@ =~= default_output_stem());
        assert(suffix@ =~= pdf_suffix());
    }
    let stem = match file_name {
        Some(n) => file_stem(n),
        None => String::from_str(fallback),
    };
    stem.concat(suffix)
}

/// What the converter does with one candidate file.
#[derive(Debug, Clone, Copy, PartialEq, Eq, Structural)]
pub enum ConvertStep {
    /// The output exists and overwriting was not asked for: nothing is run.
    Skip,
    /// The compiler is run on the file.
    Compile,
}

/// Skips a file whose output already exists, unless forced.
pub fn plan_file(output_exists: bool, force: bool) -> (r: ConvertStep)
    ensures
        r == (if output_exists && !force {
            ConvertStep::Skip
        } else {
            ConvertStep::Compile
        }),
{
    if output_exists && !force {
        ConvertStep::Skip
    } else {
        ConvertStep::Compile
    }
}

pub open spec fn compile_verb() -> Seq<char> {
    seq!['c', 'o', 'm', 'p', 'i', 'l', 'e']
}

/// The compiler's arguments: the verb `compile`, the input, the output.
pub fn compile_args(input: &str, output: &str) -> (r: Vec<String>)
    ensures
        strings_view(r@) == seq![compile_verb(), input@, output@],
{
    let verb = "compile";
    proof {
        reveal_strlit("compile");
        assert(verb@ =~= compile_verb());
    }
    let mut r: Vec<String> = Vec::new();
    r.push(String::from_str(verb));
    r.push(String::from_str(input));
    r.push(String::from_str(output));
    assert(strings_view(r@) =~= seq![compile_verb(), input@, output@]);
    r
}

/// The compiler's arguments for one candidate file, or `None` when the file
/// is skipped because its output exists and overwriting was not asked for.
pub fn conversion_command(input: &str, output: &str, output_exists: bool, force: bool) -> (r:
    Option<Vec<String>>)
    ensures
        output_exists && !force ==> r is None,
        !(output_exists && !force) ==> r is Some && strings_view(r->0@) == seq![
            compile_verb(),
            input@,
            output@,
        ],
{
    match plan_file(output_exists, force) {
        ConvertStep::Skip => None,
        ConvertStep::Compile => Some(compile_args(input, output)),
    }
}

/// Counts of a batch: files converted (or skipped as already done) and files failed.
#[derive(Debug, Clone, Copy, PartialEq, Eq, Structural)]
pub struct ConvertTally {
    pub converted: u64,
    pub failed: u64,
}

impl ConvertTally {
    pub fn new() -> (r: ConvertTally)
        ensures
            r.converted == 0 && r.failed == 0,
    {
        ConvertTally { converted: 0, failed: 0 }
    }

    /// Counts one file's outcome; a count stops at its largest value.
    pub fn record(&mut self, succeeded: bool)
        ensures
            succeeded ==> final(self).converted == old(self).converted.saturating_add(1)
                && final(self).failed == old(self).failed,
            !succeeded ==> final(self).failed == old(self).failed.saturating_add(1)
                && final(self).converted == old(self).converted,
    {
        if succeeded {
            self.converted = self.converted.saturating_add(1);
        } else {
            self.failed = self.failed.saturating_add(1);
        }
    }
}

} // verus!

use crust_tools::merge::{
    group_pdfs, gs_args, merged_output_name, next_tool_action, plan_group, qpdf_args, Backend,
    GroupStep, PdfFile, ToolAction, ToolFacts,
};

fn strings(v: &[&str]) -> Vec<String> {
    v.iter().map(|s| s.to_string()).collect()
}

fn file(dir: &str, name: &str) -> PdfFile {
    PdfFile { dir: dir.to_string(), name: name.to_string() }
}

fn facts(primary: Option<bool>, after: Option<bool>, alternate: Option<bool>) -> ToolFacts {
    ToolFacts { primary, primary_after_install: after, alternate }
}

#[test]
fn discovery_groups_by_directory() {
    let files = vec![
        file("root/dirA", "1.pdf"),
        file("root/dirA", "2.pdf"),
        file("root/dirB", "3.pdf"),
        file("root/dirB", "3_merged.pdf"),
    ];
    let groups = group_pdfs(&files);
    assert_eq!(groups.len(), 2);
    assert_eq!(groups[0].dir, "root/dirA");
    assert_eq!(groups[0].names, strings(&["1.pdf", "2.pdf"]));
    assert_eq!(groups[1].dir, "root/dirB");
    assert_eq!(groups[1].names, strings(&["3.pdf"]));
    assert_eq!(plan_group(groups[0].names.len(), false), GroupStep::Merge);
    assert_eq!(merged_output_name(Some("dirA")), "dirA_merged.pdf");
    assert_eq!(plan_group(groups[1].names.len(), false), GroupStep::SkipSingle);
}

#[test]
fn group_names_are_sorted_and_non_pdfs_dropped() {
    let files = vec![
        file("d", "b.pdf"),
        file("e", "x.PDF"),
        file("d", "notes.txt"),
        file("d", "a.pdf"),
        file("d", "C.pdf"),
    ];
    let groups = group_pdfs(&files);
    assert_eq!(groups.len(), 2);
    assert_eq!(groups[0].dir, "d");
    assert_eq!(groups[0].names, strings(&["C.pdf", "a.pdf", "b.pdf"]));
    assert_eq!(groups[1].dir, "e");
    assert_eq!(groups[1].names, strings(&["x.PDF"]));
}

#[test]
fn no_pdfs_no_groups() {
    assert!(group_pdfs(&Vec::new()).is_empty());
    assert!(group_pdfs(&vec![file("d", "a_merged.pdf"), file("d", "a.doc")]).is_empty());
}

#[test]
fn group_steps() {
    assert_eq!(plan_group(0, false), GroupStep::Ignore);
    assert_eq!(plan_group(1, true), GroupStep::SkipSingle);
    assert_eq!(plan_group(2, true), GroupStep::SkipExisting);
    assert_eq!(plan_group(5, false), GroupStep::Merge);
}

#[test]
fn merged_name_fallback() {
    assert_eq!(merged_output_name(None), "merged_merged.pdf");
}

#[test]
fn qpdf_arguments() {
    let inputs = strings(&["d/1.pdf", "d/2.pdf"]);
    assert_eq!(
        qpdf_args(&inputs, "d/d_merged.pdf"),
        strings(&["--empty", "--pages", "d/1.pdf", "1-z", "d/2.pdf", "1-z", "--", "d/d_merged.pdf"])
    );
}

#[test]
fn gs_arguments() {
    let inputs = strings(&["d/1.pdf", "d/2.pdf"]);
    assert_eq!(
        gs_args(&inputs, "d/d_merged.pdf"),
        strings(&[
            "-dBATCH",
            "-dNOPAUSE",
            "-q",
            "-sDEVICE=pdfwrite",
            "-sOutputFile=d/d_merged.pdf",
            "d/1.pdf",
            "d/2.pdf"
        ])
    );
}

#[test]
fn tool_selection_prefers_primary() {
    assert_eq!(next_tool_action(false, true, facts(None, None, None)), ToolAction::CheckPrimary);
    assert_eq!(
        next_tool_action(false, true, facts(Some(true), None, None)),
        ToolAction::Use(Backend::Qpdf)
    );
}

#[test]
fn tool_selection_installs_then_falls_back() {
    assert_eq!(
        next_tool_action(false, true, facts(Some(false), None, None)),
        ToolAction::InstallPrimary
    );
    assert_eq!(
        next_tool_action(false, true, facts(Some(false), Some(true), None)),
        ToolAction::Use(Backend::Qpdf)
    );
    assert_eq!(
        next_tool_action(false, true, facts(Some(false), Some(false), None)),
        ToolAction::CheckAlternate
    );
    assert_eq!(
        next_tool_action(false, true, facts(Some(false), Some(false), Some(true))),
        ToolAction::Use(Backend::Ghostscript)
    );
    assert_eq!(
        next_tool_action(false, true, facts(Some(false), Some(false), Some(false))),
        ToolAction::Unavailable
    );
}

#[test]
fn tool_selection_without_install() {
    assert_eq!(
        next_tool_action(false, false, facts(Some(false), None, None)),
        ToolAction::CheckAlternate
    );
    assert_eq!(
        next_tool_action(false, false, facts(Some(false), None, Some(false))),
        ToolAction::Unavailable
    );
}

#[test]
fn tool_selection_forced_alternate() {
    assert_eq!(next_tool_action(true, true, facts(None, None, None)), ToolAction::CheckAlternate);
    assert_eq!(
        next_tool_action(true, true, facts(Some(true), None, Some(true))),
        ToolAction::Use(Backend::Ghostscript)
    );
    assert_eq!(
        next_tool_action(true, true, facts(Some(true), None, Some(false))),
        ToolAction::Unavailable
    );
}

use crust_tools::convert::{
    compile_args, conversion_command, markdown_candidates, pdf_output_name, plan_file,
    ConvertStep, ConvertTally,
};

fn strings(v: &[&str]) -> Vec<String> {
    v.iter().map(|s| s.to_string()).collect()
}

#[test]
fn directory_filter_keeps_only_visible_markdown() {
    let names = strings(&["a.md", ".hidden.md", "b.md~", "c.txt"]);
    assert_eq!(markdown_candidates(&names), strings(&["a.md"]));
}

#[test]
fn directory_filter_keeps_order() {
    let names = strings(&["z.md", "notes.txt", "a.md", "x.md.bak", "m.md"]);
    assert_eq!(markdown_candidates(&names), strings(&["z.md", "a.md", "m.md"]));
    assert!(markdown_candidates(&Vec::new()).is_empty());
}

#[test]
fn existing_output_is_skipped_unless_forced() {
    assert_eq!(conversion_command("a.md", "a.pdf", true, false), None);
    assert_eq!(
        conversion_command("a.md", "a.pdf", true, true),
        Some(strings(&["compile", "a.md", "a.pdf"]))
    );
    assert_eq!(
        conversion_command("a.md", "a.pdf", false, false),
        Some(strings(&["compile", "a.md", "a.pdf"]))
    );
}

#[test]
fn plan_file_cases() {
    assert_eq!(plan_file(true, false), ConvertStep::Skip);
    assert_eq!(plan_file(true, true), ConvertStep::Compile);
    assert_eq!(plan_file(false, false), ConvertStep::Compile);
    assert_eq!(plan_file(false, true), ConvertStep::Compile);
}

#[test]
fn compile_arguments() {
    assert_eq!(
        compile_args("/d/in.md", "/o/in.pdf"),
        strings(&["compile", "/d/in.md", "/o/in.pdf"])
    );
}

#[test]
fn output_name_uses_stem() {
    assert_eq!(pdf_output_name(Some("a.md")), "a.pdf");
    assert_eq!(pdf_output_name(Some("report.v2.md")), "report.v2.pdf");
    assert_eq!(pdf_output_name(Some("README")), "README.pdf");
    assert_eq!(pdf_output_name(None), "output.pdf");
}

#[test]
fn tally_counts_outcomes() {
    let mut t = ConvertTally::new();
    t.record(true);
    t.record(false);
    t.record(true);
    assert_eq!(t.converted, 2);
    assert_eq!(t.failed, 1);
}

#[test]
fn tally_stops_at_largest_count() {
    let mut t = ConvertTally { converted: u64::MAX, failed: 0 };
    t.record(true);
    assert_eq!(t.converted, u64::MAX);
}

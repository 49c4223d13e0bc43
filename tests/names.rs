use crust_tools::names::{
    contains_char, file_extension, file_stem, find_last, has_suffix, is_glob_pattern,
    is_hidden_or_temp_name, is_markdown_candidate, is_mergeable_pdf,
};

#[test]
fn extension_follows_last_dot() {
    assert_eq!(file_extension("a.md"), Some("md".to_string()));
    assert_eq!(file_extension("a.tar.gz"), Some("gz".to_string()));
    assert_eq!(file_extension("b.md~"), Some("md~".to_string()));
    assert_eq!(file_extension("x."), Some("".to_string()));
    assert_eq!(file_extension("..pdf"), Some("pdf".to_string()));
}

#[test]
fn no_extension_cases() {
    assert_eq!(file_extension("README"), None);
    assert_eq!(file_extension(".hidden"), None);
    assert_eq!(file_extension(".."), None);
    assert_eq!(file_extension(""), None);
}

#[test]
fn stem_precedes_last_dot() {
    assert_eq!(file_stem("notes.md"), "notes");
    assert_eq!(file_stem("a.tar.gz"), "a.tar");
    assert_eq!(file_stem(".bashrc"), ".bashrc");
    assert_eq!(file_stem("plain"), "plain");
    assert_eq!(file_stem(".."), "..");
}

#[test]
fn find_last_character() {
    assert_eq!(find_last("a.b.c", '.'), Some(3));
    assert_eq!(find_last("abc", '.'), None);
    assert_eq!(find_last("", '.'), None);
}

#[test]
fn glob_metacharacters() {
    assert!(is_glob_pattern("./*.md"));
    assert!(is_glob_pattern("doc?.md"));
    assert!(is_glob_pattern("[ab].md"));
    assert!(!is_glob_pattern("docs/readme.md"));
    assert!(contains_char("a~", '~'));
    assert!(!contains_char("", '~'));
}

#[test]
fn hidden_and_temp_names() {
    assert!(is_hidden_or_temp_name(".hidden.md"));
    assert!(is_hidden_or_temp_name("b.md~"));
    assert!(is_hidden_or_temp_name("~lock.md"));
    assert!(!is_hidden_or_temp_name("a.md"));
}

#[test]
fn markdown_candidate_names() {
    assert!(is_markdown_candidate("a.md"));
    assert!(is_markdown_candidate("x.y.md"));
    assert!(!is_markdown_candidate(".hidden.md"));
    assert!(!is_markdown_candidate("b.md~"));
    assert!(!is_markdown_candidate("c.txt"));
    assert!(!is_markdown_candidate("a.MD"));
    assert!(!is_markdown_candidate("md"));
}

#[test]
fn mergeable_pdf_names() {
    assert!(is_mergeable_pdf("1.pdf"));
    assert!(is_mergeable_pdf("Scan.PDF"));
    assert!(is_mergeable_pdf("x.PdF"));
    assert!(!is_mergeable_pdf("3_merged.pdf"));
    assert!(!is_mergeable_pdf("dir__merged.pdf"));
    assert!(!is_mergeable_pdf(".pdf"));
    assert!(!is_mergeable_pdf("a.pdfx"));
    assert!(!is_mergeable_pdf("a.txt"));
    assert!(is_mergeable_pdf("a_MERGED.pdf"));
}

#[test]
fn suffix_check() {
    assert!(has_suffix("abc", "bc"));
    assert!(has_suffix("abc", ""));
    assert!(!has_suffix("bc", "abc"));
    assert!(!has_suffix("abc", "ab"));
}

//! Rules on single file names: extension, stem, and the name filters that
//! decide which files the converter and the merger consider.
use vstd::prelude::*;
use vstd::string::*;

verus! {

/// Index of the last occurrence of `c` in `s`, or -1 when there is none.
pub open spec fn last_index_of(s: Seq<char>, c: char) -> int
    decreases s.len(),
{
    if s.len() == 0 {
        -1
    } else if s.last() == c {
        s.len() - 1
    } else {
        last_index_of(s.drop_last(), c)
    }
}

/// Whether `name` is split at a dot into a stem and an extension: the name
/// has a dot that is not its first character, and it is not `..`.
pub open spec fn has_extension(name: Seq<char>) -> bool {
    name != seq!['.', '.'] && last_index_of(name, '.') > 0
}

/// The extension of a file name: what follows the last dot, when the name
/// is split there.
pub open spec fn extension_of(name: Seq<char>) -> Option<Seq<char>> {
    if has_extension(name) {
        Some(name.subrange(last_index_of(name, '.') + 1, name.len() as int))
    } else {
        None
    }
}

/// The stem of a file name: what precedes the last dot, or the whole name
/// when it has no extension.
pub open spec fn stem_of(name: Seq<char>) -> Seq<char> {
    if has_extension(name) {
        name.subrange(0, last_index_of(name, '.'))
    } else {
        name
    }
}

/// A hidden file (leading dot) or an editor's temporary file (a `~` in the name).
pub open spec fn is_hidden_or_temp(name: Seq<char>) -> bool {
    (name.len() > 0 && name[0] == '.') || name.contains('~')
}

/// A name the converter considers: extension exactly `md`, neither hidden nor temporary.
pub open spec fn is_markdown_name(name: Seq<char>) -> bool {
    extension_of(name) == Some(seq!['m', 'd']) && !is_hidden_or_temp(name)
}

/// Whether an extension is `pdf`, ignoring ASCII case.
pub open spec fn is_pdf_extension(e: Seq<char>) -> bool {
    &&& e.len() == 3
    &&& (e[0] == 'p' || e[0] == 'P')
    &&& (e[1] == 'd' || e[1] == 'D')
    &&& (e[2] == 'f' || e[2] == 'F')
}

pub open spec fn ends_with(s: Seq<char>, suffix: Seq<char>) -> bool {
    suffix.len() <= s.len() && s.subrange(s.len() - suffix.len(), s.len() as int) == suffix
}

pub open spec fn merged_suffix() -> Seq<char> {
    seq!['_', 'm', 'e', 'r', 'g', 'e', 'd', '.', 'p', 'd', 'f']
}

/// A name the merger collects: extension `pdf` in any ASCII case, and not
/// the output of an earlier merge (suffix `_merged.pdf`).
pub open spec fn is_mergeable_pdf_name(name: Seq<char>) -> bool {
    &&& extension_of(name) is Some
    &&& is_pdf_extension(extension_of(name)->0)
    &&& !ends_with(name, merged_suffix())
}

/// Whether a converter input holds a glob metacharacter.
pub open spec fn is_glob_spec(s: Seq<char>) -> bool {
    s.contains('*') || s.contains('?') || s.contains('[')
}

/// Whether `s` holds the character `c`.
pub fn contains_char(s: &str, c: char) -> (r: bool)
    ensures
        r == s@.contains(c),
{
    let n = s.unicode_len();
    let mut i: usize = 0;
    while i < n
        invariant
            n == s@.len(),
            i <= n,
            forall|j: int| 0 <= j < i ==> s@[j] != c,
        decreases n - i,
    {
        if s.get_char(i) == c {
            return true;
        }
        i = i + 1;
    }
    false
}

/// Index of the last occurrence of `c` in `s`.
pub fn find_last(s: &str, c: char) -> (r: Option<usize>)
    ensures
        match r {
            Some(i) => i as int == last_index_of(s@, c),
            None => last_index_of(s@, c) == -1,
        },
{
    let n = s.unicode_len();
    let mut i: usize = n;
    assert(s@.subrange(0, n as int) =~= s@);
    while i > 0
        invariant
            n == s@.len(),
            i <= n,
            last_index_of(s@, c) == last_index_of(s@.subrange(0, i as int), c),
        decreases i,
    {
        let ghost pre = s@.subrange(0, i as int);
        assert(pre.drop_last() == s@.subrange(0, i - 1));
        if s.get_char(i - 1) == c {
            return Some(i - 1);
        }
        i = i - 1;
    }
    assert(s@.subrange(0, 0).len() == 0);
    None
}

proof fn lemma_last_index_bounds(s: Seq<char>, c: char)
    ensures
        -1 <= last_index_of(s, c) < s.len(),
        last_index_of(s, c) >= 0 ==> s[last_index_of(s, c)] == c,
    decreases s.len(),
{
    if s.len() > 0 && s.last() != c {
        lemma_last_index_bounds(s.drop_last(), c);
    }
}

fn is_dot_dot(name: &str) -> (r: bool)
    ensures
        r == (name@ == seq!['.', '.']),
{
    let n = name.unicode_len();
    if n != 2 {
        return false;
    }
    let r = name.get_char(0) == '.' && name.get_char(1) == '.';
    assert(r ==> name@ =~= seq!['.', '.']);
    r
}

/// The extension of a file name, as `Path::extension` gives it.
pub fn file_extension(name: &str) -> (r: Option<String>)
    ensures
        r matches Some(e) ==> extension_of(name@) == Some(e@),
        r is None ==> extension_of(name@) is None,
{
    proof {
        lemma_last_index_bounds(name@, '.');
    }
    let n = name.unicode_len();
    if is_dot_dot(name) {
        return None;
    }
    match find_last(name, '.') {
        Some(i) if i > 0 => {
            let ext = name.substring_char(i + 1, n);
            Some(String::from_str(ext))
        },
        _ => None,
    }
}

/// The stem of a file name, as `Path::file_stem` gives it.
pub fn file_stem(name: &str) -> (r: String)
    ensures
        r@ == stem_of(name@),
{
    proof {
        lemma_last_index_bounds(name@, '.');
    }
    if is_dot_dot(name) {
        return String::from_str(name);
    }
    match find_last(name, '.') {
        Some(i) if i > 0 => String::from_str(name.substring_char(0, i)),
        _ => String::from_str(name),
    }
}

/// Whether an input names a glob pattern rather than a file or a directory.
pub fn is_glob_pattern(input: &str) -> (r: bool)
    ensures
        r == is_glob_spec(input@),
{
    contains_char(input, '*') || contains_char(input, '?') || contains_char(input, '[')
}

pub fn is_hidden_or_temp_name(name: &str) -> (r: bool)
    ensures
        r == is_hidden_or_temp(name@),
{
    (name.unicode_len() > 0 && name.get_char(0) == '.') || contains_char(name, '~')
}

/// Whether the converter takes a file of this name from a directory or a glob.
pub fn is_markdown_candidate(name: &str) -> (r: bool)
    ensures
        r == is_markdown_name(name@),
{
    match file_extension(name) {
        Some(ext) => {
            let e = ext.as_str();
            let is_md = e.unicode_len() == 2 && e.get_char(0) == 'm' && e.get_char(1) == 'd';
            assert(is_md <==> e@ =~= seq!['m', 'd']);
            is_md && !is_hidden_or_temp_name(name)
        },
        None => false,
    }
}

/// Whether `name` ends with `suffix`.
pub fn has_suffix(name: &str, suffix: &str) -> (r: bool)
    ensures
        r == ends_with(name@, suffix@),
{
    let n = name.unicode_len();
    let m = suffix.unicode_len();
    if m > n {
        return false;
    }
    let off = n - m;
    let mut i: usize = 0;
    while i < m
        invariant
            n == name@.len(),
            m == suffix@.len(),
            off == n - m,
            i <= m,
            forall|j: int| 0 <= j < i ==> name@[off + j] == suffix@[j],
        decreases m - i,
    {
        if name.get_char(off + i) != suffix.get_char(i) {
            assert(name@.subrange(off as int, n as int)[i as int] != suffix@[i as int]);
            return false;
        }
        i = i + 1;
    }
    assert(name@.subrange(off as int, n as int) =~= suffix@);
    true
}

/// Whether the merger collects a file of this name.
pub fn is_mergeable_pdf(name: &str) -> (r: bool)
    ensures
        r == is_mergeable_pdf_name(name@),
{
    let ext = match file_extension(name) {
        Some(e) => e,
        None => return false,
    };
    let e = ext.as_str();
    if e.unicode_len() != 3 {
        return false;
    }
    let (a, b, c) = (e.get_char(0), e.get_char(1), e.get_char(2));
    if !((a == 'p' || a == 'P') && (b == 'd' || b == 'D') && (c == 'f' || c == 'F')) {
        return false;
    }
    let suffix = "_merged.pdf";
    proof {
        reveal_strlit("_merged.pdf");
        assert(suffix@ =~= merged_suffix());
    }
    !has_suffix(name, suffix)
}

} // verus!

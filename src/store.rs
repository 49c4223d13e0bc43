//! The bookmark store: an ordered list of directory paths, addressed by
//! position, with at most `MAX_PATHS` entries.
use vstd::prelude::*;
use vstd::string::*;

verus! {

/// Most entries a bookmark store holds.
pub const MAX_PATHS: usize = 100;

/// Why a store operation was refused.
#[derive(Debug, Clone, Copy, PartialEq, Eq, Structural)]
pub enum StoreError {
    /// The store already holds `MAX_PATHS` entries.
    StoreFull,
    /// The index names no entry.
    InvalidIndex,
}

/// The directory-separator convention that stored paths are rewritten to.
#[derive(Debug, Clone, Copy, PartialEq, Eq, Structural)]
pub enum PathStyle {
    /// Separators become `/`.
    Unix,
    /// Separators become `\`.
    Windows,
}

/// The separator that a style rewrites away.
pub open spec fn foreign_separator(style: PathStyle) -> char {
    match style {
        PathStyle::Unix => '\\',
        PathStyle::Windows => '/',
    }
}

/// The separator that a style keeps.
pub open spec fn native_separator(style: PathStyle) -> char {
    match style {
        PathStyle::Unix => '/',
        PathStyle::Windows => '\\',
    }
}

/// One character with a given character rewritten to another.
pub open spec fn swap_char(c: char, from: char, to: char) -> char {
    if c == from {
        to
    } else {
        c
    }
}

/// A path with every foreign separator rewritten to the native one.
pub open spec fn normalized(path: Seq<char>, style: PathStyle) -> Seq<char> {
    path.map_values(|c: char| swap_char(c, foreign_separator(style), native_separator(style)))
}

/// Relies on `str::replace`: every occurrence of `from` is replaced by `to`,
/// here a one-character string, and all other characters are kept.
#[verifier::external_body]
fn replace_char(s: &str, from: char, to: &str) -> (r: String)
    requires
        to@.len() == 1,
    ensures
        r@ == s@.map_values(|c: char| swap_char(c, from, to@[0])),
{
    s.replace(from, to)
}

/// The name of what `str::to_lowercase` returns for a string.
pub uninterp spec fn lower_of(s: Seq<char>) -> Seq<char>;

/// Relies on `str::to_lowercase`: the Unicode lower case of the string,
/// which depends on its characters alone.
#[verifier::external_body]
fn to_lower(s: &str) -> (r: String)
    ensures
        r@ == lower_of(s@),
{
    s.to_lowercase()
}

/// Rewrites the separators of `path` to the convention of `style`.
pub fn normalize_path(path: &str, style: PathStyle) -> (r: String)
    ensures
        r@ == normalized(path@, style),
{
    let (from, to) = match style {
        PathStyle::Unix => ('\\', "/"),
        PathStyle::Windows => ('/', "\\"),
    };
    proof {
        reveal_strlit("/");
        reveal_strlit("\\");
    }
    replace_char(path, from, to)
}

/// Whether `needle` occurs in `hay` starting at position `i`.
pub open spec fn occurs_at(hay: Seq<char>, needle: Seq<char>, i: int) -> bool {
    0 <= i && i + needle.len() <= hay.len() && hay.subrange(i, i + needle.len()) == needle
}

/// Whether `needle` is a contiguous part of `hay`.
pub open spec fn is_substring(needle: Seq<char>, hay: Seq<char>) -> bool {
    exists|i: int| occurs_at(hay, needle, i)
}

/// Whether `needle` is a contiguous part of `hay`.
pub fn contains_str(hay: &str, needle: &str) -> (r: bool)
    ensures
        r == is_substring(needle@, hay@),
{
    let n = hay.unicode_len();
    let m = needle.unicode_len();
    if m > n {
        return false;
    }
    if m == 0 {
        assert(hay@.subrange(0, 0) =~= needle@);
        assert(occurs_at(hay@, needle@, 0));
        return true;
    }
    let last = n - m;
    let mut i: usize = 0;
    while i <= last
        invariant
            n == hay@.len(),
            m == needle@.len(),
            last == n - m,
            m > 0,
            i <= last + 1,
            forall|k: int| 0 <= k < i ==> !#[trigger] occurs_at(hay@, needle@, k),
        decreases last + 1 - i,
    {
        let mut j: usize = 0;
        let mut same = true;
        while j < m && same
            invariant
                n == hay@.len(),
                m == needle@.len(),
                i <= last,
                last == n - m,
                j <= m,
                same ==> forall|t: int| 0 <= t < j ==> hay@[i + t] == needle@[t],
                !same ==> !occurs_at(hay@, needle@, i as int),
            decreases (m - j) + (if same { 1int } else { 0int }),
        {
            if hay.get_char(i + j) != needle.get_char(j) {
                assert(hay@.subrange(i as int, i + m)[j as int] != needle@[j as int]);
                same = false;
            } else {
                j = j + 1;
            }
        }
        if same {
            assert(hay@.subrange(i as int, i + m) =~= needle@);
            assert(occurs_at(hay@, needle@, i as int));
            return true;
        }
        i = i + 1;
    }
    assert forall|k: int| !occurs_at(hay@, needle@, k) by {
        if 0 <= k < i {
        }
    }
    false
}

/// The positions in `hays`, in increasing order, of the entries that hold `needle`.
pub open spec fn match_indices(hays: Seq<Seq<char>>, needle: Seq<char>) -> Seq<int>
    decreases hays.len(),
{
    if hays.len() == 0 {
        Seq::empty()
    } else {
        let rest = match_indices(hays.drop_last(), needle);
        if is_substring(needle, hays.last()) {
            rest.push(hays.len() - 1)
        } else {
            rest
        }
    }
}

/// A search returns exactly the positions whose entry holds the needle,
/// each once, in increasing order.
pub proof fn match_indices_are_the_matching_positions(hays: Seq<Seq<char>>, needle: Seq<char>)
    ensures
        forall|k: int|
            0 <= k < match_indices(hays, needle).len() ==> 0 <= #[trigger] match_indices(
                hays,
                needle,
            )[k] < hays.len() && is_substring(needle, hays[match_indices(hays, needle)[k]]),
        forall|i: int|
            0 <= i < hays.len() && is_substring(needle, #[trigger] hays[i]) ==> match_indices(
                hays,
                needle,
            ).contains(i),
        forall|a: int, b: int|
            0 <= a < b < match_indices(hays, needle).len() ==> #[trigger] match_indices(
                hays,
                needle,
            )[a] < #[trigger] match_indices(hays, needle)[b],
    decreases hays.len(),
{
    if hays.len() > 0 {
        let init = hays.drop_last();
        match_indices_are_the_matching_positions(init, needle);
        let rest = match_indices(init, needle);
        let r = match_indices(hays, needle);
        assert forall|k: int| 0 <= k < rest.len() implies rest[k] < init.len() && hays[rest[k]]
            == init[rest[k]] by {}
        assert forall|i: int|
            0 <= i < hays.len() && is_substring(needle, #[trigger] hays[i]) implies r.contains(i) by {
            if i < hays.len() - 1 {
                assert(init[i] == hays[i]);
                let k = choose|k: int| 0 <= k < rest.len() && rest[k] == i;
                assert(r[k] == i);
            } else {
                assert(r[r.len() - 1] == i);
            }
        }
    }
}

/// The view of a list of strings.
pub open spec fn strings_view(v: Seq<String>) -> Seq<Seq<char>> {
    v.map_values(|s: String| s@)
}

/// Positions of the entries of `folded` that hold `needle`, both already case-folded.
pub fn matching_indices(folded: &Vec<String>, needle: &str) -> (r: Vec<usize>)
    ensures
        r@.map_values(|k: usize| k as int) == match_indices(strings_view(folded@), needle@),
{
    let mut r: Vec<usize> = Vec::new();
    let mut i: usize = 0;
    while i < folded.len()
        invariant
            i <= folded.len(),
            r@.map_values(|k: usize| k as int) == match_indices(
                strings_view(folded@).subrange(0, i as int),
                needle@,
            ),
        decreases folded.len() - i,
    {
        let ghost hays = strings_view(folded@);
        assert(hays.subrange(0, i + 1).drop_last() =~= hays.subrange(0, i as int));
        if contains_str(folded[i].as_str(), needle) {
            r.push(i);
        }
        assert(r@.map_values(|k: usize| k as int) =~= match_indices(
            hays.subrange(0, i + 1),
            needle@,
        ));
        i = i + 1;
    }
    assert(strings_view(folded@).subrange(0, folded.len() as int) =~= strings_view(folded@));
    r
}

/// An ordered list of directory paths.
#[derive(Debug)]
pub struct DirStore {
    paths: Vec<String>,
}

impl View for DirStore {
    type V = Seq<Seq<char>>;

    closed spec fn view(&self) -> Seq<Seq<char>> {
        strings_view(self.paths@)
    }
}

impl DirStore {
    /// An empty store.
    pub fn new() -> (r: DirStore)
        ensures
            r@ == Seq::<Seq<char>>::empty(),
    {
        let r = DirStore { paths: Vec::with_capacity(MAX_PATHS) };
        assert(r@ =~= Seq::<Seq<char>>::empty());
        r
    }

    /// A store holding the given paths in order, as read back from its file.
    pub fn from_paths(paths: Vec<String>) -> (r: DirStore)
        ensures
            r@ == strings_view(paths@),
    {
        DirStore { paths }
    }

    /// The stored paths in order: what is written to the store's file.
    pub fn paths(&self) -> (r: &Vec<String>)
        ensures
            strings_view(r@) == self@,
    {
        &self.paths
    }

    pub fn len(&self) -> (r: usize)
        ensures
            r == self@.len(),
    {
        self.paths.len()
    }

    /// Appends `path`, its separators rewritten to `style`, unless the store is full.
    pub fn add_path(&mut self, path: &str, style: PathStyle) -> (r: Result<(), StoreError>)
        ensures
            old(self)@.len() >= MAX_PATHS ==> r == Err::<(), StoreError>(StoreError::StoreFull)
                && final(self)@ == old(self)@,
            old(self)@.len() < MAX_PATHS ==> r is Ok && final(self)@ == old(self)@.push(
                normalized(path@, style),
            ),
    {
        if self.paths.len() >= MAX_PATHS {
            return Err(StoreError::StoreFull);
        }
        let p = normalize_path(path, style);
        self.paths.push(p);
        assert(self@ =~= old(self)@.push(normalized(path@, style)));
        Ok(())
    }

    /// The entries in order, for listing; an entry's position is its index.
    pub fn list_paths(&self) -> (r: &Vec<String>)
        ensures
            strings_view(r@) == self@,
    {
        &self.paths
    }

    /// Removes the entry at `index` and returns it; later entries move down by one.
    pub fn remove_path(&mut self, index: usize) -> (r: Result<String, StoreError>)
        ensures
            index >= old(self)@.len() ==> r == Err::<String, StoreError>(StoreError::InvalidIndex)
                && final(self)@ == old(self)@,
            index < old(self)@.len() ==> r is Ok && r->Ok_0@ == old(self)@[index as int]
                && final(self)@ == old(self)@.remove(index as int),
    {
        if index >= self.paths.len() {
            return Err(StoreError::InvalidIndex);
        }
        let removed = self.paths.remove(index);
        assert(self@ =~= old(self)@.remove(index as int));
        Ok(removed)
    }

    /// The path stored at `index`, unchanged, for a shell to change into.
    pub fn navigate(&self, index: usize) -> (r: Result<&String, StoreError>)
        ensures
            index >= self@.len() ==> r == Err::<&String, StoreError>(StoreError::InvalidIndex),
            index < self@.len() ==> r is Ok && r->Ok_0@ == self@[index as int],
    {
        if index >= self.paths.len() {
            return Err(StoreError::InvalidIndex);
        }
        Ok(&self.paths[index])
    }

    /// Positions, in order, of the entries that hold `keyword`, ignoring case.
    pub fn search_paths(&self, keyword: &str) -> (r: Vec<usize>)
        ensures
            r@.map_values(|k: usize| k as int) == match_indices(
                self@.map_values(|p: Seq<char>| lower_of(p)),
                lower_of(keyword@),
            ),
    {
        let mut folded: Vec<String> = Vec::new();
        let mut i: usize = 0;
        while i < self.paths.len()
            invariant
                i <= self.paths.len(),
                folded@.len() == i,
                forall|k: int| 0 <= k < i ==> #[trigger] folded@[k]@ == lower_of(self.paths@[k]@),
            decreases self.paths.len() - i,
        {
            folded.push(to_lower(self.paths[i].as_str()));
            i = i + 1;
        }
        let needle = to_lower(keyword);
        assert(strings_view(folded@) =~= self@.map_values(|p: Seq<char>| lower_of(p)));
        matching_indices(&folded, needle.as_str())
    }
}

/// After a removal at `index`, the store is one shorter, the entries before
/// `index` keep their positions, and each later entry moves down by one.
pub proof fn removal_shifts_later_entries(before: Seq<Seq<char>>, index: int)
    requires
        0 <= index < before.len(),
    ensures
        before.remove(index).len() == before.len() - 1,
        forall|j: int| 0 <= j < index ==> #[trigger] before.remove(index)[j] == before[j],
        forall|j: int|
            index <= j < before.len() - 1 ==> #[trigger] before.remove(index)[j] == before[j + 1],
{
}

} // verus!

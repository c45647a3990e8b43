//! What the user interface needs from a repository, wherever it is: the parts
//! of it that decide and compute. Reading and running are the caller's.

pub mod ssh;

use crate::text::{blank_str, chars_of, string_of, trimmed};
use vstd::prelude::*;

verus! {

/// One entry in a directory listing.
#[derive(Debug)]
pub struct DirEntry {
    pub name: String,
    /// Path relative to repo root, forward-slashed.
    pub rel: String,
    pub is_dir: bool,
}

/// What a [`DirEntry`] holds.
#[verifier::ext_equal]
pub struct EntryModel {
    pub name: Seq<char>,
    pub rel: Seq<char>,
    pub is_dir: bool,
}

impl View for DirEntry {
    type V = EntryModel;

    open spec fn view(&self) -> EntryModel {
        EntryModel { name: self.name@, rel: self.rel@, is_dir: self.is_dir }
    }
}

impl Clone for DirEntry {
    fn clone(&self) -> (r: Self)
        ensures
            r@ == self@,
    {
        DirEntry { name: self.name.clone(), rel: self.rel.clone(), is_dir: self.is_dir }
    }
}

/// The names that are tried as a default base, in this order.
pub open spec fn base_names() -> Seq<Seq<char>> {
    seq!["main"@, "master"@, "develop"@, "trunk"@]
}

/// The names that are tried as a default base, in this order.
pub fn base_candidates() -> (r: Vec<String>)
    ensures
        crate::seqs::views(r@) == base_names(),
{
    let r = vec![
        "main".to_owned(),
        "master".to_owned(),
        "develop".to_owned(),
        "trunk".to_owned(),
    ];
    assert(crate::seqs::views(r@) == base_names());
    r
}

/// The first of the names, from `from` on, that resolves.
pub open spec fn first_resolving(resolves: Seq<bool>, from: int) -> Option<int>
    decreases base_names().len() - from,
{
    if from < 0 || from >= base_names().len() {
        None
    } else if from < resolves.len() && resolves[from] {
        Some(from)
    } else {
        first_resolving(resolves, from + 1)
    }
}

/// The default base: the upstream that the branch tracks, where it is known;
/// else the first of the usual names that resolves; else `main`.
pub open spec fn default_base(upstream: Option<Seq<char>>, resolves: Seq<bool>) -> Seq<char> {
    if upstream matches Some(u) && !crate::text::is_blank(u) {
        crate::text::trim(upstream->0)
    } else {
        match first_resolving(resolves, 0) {
            Some(i) => base_names()[i],
            None => "main"@,
        }
    }
}

/// Pick a default base branch for branch-range mode. `upstream` is what the
/// branch tracks, as it was printed, and `resolves` says of each of the
/// [`base_candidates`] whether it resolves.
pub fn guess_default_base(upstream: Option<&str>, resolves: &[bool]) -> (r: String)
    ensures
        r@ == default_base(crate::seqs::opt_view(upstream), resolves@),
{
    if let Some(u) = upstream {
        if !blank_str(u) {
            let cs = chars_of(u);
            return string_of(trimmed(cs.as_slice()));
        }
    }
    let names = base_candidates();
    assert(names@.len() == base_names().len()) by {
        assert(crate::seqs::views(names@).len() == names@.len());
    }
    for i in 0..names.len()
        invariant
            crate::seqs::views(names@) == base_names(),
            names@.len() == base_names().len(),
            !(upstream matches Some(u) && !crate::text::is_blank(u@)),
            first_resolving(resolves@, 0) == first_resolving(resolves@, i as int),
    {
        assert(base_names()[i as int] == names@[i as int]@) by {
            assert(crate::seqs::views(names@)[i as int] == names@[i as int]@);
        }
        if i < resolves.len() && resolves[i] {
            return names[i].clone();
        }
    }
    "main".to_owned()
}

} // verus!

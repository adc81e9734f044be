//! Which entries of a directory listing are dataset files.

use crate::path::{extension, get_extension};
use crate::text::characters;
use vstd::prelude::*;

verus! {

/// The extension that marks a dataset file: `dat`, in lower case.
pub open spec fn dataset_extension() -> Seq<char> {
    seq!['d', 'a', 't']
}

/// Whether `path` names a dataset file: its extension is exactly
/// [`dataset_extension`].
pub open spec fn is_dataset_path(path: Seq<char>) -> bool {
    extension(path) == Some(dataset_extension())
}

/// The dataset files among `entries`, in the order of the listing.
pub open spec fn dataset_paths(entries: Seq<Seq<char>>) -> Seq<Seq<char>> {
    entries.filter(|path: Seq<char>| is_dataset_path(path))
}

/// Decides [`is_dataset_path`].
pub fn is_dataset_file(path: &str) -> (r: bool)
    ensures
        r == is_dataset_path(path@),
{
    match get_extension(path) {
        None => false,
        Some(ext) => {
            let found = characters(ext);
            let same = found.len() == 3 && found[0] == 'd' && found[1] == 'a' && found[2] == 't';
            assert(same == (found@ =~= dataset_extension()));
            same
        },
    }
}

/// The paths among `entries`, the listing of a directory, that name dataset
/// files. They come in the order of the listing; an entry listed twice is
/// kept twice.
pub fn collect_files(entries: &Vec<String>) -> (files: Vec<String>)
    ensures
        files.deep_view() == dataset_paths(entries.deep_view()),
        forall|i: int| 0 <= i < files.len() ==> is_dataset_path(#[trigger] files[i]@),
{
    let mut files: Vec<String> = Vec::new();
    let mut i: usize = 0;
    while i < entries.len()
        invariant
            i <= entries.len(),
            files.deep_view() == dataset_paths(entries.deep_view().take(i as int)),
        decreases entries.len() - i,
    {
        let ghost seen = entries.deep_view().take(i as int);
        let ghost path = entries[i as int]@;
        proof {
            reveal(Seq::filter);
            assert(entries.deep_view().take(i + 1).drop_last() == seen);
            assert(entries.deep_view().take(i + 1).last() == path);
        }
        if is_dataset_file(entries[i].as_str()) {
            let ghost before = files.deep_view();
            files.push(entries[i].clone());
            assert(files.deep_view() == before.push(path));
        }
        i += 1;
    }
    assert(entries.deep_view().take(entries.len() as int) == entries.deep_view());
    proof {
        assert forall|i: int| 0 <= i < files.len() implies is_dataset_path(#[trigger] files[i]@) by {
            lemma_dataset_paths_count(entries.deep_view(), files[i]@);
            assert(files.deep_view()[i] == files[i]@);
            files.deep_view().to_multiset_ensures();
        }
    }
    files
}

/// A path stands among the dataset files as often as the listing holds it
/// where it names a dataset file, and not at all where it does not.
pub proof fn lemma_dataset_paths_count(entries: Seq<Seq<char>>, path: Seq<char>)
    ensures
        dataset_paths(entries).to_multiset().count(path) == if is_dataset_path(path) {
            entries.to_multiset().count(path)
        } else {
            0
        },
    decreases entries.len(),
{
    reveal(Seq::filter);
    if entries.len() == 0 {
        entries.to_multiset_ensures();
        dataset_paths(entries).to_multiset_ensures();
    } else {
        let head = entries.drop_last();
        let last = entries.last();
        lemma_dataset_paths_count(head, path);
        assert(entries == head.push(last));
        head.to_multiset_ensures();
        if is_dataset_path(last) {
            assert(dataset_paths(entries) == dataset_paths(head).push(last));
            dataset_paths(head).to_multiset_ensures();
        }
    }
}

/// The order of the listing decides the order of the result and nothing
/// else: two listings of the same entries give the same dataset files.
pub proof fn lemma_dataset_paths_any_order(entries: Seq<Seq<char>>, other: Seq<Seq<char>>)
    requires
        entries.to_multiset() == other.to_multiset(),
    ensures
        dataset_paths(entries).to_multiset() == dataset_paths(other).to_multiset(),
{
    assert forall|path: Seq<char>|
        dataset_paths(entries).to_multiset().count(path) == dataset_paths(
            other,
        ).to_multiset().count(path) by {
        lemma_dataset_paths_count(entries, path);
        lemma_dataset_paths_count(other, path);
    }
    assert(dataset_paths(entries).to_multiset() =~= dataset_paths(other).to_multiset());
}

} // verus!

use vstd::prelude::*;
use crate::media::{Media, sources, densely_indexed, fresh, found};
use crate::order::{reorder, sorted_by_source, order_is_total, adjacent_sorted, natural_safe, unindexed};

verus! {

/// The single item of a filler list made of one file.
pub open spec fn found_at_zero(path: String) -> Media {
    Media { source: path, index: Some(0), seek: 0, out: 0, begin: None, cmd: None, filter: None }
}

/// What the filler path turned out to be on disk.
pub enum FillerPath {
    /// A directory, with the playable files found under it.
    Directory(Vec<String>),
    /// A single existing file.
    File(String),
    /// Neither: there is no filler.
    Missing,
}

/// Builds the filler list. For a directory: one item per file, shuffled or
/// in natural-lexical order, indexed densely. For a single file: that file
/// alone, at index 0. Otherwise the list is empty. Natural order needs
/// every path to be comparable (see `natural_order_safe`).
pub fn fill_filler_list(filler: &FillerPath, shuffle: bool) -> (r: Vec<Media>)
    requires
        !shuffle ==> match filler {
            FillerPath::Directory(files) => forall|i: int|
                0 <= i < files@.len() ==> natural_safe(#[trigger] files@[i]@),
            _ => true,
        },
    ensures
        match filler {
            FillerPath::Directory(files) => {
                &&& r@.len() == files@.len()
                &&& unindexed(r@).to_multiset() == fresh(files@).to_multiset()
                &&& sources(r@).to_multiset() == files@.map_values(|s: String| s@).to_multiset()
                &&& densely_indexed(r@)
                &&& !shuffle ==> adjacent_sorted(r@, true)
                &&& !shuffle && order_is_total(true) ==> sorted_by_source(r@, true)
            },
            FillerPath::File(path) => {
                &&& r@.len() == 1
                &&& r@[0] == found_at_zero(*path)
            },
            FillerPath::Missing => r@.len() == 0,
        },
{
    match filler {
        FillerPath::Directory(files) => {
            let mut list: Vec<Media> = Vec::new();
            let mut i: usize = 0;
            while i < files.len()
                invariant
                    i <= files@.len(),
                    list@.len() == i,
                    sources(list@) == files@.subrange(0, i as int).map_values(|s: String| s@),
                    forall|k: int| 0 <= k < i ==> (#[trigger] list@[k]).source == files@[k] && list@[k].index
                        == Some(k as usize) && list@[k].seek == 0 && list@[k].out == 0 && list@[k].begin is None
                        && list@[k].cmd is None && list@[k].filter is None,
                decreases files@.len() - i,
            {
                let m = found(i, &files[i]);
                let ghost prev = list@;
                list.push(m);
                assert(list@ == prev.push(m));
                assert(sources(list@) =~= sources(prev).push(files@[i as int]@));
                assert(files@.subrange(0, i + 1) =~= files@.subrange(0, i as int).push(
                    files@[i as int],
                ));
                i = i + 1;
            }
            assert(files@.subrange(0, i as int) =~= files@);
            assert(unindexed(list@) =~= fresh(files@));
            reorder(&mut list, shuffle, true);
            list
        },
        FillerPath::File(path) => {
            let mut list: Vec<Media> = Vec::new();
            list.push(found(0, path));
            list
        },
        FillerPath::Missing => Vec::new(),
    }
}

} // verus!

use vstd::prelude::*;

verus! {

/// One playable unit: a source path with its place in the current list,
/// its playback window (in milliseconds) and the arguments resolved for it.
pub struct Media {
    pub source: String,
    /// Position in the list at its last (re)ordering.
    pub index: Option<usize>,
    pub seek: u64,
    pub out: u64,
    /// Wall-clock time (seconds) at which the item was dispatched.
    pub begin: Option<u64>,
    /// Decoder input arguments, resolved before the relay stage.
    pub cmd: Option<Vec<String>>,
    /// Filter-graph arguments, resolved before the relay stage.
    pub filter: Option<Vec<String>>,
}

/// The source paths of a list, in list order.
pub open spec fn sources(s: Seq<Media>) -> Seq<Seq<char>> {
    s.map_values(|m: Media| m.source@)
}

/// The indices are exactly `0..len` in list order.
pub open spec fn densely_indexed(s: Seq<Media>) -> bool {
    forall|i: int| 0 <= i < s.len() ==> #[trigger] s[i].index == Some(i as usize)
}

/// Fresh items for the given paths, with no index yet.
pub open spec fn fresh(files: Seq<String>) -> Seq<Media> {
    files.map_values(
        |f: String|
            Media { source: f, index: None, seek: 0, out: 0, begin: None, cmd: None, filter: None },
    )
}

/// A fresh item for a path found on disk, at the given index.
pub fn found(index: usize, source: &String) -> (r: Media)
    ensures
        r == (Media {
            source: *source,
            index: Some(index),
            seek: 0,
            out: 0,
            begin: None,
            cmd: None,
            filter: None,
        }),
{
    Media { source: source.clone(), index: Some(index), seek: 0, out: 0, begin: None, cmd: None, filter: None }
}

fn copy_strings(v: &Vec<String>) -> (r: Vec<String>)
    ensures
        r@ == v@,
{
    let mut r: Vec<String> = Vec::new();
    let mut i: usize = 0;
    while i < v.len()
        invariant
            i <= v@.len(),
            r@ == v@.subrange(0, i as int),
        decreases v@.len() - i,
    {
        r.push(v[i].clone());
        i = i + 1;
        assert(r@ =~= v@.subrange(0, i as int));
    }
    assert(r@ =~= v@);
    r
}

fn copy_opt_strings(v: &Option<Vec<String>>) -> (r: Option<Vec<String>>)
    ensures
        r is Some <==> v is Some,
        v is Some ==> r->0@ == v->0@,
{
    match v {
        Some(x) => Some(copy_strings(x)),
        None => None,
    }
}

impl Media {
    /// A fresh item for `source` with the given index and an empty window.
    pub fn new(index: usize, source: &str) -> (r: Media)
        ensures
            r.source@ == source@,
            r.index == Some(index),
            r.seek == 0,
            r.out == 0,
            r.begin is None,
            r.cmd is None,
            r.filter is None,
    {
        Media {
            source: source.to_owned(),
            index: Some(index),
            seek: 0,
            out: 0,
            begin: None,
            cmd: None,
            filter: None,
        }
    }

    /// A copy of the item that shares nothing with it.
    pub fn duplicate(&self) -> (r: Media)
        ensures
            r.source == self.source,
            r.index == self.index,
            r.seek == self.seek,
            r.out == self.out,
            r.begin == self.begin,
            r.cmd is Some <==> self.cmd is Some,
            self.cmd is Some ==> r.cmd->0@ == self.cmd->0@,
            r.filter is Some <==> self.filter is Some,
            self.filter is Some ==> r.filter->0@ == self.filter->0@,
    {
        Media {
            source: self.source.clone(),
            index: self.index,
            seek: self.seek,
            out: self.out,
            begin: self.begin,
            cmd: copy_opt_strings(&self.cmd),
            filter: copy_opt_strings(&self.filter),
        }
    }
}

} // verus!

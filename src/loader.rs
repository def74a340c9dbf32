//! Which asset loads to start: at most one load in flight per path.

use vstd::prelude::*;

verus! {

/// The kind of an asset.
#[derive(Clone, Copy, Debug, PartialEq, Eq, Structural)]
pub enum AssetKind {
    /// A model, loaded as an IQM file.
    Model,
    /// A texture, loaded as a JPEG or PNG.
    Texture,
}

/// A request for an asset to be loaded, converted to the matching component, and attached.
#[derive(Debug)]
pub struct AssetRequest {
    /// What the asset is.
    pub kind: AssetKind,
    /// Where it is read from.
    pub path: String,
    /// Whether a load has been started for it.
    pub loading: bool,
}

/// The loads to start for `reqs`, in order: one for each path of a request that is not yet
/// loading, unless the path is in `busy` (cached, or being loaded) or an earlier request
/// already starts it.
pub open spec fn loads_spec(reqs: Seq<AssetRequest>, busy: Seq<Seq<char>>) -> Seq<(AssetKind, Seq<char>)>
    decreases reqs.len(),
{
    if reqs.len() == 0 {
        Seq::empty()
    } else {
        let before = loads_spec(reqs.drop_last(), busy);
        let q = reqs.last();
        if !q.loading && !busy.contains(q.path@) && !before.map_values(
            |l: (AssetKind, Seq<char>)| l.1,
        ).contains(q.path@) {
            before.push((q.kind, q.path@))
        } else {
            before
        }
    }
}

/// Whether some string of `v` has the characters `s`.
fn holds_text(v: &Vec<String>, s: &String) -> (r: bool)
    ensures
        r == v@.map_values(|x: String| x@).contains(s@),
{
    let mut i: usize = 0;
    while i < v.len()
        invariant
            i <= v@.len(),
            forall|j: int| 0 <= j < i ==> v@[j]@ != s@,
        decreases v@.len() - i,
    {
        if v[i] == *s {
            assert(v@.map_values(|x: String| x@)[i as int] == s@);
            return true;
        }
        i = i + 1;
    }
    false
}

/// Marks every request as loading, and returns the loads to start for them (see `loads_spec`):
/// each path is loaded once, and not at all when it is in `busy`.
pub fn start_loads(reqs: &mut Vec<AssetRequest>, busy: &Vec<String>) -> (r: Vec<(AssetKind, String)>)
    ensures
        final(reqs)@.len() == old(reqs)@.len(),
        forall|i: int|
            0 <= i < final(reqs)@.len() ==> {
                &&& (#[trigger] final(reqs)@[i]).kind == old(reqs)@[i].kind
                &&& final(reqs)@[i].path@ == old(reqs)@[i].path@
                &&& final(reqs)@[i].loading
            },
        r@.map_values(|l: (AssetKind, String)| (l.0, l.1@)) == loads_spec(
            old(reqs)@,
            busy@.map_values(|x: String| x@),
        ),
{
    let ghost busy_view = busy@.map_values(|x: String| x@);
    let ghost start = reqs@;
    let mut out: Vec<(AssetKind, String)> = Vec::new();
    let mut paths: Vec<String> = Vec::new();
    let mut i: usize = 0;
    while i < reqs.len()
        invariant
            i <= reqs@.len(),
            reqs@.len() == start.len(),
            busy_view == busy@.map_values(|x: String| x@),
            forall|j: int|
                0 <= j < reqs@.len() ==> {
                    &&& (#[trigger] reqs@[j]).kind == start[j].kind
                    &&& reqs@[j].path@ == start[j].path@
                    &&& (j < i ==> reqs@[j].loading)
                    &&& (j >= i ==> reqs@[j].loading == start[j].loading)
                },
            out@.map_values(|l: (AssetKind, String)| (l.0, l.1@)) == loads_spec(
                start.subrange(0, i as int),
                busy_view,
            ),
            paths@.map_values(|x: String| x@) == loads_spec(
                start.subrange(0, i as int),
                busy_view,
            ).map_values(|l: (AssetKind, Seq<char>)| l.1),
        decreases reqs@.len() - i,
    {
        let ghost prefix = start.subrange(0, i + 1);
        assert(prefix.drop_last() =~= start.subrange(0, i as int));
        assert(prefix.last() == start[i as int]);
        let loading = reqs[i].loading;
        let kind = reqs[i].kind;
        let path = reqs[i].path.clone();
        if !loading && !holds_text(busy, &path) && !holds_text(&paths, &path) {
            let ghost before_out = out@;
            let ghost before_paths = paths@;
            out.push((kind, path.clone()));
            paths.push(path);
            assert(out@.map_values(|l: (AssetKind, String)| (l.0, l.1@)) =~= before_out.map_values(
                |l: (AssetKind, String)| (l.0, l.1@),
            ).push((kind, start[i as int].path@)));
            assert(paths@.map_values(|x: String| x@) =~= before_paths.map_values(|x: String| x@).push(
                start[i as int].path@,
            ));
            assert(loads_spec(prefix, busy_view).map_values(|l: (AssetKind, Seq<char>)| l.1)
                =~= loads_spec(start.subrange(0, i as int), busy_view).map_values(
                |l: (AssetKind, Seq<char>)| l.1,
            ).push(start[i as int].path@));
        }
        reqs[i].loading = true;
        i = i + 1;
    }
    assert(start.subrange(0, i as int) =~= start);
    out
}

} // verus!

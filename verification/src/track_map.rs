//! The graph-parameter tracks of a node's animation: an `indexmap::IndexMap`
//! from track label to keyframe track, in insertion order. Its contents are
//! modelled as the sequence of its (label, track) entries; each method the
//! animation logic calls has a contract that states what the indexmap
//! documentation promises.

use vstd::prelude::*;
use indexmap::IndexMap;
use crate::animation::KeyframeTrack;
use crate::seqs::first_index;

verus! {

/// The entries of a parameter-track table, in the map's order.
pub uninterp spec fn track_entries(m: IndexMap<String, KeyframeTrack>) -> Seq<(String, KeyframeTrack)>;

/// The entry has label `label`.
pub open spec fn label_pred(label: Seq<char>) -> spec_fn((String, KeyframeTrack)) -> bool {
    |e: (String, KeyframeTrack)| e.0@ == label
}

/// Position of the entry labelled `label`, or -1.
pub open spec fn label_index(s: Seq<(String, KeyframeTrack)>, label: Seq<char>) -> int {
    first_index(s, label_pred(label))
}

/// `IndexMap::new`: an empty table.
#[verifier::external_body]
pub(crate) fn tracks_new() -> (m: IndexMap<String, KeyframeTrack>)
    ensures
        track_entries(m) == Seq::<(String, KeyframeTrack)>::empty(),
{
    IndexMap::new()
}

/// `IndexMap::get`: the track stored under `label` (labels compare as text).
#[verifier::external_body]
pub(crate) fn tracks_get<'a>(m: &'a IndexMap<String, KeyframeTrack>, label: &str) -> (r: Option<&'a KeyframeTrack>)
    ensures
        label_index(track_entries(*m), label@) >= 0 ==> r == Some(
            &track_entries(*m)[label_index(track_entries(*m), label@)].1,
        ),
        label_index(track_entries(*m), label@) < 0 ==> r is None,
{
    m.get(label)
}

/// `IndexMap::entry(label).or_insert_with(KeyframeTrack::default)`: the track
/// stored under `label`, after appending an empty one when there was none.
/// What is written through the returned reference becomes that entry's track.
#[verifier::external_body]
pub(crate) fn tracks_entry_or_default<'a>(m: &'a mut IndexMap<String, KeyframeTrack>, label: &str) -> (r: &'a mut KeyframeTrack)
    ensures
        ({
            let s = track_entries(*old(m));
            let i = label_index(s, label@);
            if i >= 0 {
                &&& *r == s[i].1
                &&& track_entries(*final(m)) == s.update(i, (s[i].0, *final(r)))
            } else {
                &&& r.keyframes@.len() == 0
                &&& track_entries(*final(m)).len() == s.len() + 1
                &&& track_entries(*final(m)).take(s.len() as int) == s
                &&& track_entries(*final(m)).last().0@ == label@
                &&& track_entries(*final(m)).last().1 == *final(r)
            }
        }),
{
    m.entry(label.to_string()).or_insert_with(KeyframeTrack::default)
}

} // verus!

//! What the play-along screen shows of the chord timeline at a moment: the
//! chord that sounds, the one before and the one after, and the diagram of
//! the chord that sounds.

use vstd::prelude::*;
use crate::assets::ChordAssetMap;
use crate::chords::{
    chord_asset_key, chord_label, key_of_name, opt_string_chars, pretty_chord_label, simplified,
    simplify_for_asset,
};
use crate::text::copy_str;
use crate::timeline::{
    active_chord, ended_by, first_index, found, last_index, next_chord, previous_chord, sounds_at,
    starts_after, ChordSegment, LabData, TimeKey,
};

verus! {

broadcast use vstd::string::group_string_axioms;

/// The chord texts of the play-along screen.
#[derive(Debug)]
pub struct ChordView {
    /// The label of the chord that sounds, or `No chord`.
    pub active_label: String,
    /// The label of the last chord over by now, or `--`.
    pub previous_label: String,
    /// The label of the first chord still to come, or `--`.
    pub next_label: String,
    /// The image path of the diagram of the chord that sounds, where one is drawn.
    pub active_image_path: Option<String>,
    /// The chord that sounds, as the timeline writes it.
    pub active_model_output: Option<String>,
    /// The diagram name of the chord that sounds.
    pub active_simplified_output: Option<String>,
}

/// The label of the segment at position `i`, or `none` where there is none.
pub open spec fn label_at(cs: Seq<ChordSegment>, i: Option<int>, none: Seq<char>) -> Seq<char> {
    match i {
        Some(i) => chord_label(cs[i].chord@),
        None => none,
    }
}

/// The image path of the diagram of the segment at position `i`.
pub open spec fn image_at(cs: Seq<ChordSegment>, i: Option<int>, assets: Map<Seq<char>, Seq<char>>) -> Option<Seq<char>> {
    match i {
        Some(i) => match key_of_name(simplified(cs[i].chord@)) {
            Some(k) => if assets.contains_key(k) {
                Some(assets[k])
            } else {
                None
            },
            None => None,
        },
        None => None,
    }
}

/// The chord texts at `now`: where there is a timeline, those of its first
/// segment that sounds at `now`, its last segment over by `now` and its first
/// segment that begins after `now`; where there is none, `No chord`, `--`,
/// `--` and nothing else.
pub fn chord_view(now: TimeKey, data: &Option<LabData>, assets: &ChordAssetMap) -> (r: ChordView)
    ensures
        match data {
            Some(d) => {
                let cs = d.chords@;
                let active = first_index(cs, |s: ChordSegment| sounds_at(now, s));
                let previous = last_index(cs, |s: ChordSegment| ended_by(now, s));
                let next = first_index(cs, |s: ChordSegment| starts_after(now, s));
                &&& r.active_label@ == label_at(cs, active, "No chord"@)
                &&& r.previous_label@ == label_at(cs, previous, "--"@)
                &&& r.next_label@ == label_at(cs, next, "--"@)
                &&& opt_string_chars(r.active_image_path) == image_at(cs, active, assets.as_map())
                &&& opt_string_chars(r.active_model_output) == match active {
                    Some(i) => Some(cs[i].chord@),
                    None => None,
                }
                &&& opt_string_chars(r.active_simplified_output) == match active {
                    Some(i) => Some(simplified(cs[i].chord@)),
                    None => None,
                }
            },
            None => {
                &&& r.active_label@ == "No chord"@
                &&& r.previous_label@ == "--"@
                &&& r.next_label@ == "--"@
                &&& r.active_image_path is None
                &&& r.active_model_output is None
                &&& r.active_simplified_output is None
            },
        },
{
    match data {
        Some(d) => {
            let chords = d.chords.as_slice();
            let active = active_chord(now, chords);
            let previous = previous_chord(now, chords);
            let next = next_chord(now, chords);
            let active_label = match active {
                Some(c) => pretty_chord_label(c.chord.as_str()),
                None => copy_str("No chord"),
            };
            let previous_label = match previous {
                Some(c) => pretty_chord_label(c.chord.as_str()),
                None => copy_str("--"),
            };
            let next_label = match next {
                Some(c) => pretty_chord_label(c.chord.as_str()),
                None => copy_str("--"),
            };
            let active_image_path = match active {
                Some(c) => match chord_asset_key(c.chord.as_str()) {
                    Some(key) => match assets.get(key) {
                        Some(path) => Some(copy_str(path)),
                        None => None,
                    },
                    None => None,
                },
                None => None,
            };
            let active_model_output = match active {
                Some(c) => Some(copy_str(c.chord.as_str())),
                None => None,
            };
            let active_simplified_output = match active {
                Some(c) => Some(simplify_for_asset(c.chord.as_str())),
                None => None,
            };
            ChordView {
                active_label,
                previous_label,
                next_label,
                active_image_path,
                active_model_output,
                active_simplified_output,
            }
        },
        None => ChordView {
            active_label: copy_str("No chord"),
            previous_label: copy_str("--"),
            next_label: copy_str("--"),
            active_image_path: None,
            active_model_output: None,
            active_simplified_output: None,
        },
    }
}

} // verus!

use chordsense::assets::chord_asset_map;
use chordsense::chords::{
    asset_name_from, bass_degree_to_note, chord_asset_key, chord_root, pretty_chord_label,
    simplify_for_asset, transpose_note,
};

#[test]
fn root_of_plain_and_qualified_chords() {
    assert_eq!(chord_root("A:min"), Some("A"));
    assert_eq!(chord_root("C#:maj7/3"), Some("C#"));
    assert_eq!(chord_root("G"), Some("G"));
    assert_eq!(chord_root("N"), None);
    assert_eq!(chord_root("N:maj"), None);
    assert_eq!(chord_root(""), Some(""));
}

#[test]
fn transpose_wraps_around_the_octave() {
    assert_eq!(transpose_note("C", 0), Some("C"));
    assert_eq!(transpose_note("C", 4), Some("E"));
    assert_eq!(transpose_note("A", 3), Some("C"));
    assert_eq!(transpose_note("B", 1), Some("C"));
    assert_eq!(transpose_note("Db", 0), Some("C#"));
    assert_eq!(transpose_note("G#", 2), Some("Bb"));
    assert_eq!(transpose_note("Cb", 12), Some("B"));
    assert_eq!(transpose_note("F", 25), Some("F#"));
    assert_eq!(transpose_note("H", 1), None);
    assert_eq!(transpose_note("c", 1), None);
}

#[test]
fn transpose_composes() {
    for a in 0..30usize {
        for b in 0..30usize {
            let once = transpose_note("D", a).unwrap();
            assert_eq!(transpose_note(once, b), transpose_note("D", a + b));
        }
    }
}

#[test]
fn bass_degrees_name_notes_over_the_root() {
    assert_eq!(bass_degree_to_note("C:maj", "1"), Some("C".to_string()));
    assert_eq!(bass_degree_to_note("Db:maj", "1"), Some("Db".to_string()));
    assert_eq!(bass_degree_to_note("C:maj", "b2"), Some("C#".to_string()));
    assert_eq!(bass_degree_to_note("C:maj", "2"), Some("D".to_string()));
    assert_eq!(bass_degree_to_note("A:min", "b3"), Some("C".to_string()));
    assert_eq!(bass_degree_to_note("C:maj", "3"), Some("E".to_string()));
    assert_eq!(bass_degree_to_note("C:maj", "4"), Some("F".to_string()));
    assert_eq!(bass_degree_to_note("C:maj", "b5"), Some("F#".to_string()));
    assert_eq!(bass_degree_to_note("G:maj", "5"), Some("D".to_string()));
    assert_eq!(bass_degree_to_note("C:maj", "#5"), Some("Ab".to_string()));
    assert_eq!(bass_degree_to_note("C:maj", "b6"), Some("Ab".to_string()));
    assert_eq!(bass_degree_to_note("C:maj", "6"), Some("A".to_string()));
    assert_eq!(bass_degree_to_note("C:maj", "b7"), Some("Bb".to_string()));
    assert_eq!(bass_degree_to_note("C:maj", "7"), Some("B".to_string()));
    assert_eq!(bass_degree_to_note("C:maj", "9"), None);
    assert_eq!(bass_degree_to_note("N", "1"), None);
    assert_eq!(bass_degree_to_note("H:maj", "1"), Some("H".to_string()));
    assert_eq!(bass_degree_to_note("H:maj", "3"), None);
}

#[test]
fn labels_read_naturally() {
    assert_eq!(pretty_chord_label("N"), "No chord");
    assert_eq!(pretty_chord_label("C:maj"), "C");
    assert_eq!(pretty_chord_label("A:min"), "Am");
    assert_eq!(pretty_chord_label("A:min7"), "Am7");
    assert_eq!(pretty_chord_label("G:maj7"), "G7");
    assert_eq!(pretty_chord_label("E:7"), "E:7");
    assert_eq!(pretty_chord_label("A:min/b3"), "Am/C");
    assert_eq!(pretty_chord_label("C:maj/5"), "C/G");
    assert_eq!(pretty_chord_label("C:maj/1"), "C/C");
    assert_eq!(pretty_chord_label("C:maj/9"), "C/9");
    assert_eq!(pretty_chord_label("D:maj/3/5"), "D/3/5");
    assert_eq!(pretty_chord_label("N/3"), "N/3");
    assert_eq!(pretty_chord_label(":maj:min"), "m");
}

#[test]
fn diagram_names_keep_root_and_minor_family() {
    assert_eq!(simplify_for_asset("N"), "N");
    assert_eq!(simplify_for_asset("C"), "C");
    assert_eq!(simplify_for_asset("C:maj"), "C");
    assert_eq!(simplify_for_asset("A:min"), "Am");
    assert_eq!(simplify_for_asset("A:min7/b3"), "Am");
    assert_eq!(simplify_for_asset("E:7"), "E");
    assert_eq!(simplify_for_asset("F#:minmaj7"), "F#m");
    assert_eq!(simplify_for_asset("C:MIN"), "Cm");
    assert_eq!(simplify_for_asset("D:dim"), "D");
    assert_eq!(simplify_for_asset("G:maj:min"), "G");
    assert_eq!(simplify_for_asset("B/5:min"), "B");
}

#[test]
fn diagram_name_from_parts() {
    assert_eq!(asset_name_from("A", "min7"), "Am");
    assert_eq!(asset_name_from("A", "mi"), "A");
    assert_eq!(asset_name_from("A", "maj"), "A");
    assert_eq!(asset_name_from("", "min"), "m");
}

#[test]
fn diagram_keys_cover_enharmonic_spellings() {
    assert_eq!(chord_asset_key("A:maj"), Some("a"));
    assert_eq!(chord_asset_key("G#:maj"), Some("ab"));
    assert_eq!(chord_asset_key("Ab:min"), Some("abm"));
    assert_eq!(chord_asset_key("A#:min7"), Some("bbm"));
    assert_eq!(chord_asset_key("Db:maj/5"), Some("c#"));
    assert_eq!(chord_asset_key("D#:min"), Some("ebm"));
    assert_eq!(chord_asset_key("Gb:min"), Some("f#m"));
    assert_eq!(chord_asset_key("F#:maj"), None);
    assert_eq!(chord_asset_key("N"), None);
    assert_eq!(chord_asset_key("C:dim"), Some("c"));
}

#[test]
fn every_key_has_a_diagram() {
    let map = chord_asset_map();
    let roots = [
        "A", "A#", "Ab", "B", "Bb", "C", "C#", "Cb", "D", "D#", "Db", "E", "Eb", "F", "F#", "G",
        "G#", "Gb", "H",
    ];
    for root in roots {
        for quality in ["", ":maj", ":min", ":7", ":min7"] {
            let chord = format!("{}{}", root, quality);
            if let Some(key) = chord_asset_key(&chord) {
                assert!(map.get(key).is_some(), "no diagram for {}", chord);
            }
        }
    }
}

#[test]
fn asset_map_lookup() {
    let map = chord_asset_map();
    assert_eq!(map.len(), 23);
    assert_eq!(map.get("a"), Some("assets/chords/a.png"));
    assert_eq!(map.get("c#m"), Some("assets/chords/c#m.png"));
    assert_eq!(map.get("gm"), Some("assets/chords/gm.png"));
    assert_eq!(map.get("f#"), None);
    assert_eq!(map.get(""), None);
    let paths = map.paths();
    assert_eq!(paths.len(), 23);
    assert_eq!(paths[0], "assets/chords/a.png");
    assert_eq!(paths[22], "assets/chords/gm.png");
}

#[test]
fn enharmonic_spellings_share_a_key() {
    let pairs = [
        ("C#", "Db"), ("D#", "Eb"), ("F#", "Gb"), ("G#", "Ab"), ("A#", "Bb"),
    ];
    for (a, b) in pairs {
        for q in ["maj", "min"] {
            assert_eq!(
                chord_asset_key(&format!("{}:{}", a, q)),
                chord_asset_key(&format!("{}:{}", b, q))
            );
        }
    }
    for r in ["C", "C#", "D", "Eb", "E", "F", "F#", "G", "Ab", "A", "Bb", "B"] {
        assert!(chord_asset_key(&format!("{}:min", r)).is_some());
        assert_eq!(chord_asset_key(&format!("{}:maj", r)).is_some(), r != "F#");
    }
}

#[test]
fn every_diagram_is_reached() {
    let map = chord_asset_map();
    for path in map.paths() {
        let key = path.trim_start_matches("assets/chords/").trim_end_matches(".png");
        let mut name = key.to_string();
        name.replace_range(0..1, &key[0..1].to_uppercase());
        assert_eq!(chord_asset_key(&name), Some(key));
    }
}

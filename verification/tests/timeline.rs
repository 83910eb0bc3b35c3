use chordsense::timeline::{
    active_chord, build_lab_data, is_active, next_chord, previous_chord, ChordSegment, TimeKey,
};

fn k(x: i64) -> TimeKey {
    TimeKey { ordinal: Some(x) }
}

fn seg(start: i64, end: i64, chord: &str) -> ChordSegment {
    ChordSegment { start: k(start), end: k(end), chord: chord.to_string() }
}

fn song() -> Vec<ChordSegment> {
    vec![seg(0, 10, "A"), seg(10, 20, "B"), seg(20, 30, "C"), seg(15, 25, "D")]
}

#[test]
fn the_sounding_chord() {
    let s = song();
    assert_eq!(active_chord(k(0), &s).unwrap().chord, "A");
    assert_eq!(active_chord(k(10), &s).unwrap().chord, "B");
    assert_eq!(active_chord(k(17), &s).unwrap().chord, "B");
    assert_eq!(active_chord(k(22), &s).unwrap().chord, "C");
    assert!(active_chord(k(30), &s).is_none());
    assert!(active_chord(k(-1), &s).is_none());
    assert!(active_chord(TimeKey { ordinal: None }, &s).is_none());
    assert!(active_chord(k(5), &[]).is_none());
}

#[test]
fn the_chords_around() {
    let s = song();
    assert_eq!(next_chord(k(12), &s).unwrap().chord, "C");
    assert_eq!(next_chord(k(5), &s).unwrap().chord, "B");
    assert!(next_chord(k(25), &s).is_none());
    assert_eq!(previous_chord(k(20), &s).unwrap().chord, "B");
    assert_eq!(previous_chord(k(26), &s).unwrap().chord, "D");
    assert!(previous_chord(k(9), &s).is_none());
}

#[test]
fn active_matches_is_active() {
    let s = song();
    for x in -2..35 {
        let first = s.iter().find(|c| is_active(k(x), c)).map(|c| c.chord.clone());
        assert_eq!(active_chord(k(x), &s).map(|c| c.chord.clone()), first);
        if let Some(c) = active_chord(k(x), &s) {
            assert!(is_active(k(x), c));
        }
    }
}

#[test]
fn timeline_length() {
    assert!(build_lab_data(Vec::new()).is_none());
    let data = build_lab_data(song()).unwrap();
    assert_eq!(data.duration.ordinal, Some(30));
    assert_eq!(data.chords.len(), 4);
}

#[test]
fn time_order() {
    assert!(k(3).ge(&k(3)));
    assert!(!k(2).ge(&k(3)));
    assert!(k(2).lt(&k(3)));
    let nan = TimeKey { ordinal: None };
    assert!(!nan.ge(&nan));
    assert!(!nan.lt(&k(0)));
    assert_eq!(k(2).max(k(5)).ordinal, Some(5));
    assert_eq!(nan.max(k(5)).ordinal, Some(5));
    assert_eq!(k(5).min(nan).ordinal, Some(5));
    assert_eq!(nan.min(nan).ordinal, None);
    assert_eq!(k(-2).min(k(5)).ordinal, Some(-2));
}

use chordsense::assets::chord_asset_map;
use chordsense::display::chord_view;
use chordsense::gallery::{next_image, previous_image};
use chordsense::session::{max_duration, seek_target, Action, Control, Screen, Session};
use chordsense::timeline::{build_lab_data, ChordSegment, TimeKey};

fn k(x: i64) -> TimeKey {
    TimeKey { ordinal: Some(x) }
}

#[test]
fn a_new_session_waits_on_the_start_screen() {
    let s = Session::new();
    assert!(!s.started());
    assert_eq!(s.mode(), 0);
    assert_eq!(s.progress().ordinal, Some(0));
    assert!(!s.is_playing());
    assert_eq!(s.screen(), Screen::Start);
    assert!(!s.wants_repaint());
}

#[test]
fn keys_start_and_switch_modes() {
    let mut s = Session::new();
    assert!(!s.handle_keys(false, true));
    assert_eq!(s.screen(), Screen::Start);
    assert!(s.handle_keys(true, true));
    assert_eq!(s.mode(), 1);
    assert_eq!(s.screen(), Screen::Record);
    assert!(!s.handle_keys(true, false));
    assert!(s.handle_keys(false, true));
    assert_eq!(s.mode(), 0);
    assert_eq!(s.screen(), Screen::PlayAlong);
}

#[test]
fn syncing_with_the_audio() {
    let mut s = Session::new();
    s.handle_keys(true, false);
    s.sync_progress(k(40), k(30), false, false);
    assert_eq!(s.progress().ordinal, Some(30));
    assert!(s.is_playing());
    assert!(s.wants_repaint());
    s.sync_progress(k(12), k(30), false, true);
    assert_eq!(s.progress().ordinal, Some(12));
    assert!(!s.is_playing());
    s.sync_progress(k(12), k(30), true, false);
    assert!(!s.is_playing());
    assert!(!s.wants_repaint());
}

#[test]
fn rewind_only_at_the_end() {
    let mut s = Session::new();
    s.sync_progress(k(30), k(30), true, false);
    assert!(s.needs_rewind(k(30)));
    assert!(!s.needs_rewind(k(0)));
    s.sync_progress(k(10), k(30), false, false);
    assert!(!s.needs_rewind(k(30)));
}

#[test]
fn song_length_and_seeking() {
    assert_eq!(max_duration(None, None).ordinal, Some(0));
    assert_eq!(max_duration(Some(k(20)), Some(k(25))).ordinal, Some(25));
    assert_eq!(max_duration(Some(k(20)), None).ordinal, Some(20));
    assert_eq!(seek_target(k(-5), k(30)).ordinal, Some(0));
    assert_eq!(seek_target(k(35), k(30)).ordinal, Some(30));
    assert_eq!(seek_target(k(12), k(30)).ordinal, Some(12));
    assert_eq!(seek_target(TimeKey { ordinal: None }, k(30)).ordinal, None);
}

#[test]
fn paging_wraps_around() {
    assert_eq!(next_image(0, 23), 1);
    assert_eq!(next_image(22, 23), 0);
    assert_eq!(previous_image(0, 23), 22);
    assert_eq!(previous_image(5, 23), 4);
    for i in 0..23 {
        assert_eq!(previous_image(next_image(i, 23), 23), i);
        assert_eq!(next_image(previous_image(i, 23), 23), i);
    }
}

#[test]
fn the_chord_texts_of_the_screen() {
    let assets = chord_asset_map();
    let none = chord_view(k(5), &None, &assets);
    assert_eq!(none.active_label, "No chord");
    assert_eq!(none.previous_label, "--");
    assert_eq!(none.next_label, "--");
    assert!(none.active_image_path.is_none());

    let data = build_lab_data(vec![
        ChordSegment { start: k(0), end: k(10), chord: "A:min/b3".to_string() },
        ChordSegment { start: k(10), end: k(20), chord: "F#:maj".to_string() },
        ChordSegment { start: k(20), end: k(30), chord: "G:maj".to_string() },
    ]);
    let v = chord_view(k(3), &data, &assets);
    assert_eq!(v.active_label, "Am/C");
    assert_eq!(v.previous_label, "--");
    assert_eq!(v.next_label, "F#");
    assert_eq!(v.active_image_path.as_deref(), Some("assets/chords/am.png"));
    assert_eq!(v.active_model_output.as_deref(), Some("A:min/b3"));
    assert_eq!(v.active_simplified_output.as_deref(), Some("Am"));

    let v = chord_view(k(12), &data, &assets);
    assert_eq!(v.active_label, "F#");
    assert_eq!(v.previous_label, "Am/C");
    assert_eq!(v.next_label, "G");
    assert!(v.active_image_path.is_none());
    assert_eq!(v.active_simplified_output.as_deref(), Some("F#"));

    let v = chord_view(k(40), &data, &assets);
    assert_eq!(v.active_label, "No chord");
    assert_eq!(v.previous_label, "G");
    assert_eq!(v.next_label, "--");
    assert!(v.active_model_output.is_none());
}

#[test]
fn controls_lead_to_steps() {
    let mut s = Session::new();
    let steps = s.control_actions(Control::Back);
    assert!(matches!(steps.as_slice(), [Action::Stop]));
    let steps = s.control_actions(Control::PlayPause);
    assert!(matches!(steps.as_slice(), [Action::Play, Action::Repaint]));
    let steps = s.control_actions(Control::SlideTo(k(7)));
    assert!(matches!(steps.as_slice(), [Action::Seek(t)] if t.ordinal == Some(7)));
    s.sync_progress(k(1), k(30), false, false);
    let steps = s.control_actions(Control::PlayPause);
    assert!(matches!(steps.as_slice(), [Action::Pause]));
    let steps = s.control_actions(Control::SlideTo(k(9)));
    assert!(matches!(steps.as_slice(), [Action::Seek(_), Action::Play]));
}

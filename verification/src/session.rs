//! The decisions of the ChordSense player between frames: when the start
//! screen is left, which mode is shown, what the progress bar shows, whether
//! playback restarts from the beginning, where a seek lands, and when the next
//! frame is requested. The audio engine itself is driven by the caller, who
//! reports its position and state back.

use vstd::prelude::*;
use crate::timeline::{time_ge, time_lt, time_max, time_min, zero_time, TimeKey};

verus! {

/// What the central area of the player shows.
#[derive(Clone, Copy, Debug, PartialEq, Eq)]
pub enum Screen {
    /// The title card, until a key is pressed.
    Start,
    /// Mode 0: the song plays and its chords are shown.
    PlayAlong,
    /// Mode 1: recording.
    Record,
}

/// A control of the play-along screen that the user worked.
#[derive(Clone, Copy, Debug)]
pub enum Control {
    /// The back button.
    Back,
    /// The play or pause button (whichever is shown).
    PlayPause,
    /// The position slider, moved to a moment.
    SlideTo(TimeKey),
}

/// A step that the player takes on the audio engine or the window.
#[derive(Clone, Copy, Debug)]
pub enum Action {
    /// Stop and reload the song.
    Stop,
    /// Pause.
    Pause,
    /// Play (rewinding first where the end was reached).
    Play,
    /// Seek to a moment.
    Seek(TimeKey),
    /// Ask for a new frame at once.
    Repaint,
}

/// The steps that a control leads to, given whether the audio plays: back
/// stops; the button pauses what plays and plays what does not (and asks for
/// a frame); the slider seeks, and plays on what was playing.
pub open spec fn control_plan(playing: bool, control: Control) -> Seq<Action> {
    match control {
        Control::Back => seq![Action::Stop],
        Control::PlayPause => if playing {
            seq![Action::Pause]
        } else {
            seq![Action::Play, Action::Repaint]
        },
        Control::SlideTo(t) => if playing {
            seq![Action::Seek(t), Action::Play]
        } else {
            seq![Action::Seek(t)]
        },
    }
}

/// The length of the song: the longer of the timeline's and the audio's,
/// each taken as zero where it is unknown.
pub open spec fn duration_of(lab: Option<TimeKey>, audio: Option<TimeKey>) -> TimeKey {
    let l = match lab {
        Some(d) => d,
        None => zero_time(),
    };
    let a = match audio {
        Some(d) => d,
        None => zero_time(),
    };
    time_max(l, a)
}

/// The length of the song from the timeline's length and the audio's.
pub fn max_duration(lab: Option<TimeKey>, audio: Option<TimeKey>) -> (r: TimeKey)
    ensures
        r == duration_of(lab, audio),
{
    let l = match lab {
        Some(d) => d,
        None => TimeKey::zero(),
    };
    let a = match audio {
        Some(d) => d,
        None => TimeKey::zero(),
    };
    l.max(a)
}

/// `f64::clamp(t, 0, max)`: `t` brought into `[0, max]`; a time that is no
/// number stays as it is.
pub open spec fn clamped(t: TimeKey, max: TimeKey) -> TimeKey {
    if time_lt(t, zero_time()) {
        zero_time()
    } else if time_lt(max, t) {
        max
    } else {
        t
    }
}

/// Where a seek to `new_position` lands in a song of length `max`.
pub fn seek_target(new_position: TimeKey, max: TimeKey) -> (r: TimeKey)
    requires
        time_ge(max, zero_time()),
    ensures
        r == clamped(new_position, max),
{
    let zero = TimeKey::zero();
    if new_position.lt(&zero) {
        zero
    } else if max.lt(&new_position) {
        max
    } else {
        new_position
    }
}

/// The player's state between frames.
pub struct Session {
    started: bool,
    mode: usize,
    progress: TimeKey,
    is_playing: bool,
}

impl Session {
    /// The mode is 0 (play along) or 1 (record).
    #[verifier::type_invariant]
    spec fn mode_known(self) -> bool {
        self.mode < 2
    }

    /// Whether the start screen has been left.
    pub closed spec fn spec_started(self) -> bool {
        self.started
    }

    /// The mode shown: 0 play along, 1 record.
    pub closed spec fn spec_mode(self) -> nat {
        self.mode as nat
    }

    /// The playback position shown.
    pub closed spec fn spec_progress(self) -> TimeKey {
        self.progress
    }

    /// Whether the audio is playing.
    pub closed spec fn spec_is_playing(self) -> bool {
        self.is_playing
    }

    /// A session on the start screen, in mode 0, at position zero, not playing.
    pub fn new() -> (r: Session)
        ensures
            !r.spec_started(),
            r.spec_mode() == 0,
            r.spec_progress() == zero_time(),
            !r.spec_is_playing(),
    {
        Session { started: false, mode: 0, progress: TimeKey::zero(), is_playing: false }
    }

    /// Whether the start screen has been left.
    pub fn started(&self) -> (r: bool)
        ensures
            r == self.spec_started(),
    {
        self.started
    }

    /// The mode shown: 0 play along, 1 record.
    pub fn mode(&self) -> (r: usize)
        ensures
            r == self.spec_mode(),
            r < 2,
    {
        proof {
            use_type_invariant(self);
        }
        self.mode
    }

    /// The playback position shown.
    pub fn progress(&self) -> (r: TimeKey)
        ensures
            r == self.spec_progress(),
    {
        self.progress
    }

    /// Whether the audio is playing.
    pub fn is_playing(&self) -> (r: bool)
        ensures
            r == self.spec_is_playing(),
    {
        self.is_playing
    }

    /// Takes in the keys of a frame: any key leaves the start screen; once it
    /// is left, the mode key switches between the two modes. Returns whether
    /// the audio is to be paused (it is, at each switch).
    pub fn handle_keys(&mut self, any_key_down: bool, mode_key_pressed: bool) -> (pause: bool)
        ensures
            final(self).spec_started() == (old(self).spec_started() || any_key_down),
            pause == (final(self).spec_started() && mode_key_pressed),
            final(self).spec_mode() == if pause {
                (old(self).spec_mode() + 1) % 2
            } else {
                old(self).spec_mode()
            },
            final(self).spec_progress() == old(self).spec_progress(),
            final(self).spec_is_playing() == old(self).spec_is_playing(),
    {
        proof {
            use_type_invariant(&*self);
        }
        if !self.started && any_key_down {
            self.started = true;
        }
        if self.started && mode_key_pressed {
            self.mode = (self.mode + 1) % 2;
            true
        } else {
            false
        }
    }

    /// Takes in the audio engine's state: the position shown is the engine's,
    /// but no later than the song's end; it plays unless the queue is done or
    /// paused.
    pub fn sync_progress(
        &mut self,
        position: TimeKey,
        max_duration: TimeKey,
        finished: bool,
        paused: bool,
    )
        ensures
            final(self).spec_progress() == time_min(position, max_duration),
            final(self).spec_is_playing() == (!finished && !paused),
            final(self).spec_started() == old(self).spec_started(),
            final(self).spec_mode() == old(self).spec_mode(),
    {
        proof {
            use_type_invariant(&*self);
        }
        self.progress = position.min(max_duration);
        if finished {
            self.is_playing = false;
        } else {
            self.is_playing = !paused;
        }
    }

    /// Whether a play request first rewinds: the song has a length and the
    /// position shown has reached it.
    pub fn needs_rewind(&self, max_duration: TimeKey) -> (r: bool)
        ensures
            r == (time_lt(zero_time(), max_duration) && time_ge(
                self.spec_progress(),
                max_duration,
            )),
    {
        TimeKey::zero().lt(&max_duration) && self.progress.ge(&max_duration)
    }

    /// The steps that `control` leads to, in order.
    pub fn control_actions(&self, control: Control) -> (r: Vec<Action>)
        ensures
            r@ == control_plan(self.spec_is_playing(), control),
    {
        let mut r: Vec<Action> = Vec::new();
        match control {
            Control::Back => r.push(Action::Stop),
            Control::PlayPause => if self.is_playing {
                r.push(Action::Pause);
            } else {
                r.push(Action::Play);
                r.push(Action::Repaint);
            },
            Control::SlideTo(t) => {
                r.push(Action::Seek(t));
                if self.is_playing {
                    r.push(Action::Play);
                }
            },
        }
        r
    }

    /// Whether another frame is wanted soon: playing along while audio plays.
    pub fn wants_repaint(&self) -> (r: bool)
        ensures
            r == (self.spec_started() && self.spec_mode() == 0 && self.spec_is_playing()),
    {
        self.started && self.mode == 0 && self.is_playing
    }

    /// What the central area shows.
    pub fn screen(&self) -> (r: Screen)
        ensures
            r == if !self.spec_started() {
                Screen::Start
            } else if self.spec_mode() == 0 {
                Screen::PlayAlong
            } else {
                Screen::Record
            },
    {
        proof {
            use_type_invariant(self);
        }
        if !self.started {
            Screen::Start
        } else if self.mode == 0 {
            Screen::PlayAlong
        } else {
            Screen::Record
        }
    }
}


/// After a sync, the position shown is never past the end of a song whose
/// length is a number.
pub proof fn law_progress_within_song(position: TimeKey, max_duration: TimeKey)
    requires
        max_duration.ordinal is Some,
    ensures
        time_ge(max_duration, time_min(position, max_duration)),
{
}

/// A seek to a moment that is a number lands within the song: at or after
/// zero and at or before its end.
pub proof fn law_seek_within_song(new_position: TimeKey, max_duration: TimeKey)
    requires
        time_ge(max_duration, zero_time()),
        new_position.ordinal is Some,
    ensures
        time_ge(clamped(new_position, max_duration), zero_time()),
        time_ge(max_duration, clamped(new_position, max_duration)),
{
}

/// The length of a song is never negative where the lengths reported by the
/// timeline and the audio, where known, are not.
pub proof fn law_duration_not_negative(lab: Option<TimeKey>, audio: Option<TimeKey>)
    requires
        lab matches Some(d) ==> time_ge(d, zero_time()),
        audio matches Some(d) ==> time_ge(d, zero_time()),
    ensures
        time_ge(duration_of(lab, audio), zero_time()),
{
}


/// The song is as long as the longer of the timeline and the audio: at least
/// each of their lengths that is a number, and one of them (or zero, taken
/// for an unknown length).
pub proof fn law_duration_is_the_longer(lab: Option<TimeKey>, audio: Option<TimeKey>)
    ensures
        match lab {
            Some(l) => l.ordinal is Some ==> time_ge(duration_of(lab, audio), l),
            None => time_ge(duration_of(lab, audio), zero_time()),
        },
        match audio {
            Some(a) => a.ordinal is Some ==> time_ge(duration_of(lab, audio), a),
            None => time_ge(duration_of(lab, audio), zero_time()),
        },
        duration_of(lab, audio) == zero_time() || Some(duration_of(lab, audio)) == lab || Some(
            duration_of(lab, audio),
        ) == audio,
{
}

/// Moving the slider to `t` always seeks to `t` first, and then plays on
/// exactly where the audio was playing; the other controls never seek.
pub proof fn law_slider_seeks_where_moved(playing: bool, t: TimeKey)
    ensures
        control_plan(playing, Control::SlideTo(t)).len() >= 1,
        control_plan(playing, Control::SlideTo(t))[0] == Action::Seek(t),
        control_plan(playing, Control::SlideTo(t)).len() == if playing {
            2int
        } else {
            1int
        },
        playing ==> control_plan(playing, Control::SlideTo(t))[1] == Action::Play,
        control_plan(playing, Control::Back) == seq![Action::Stop],
        control_plan(playing, Control::PlayPause)[0] == if playing {
            Action::Pause
        } else {
            Action::Play
        },
{
}

} // verus!

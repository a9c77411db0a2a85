//! The session controller: one cycle of waiting, recording, transcribing and
//! dispatching after the other, and the slot of the playback it tracks.
//!
//! The controller decides; its surroundings act. Every method takes what
//! happened outside and says what is to be done next.

use crate::library::LibraryIndex;
use crate::matcher::{is_answer, joined, play, NoMatch};
use crate::text::{
    normalize, normalized, same_text, split_words, texts, trim, trimmed, words,
    words_is_not_empty,
};
use vstd::prelude::*;
use vstd::string::StringExecFns;

verus! {

/// Where the controller stands in its cycle.
#[derive(Debug, Clone, Copy, PartialEq, Eq, Structural)]
pub enum Phase {
    /// Waiting for the trigger.
    Idle,
    /// A recording is being made.
    Recording,
    /// The recording is with the transcriber.
    Transcribing,
    /// A command was read and is being carried out.
    Dispatching,
}

/// What a transcript asks the surroundings to do.
#[derive(Debug, PartialEq, Eq)]
pub enum Action {
    /// Nothing.
    Nothing,
    /// Let the tracked playback run again.
    Resume,
    /// Suspend the tracked playback.
    Pause,
    /// Load the file at this path and play it.
    Start(String),
    /// Say that nothing could be matched: the index is empty.
    NoMatch,
}

/// The controller as a mathematical value.
pub struct SessionState {
    /// Where it stands in its cycle.
    pub phase: Phase,
    /// The library index, from title to path.
    pub index: Map<Seq<char>, Seq<char>>,
    /// The tracked playback: the path of its file, and whether it runs.
    pub playing: Option<(Seq<char>, bool)>,
    /// The path of the file whose playback is being started.
    pub starting: Option<Seq<char>>,
}

/// What was said: the transcript, normalised, without the whitespace at its
/// ends.
pub open spec fn spoken(transcript: Seq<char>) -> Seq<char> {
    trimmed(normalized(transcript))
}

/// The effect of a command on the tracked playback that only lets it run
/// (`run`) or suspends it: nothing where none is tracked.
pub open spec fn switches(
    before: SessionState,
    run: bool,
    action: Action,
    after: SessionState,
) -> bool {
    &&& after.starting is None
    &&& match before.playing {
        Some((path, _)) => after.playing == Some((path, run)) && if run {
            action is Resume
        } else {
            action is Pause
        },
        None => after.playing is None && action is Nothing,
    }
}

/// The effect of asking for `phrase`: the best match of the index is to be
/// started, and the tracked playback stays until that has succeeded.
pub open spec fn requests(
    before: SessionState,
    phrase: Seq<char>,
    action: Action,
    after: SessionState,
) -> bool {
    &&& after.playing == before.playing
    &&& match action {
        Action::Start(path) => after.starting == Some(path@) && is_answer(
            before.index,
            phrase,
            Ok::<String, NoMatch>(path),
        ),
        Action::NoMatch => after.starting is None && is_answer(
            before.index,
            phrase,
            Err::<String, NoMatch>(NoMatch),
        ),
        _ => false,
    }
}

/// How a transcript is dispatched. The word `play` alone resumes; `play`
/// followed by more starts the best match for the rest; `pause` alone
/// suspends; everything else is passed over.
pub open spec fn dispatches(
    before: SessionState,
    transcript: Seq<char>,
    action: Action,
    after: SessionState,
) -> bool {
    let speech = spoken(transcript);
    &&& after.phase == Phase::Dispatching
    &&& after.index == before.index
    &&& if words(speech).first() == "play"@ {
        if speech == "play"@ {
            switches(before, true, action, after)
        } else {
            requests(before, joined(words(speech).skip(1)), action, after)
        }
    } else if speech == "pause"@ {
        switches(before, false, action, after)
    } else {
        action is Nothing && after.playing == before.playing && after.starting is None
    }
}

/// The request that is written to the transcriber: the path of the
/// recording as one line.
pub fn transcription_request(path: &str) -> (line: String)
    ensures
        line@ == path@.push('\n'),
{
    let mut line = String::from_str(path);
    line.push('\n');
    line
}

/// The session controller.
pub struct Session {
    phase: Phase,
    index: LibraryIndex,
    playing: Option<String>,
    running: bool,
    starting: Option<String>,
}

impl View for Session {
    type V = SessionState;

    closed spec fn view(&self) -> SessionState {
        SessionState {
            phase: self.phase,
            index: self.index@,
            playing: match self.playing {
                Some(path) => Some((path@, self.running)),
                None => None,
            },
            starting: match self.starting {
                Some(path) => Some(path@),
                None => None,
            },
        }
    }
}

impl Session {
    /// A controller over `index` that waits for the trigger and tracks no
    /// playback.
    pub fn new(index: LibraryIndex) -> (session: Session)
        ensures
            session@ == (SessionState {
                phase: Phase::Idle,
                index: index@,
                playing: None,
                starting: None,
            }),
    {
        Session { phase: Phase::Idle, index, playing: None, running: false, starting: None }
    }

    /// Where the controller stands in its cycle.
    pub fn phase(&self) -> (phase: Phase)
        ensures
            phase == self@.phase,
    {
        self.phase
    }

    /// The library index.
    pub fn index(&self) -> (index: &LibraryIndex)
        ensures
            index@ == self@.index,
    {
        &self.index
    }

    /// The path of the file of the tracked playback, if one is tracked.
    pub fn now_playing(&self) -> (path: Option<&str>)
        ensures
            match path {
                Some(p) => self@.playing matches Some(pair) && pair.0 == p@,
                None => self@.playing is None,
            },
    {
        match &self.playing {
            Some(path) => Some(path.as_str()),
            None => None,
        }
    }

    /// Whether a playback is tracked and was last told to run.
    pub fn is_running(&self) -> (running: bool)
        ensures
            running == (self@.playing matches Some(pair) && pair.1),
    {
        self.playing.is_some() && self.running
    }

    /// The trigger came. Taken only while idle: the controller then goes on
    /// to recording, and the caller makes the recording.
    pub fn trigger(&mut self) -> (taken: bool)
        ensures
            taken == (old(self)@.phase == Phase::Idle),
            final(self)@ == if taken {
                SessionState { phase: Phase::Recording, ..old(self)@ }
            } else {
                old(self)@
            },
    {
        match self.phase {
            Phase::Idle => {
                self.phase = Phase::Recording;
                true
            },
            _ => false,
        }
    }

    /// The recording is complete. Taken only while recording: the
    /// controller then goes on to transcribing, and the caller hands the
    /// recording to the transcriber.
    pub fn capture_complete(&mut self) -> (taken: bool)
        ensures
            taken == (old(self)@.phase == Phase::Recording),
            final(self)@ == if taken {
                SessionState { phase: Phase::Transcribing, ..old(self)@ }
            } else {
                old(self)@
            },
    {
        match self.phase {
            Phase::Recording => {
                self.phase = Phase::Transcribing;
                true
            },
            _ => false,
        }
    }

    /// The transcript is there. Taken only while transcribing: the
    /// controller then reads the command, goes on to dispatching and says
    /// what is to be done. Out of turn it answers `None` and stays as it is.
    pub fn transcript_ready(&mut self, transcript: &str) -> (r: Option<Action>)
        ensures
            match r {
                Some(action) => old(self)@.phase == Phase::Transcribing && dispatches(
                    old(self)@,
                    transcript@,
                    action,
                    final(self)@,
                ),
                None => old(self)@.phase != Phase::Transcribing && final(self)@ == old(self)@,
            },
    {
        match self.phase {
            Phase::Transcribing => {},
            _ => {
                return None;
            },
        }
        self.phase = Phase::Dispatching;
        self.starting = None;
        let text = normalize(transcript);
        let speech = trim(text.as_str());
        let parts = split_words(speech);
        proof {
            words_is_not_empty(speech@);
        }
        assert(texts(parts@)[0] == parts@[0]@);
        if same_text(parts[0], "play") {
            if same_text(speech, "play") {
                if self.playing.is_some() {
                    self.running = true;
                    Some(Action::Resume)
                } else {
                    Some(Action::Nothing)
                }
            } else {
                let mut rest: Vec<&str> = Vec::new();
                let mut i: usize = 1;
                assert(texts(parts@).skip(1).take(0) == texts(rest@));
                while i < parts.len()
                    invariant
                        1 <= i <= parts@.len(),
                        texts(rest@) == texts(parts@).skip(1).take(i - 1),
                    decreases parts@.len() - i,
                {
                    let ghost before = texts(rest@);
                    rest.push(parts[i]);
                    assert(texts(rest@) == before.push(parts@[i as int]@));
                    assert(texts(parts@).skip(1).take(i as int) == texts(parts@).skip(1).take(
                        i - 1,
                    ).push(texts(parts@)[i as int]));
                    i += 1;
                }
                assert(texts(parts@).skip(1).take(i - 1) == texts(parts@).skip(1));
                match play(rest, &self.index) {
                    Ok(path) => {
                        self.starting = Some(path.clone());
                        Some(Action::Start(path))
                    },
                    Err(_) => Some(Action::NoMatch),
                }
            }
        } else if same_text(speech, "pause") {
            if self.playing.is_some() {
                self.running = false;
                Some(Action::Pause)
            } else {
                Some(Action::Nothing)
            }
        } else {
            Some(Action::Nothing)
        }
    }

    /// The action was carried out, with or without success. Taken only
    /// while dispatching: the controller then is idle again. A playback
    /// that was started with success takes the place of the tracked one;
    /// one that failed leaves the tracked one as it is.
    pub fn handled(&mut self, success: bool) -> (taken: bool)
        ensures
            taken == (old(self)@.phase == Phase::Dispatching),
            final(self)@ == if taken {
                SessionState {
                    phase: Phase::Idle,
                    index: old(self)@.index,
                    playing: if success && old(self)@.starting is Some {
                        Some((old(self)@.starting->0, true))
                    } else {
                        old(self)@.playing
                    },
                    starting: None,
                }
            } else {
                old(self)@
            },
    {
        match self.phase {
            Phase::Dispatching => {},
            _ => {
                return false;
            },
        }
        self.phase = Phase::Idle;
        let started = self.starting.take();
        if success {
            match started {
                Some(path) => {
                    self.playing = Some(path);
                    self.running = true;
                },
                None => {},
            }
        }
        true
    }
}

} // verus!

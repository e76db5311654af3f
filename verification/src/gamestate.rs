//! The course of a game: whether it has started, ended or is paused, the
//! phase it is in, and whatever else a game wants to note.
//!
//! Each step takes the time of the step; the functions without a time ask
//! the clock for it.

use vstd::prelude::*;
use crate::json::{decode_value, text_value};
use crate::token::copy_text;
use crate::types::HyperTokenError;

verus! {

/// Where a game stands.
#[derive(Debug, Clone)]
pub struct GameState {
    pub started: bool,
    pub start_time: Option<i64>,
    pub phase: String,
    pub turn: u32,
    pub ended: bool,
    pub end_time: Option<i64>,
    pub winner: Option<String>,
    pub reason: Option<String>,
    pub paused: bool,
    pub pause_time: Option<i64>,
    pub resume_time: Option<i64>,
    pub total_pause_duration: i64,
    /// What else the game notes, by name; no name twice.
    pub properties: Vec<(String, serde_json::Value)>,
}

pub ghost struct GameView {
    pub started: bool,
    pub start_time: Option<i64>,
    pub phase: Seq<char>,
    pub turn: u32,
    pub ended: bool,
    pub end_time: Option<i64>,
    pub winner: Option<Seq<char>>,
    pub reason: Option<Seq<char>>,
    pub paused: bool,
    pub pause_time: Option<i64>,
    pub resume_time: Option<i64>,
    pub total_pause_duration: i64,
    pub properties: Seq<(Seq<char>, serde_json::Value)>,
}

pub open spec fn properties_view(v: Seq<(String, serde_json::Value)>) -> Seq<(Seq<char>, serde_json::Value)> {
    v.map_values(|e: (String, serde_json::Value)| (e.0@, e.1))
}

impl View for GameState {
    type V = GameView;

    open spec fn view(&self) -> GameView {
        GameView {
            started: self.started,
            start_time: self.start_time,
            phase: self.phase@,
            turn: self.turn,
            ended: self.ended,
            end_time: self.end_time,
            winner: self.winner.deep_view(),
            reason: self.reason.deep_view(),
            paused: self.paused,
            pause_time: self.pause_time,
            resume_time: self.resume_time,
            total_pause_duration: self.total_pause_duration,
            properties: properties_view(self.properties@),
        }
    }
}

/// A game that has not started: in the phase `setup`, at turn 0.
pub open spec fn fresh_game() -> GameView {
    GameView {
        started: false,
        start_time: None,
        phase: "setup"@,
        turn: 0,
        ended: false,
        end_time: None,
        winner: None,
        reason: None,
        paused: false,
        pause_time: None,
        resume_time: None,
        total_pause_duration: 0,
        properties: Seq::empty(),
    }
}

/// The phase that follows by default: `setup`, `play`, `scoring`, `end`,
/// and `end` stays. A phase that is none of these counts as `setup`.
pub open spec fn phase_after(phase: Seq<char>) -> Seq<char> {
    if phase == "play"@ {
        "scoring"@
    } else if phase == "scoring"@ {
        "end"@
    } else if phase == "end"@ {
        "end"@
    } else {
        "play"@
    }
}

/// Where the property `key` stands; the number of properties where there is none.
pub open spec fn property_place(ps: Seq<(Seq<char>, serde_json::Value)>, key: Seq<char>) -> int
    decreases ps.len(),
{
    if ps.len() == 0 {
        0
    } else if ps[0].0 == key {
        0
    } else {
        1 + property_place(ps.drop_first(), key)
    }
}

pub proof fn lemma_property_place(ps: Seq<(Seq<char>, serde_json::Value)>, key: Seq<char>, i: int)
    requires
        0 <= i <= ps.len(),
        forall|j: int| 0 <= j < i ==> ps[j].0 != key,
        i < ps.len() ==> ps[i].0 == key,
    ensures
        property_place(ps, key) == i,
    decreases ps.len(),
{
    if ps.len() > 0 && ps[0].0 != key {
        assert forall|j: int| 0 <= j < i - 1 implies ps.drop_first()[j].0 != key by {
            assert(ps.drop_first()[j] == ps[j + 1]);
        }
        if i - 1 < ps.drop_first().len() {
            assert(ps.drop_first()[i - 1] == ps[i]);
        }
        lemma_property_place(ps.drop_first(), key, i - 1);
    }
}

/// The properties with `key` set to `value`: in its place where it was
/// there, at the end where it was not.
pub open spec fn with_property(ps: Seq<(Seq<char>, serde_json::Value)>, key: Seq<char>, value: serde_json::Value) -> Seq<(Seq<char>, serde_json::Value)> {
    if property_place(ps, key) < ps.len() {
        ps.update(property_place(ps, key), (key, value))
    } else {
        ps.push((key, value))
    }
}

/// The time now in milliseconds, as `chrono` counts it: the system's
/// time as a `DateTime<Utc>`, by `timestamp_millis`. Nothing is claimed
/// of it.
#[verifier::external_body]
pub(crate) fn utc_now() -> i64 {
    chrono::DateTime::<chrono::Utc>::from(std::time::SystemTime::now()).timestamp_millis()
}

/// The course of one game.
pub struct GameStateManager {
    state: GameState,
}

impl GameStateManager {
    /// Where the game stands.
    pub closed spec fn view(&self) -> GameView {
        self.state@
    }

    /// A game that has not started.
    pub fn new() -> (r: GameStateManager)
        ensures
            r@ == fresh_game(),
    {
        let state = GameState {
            started: false,
            start_time: None,
            phase: "setup".to_owned(),
            turn: 0,
            ended: false,
            end_time: None,
            winner: None,
            reason: None,
            paused: false,
            pause_time: None,
            resume_time: None,
            total_pause_duration: 0,
            properties: Vec::new(),
        };
        proof {
            assert(properties_view(state.properties@) =~= Seq::empty());
        }
        GameStateManager { state }
    }

    /// A copy of where the game stands.
    fn snapshot(&self) -> (r: GameState)
        ensures
            r@ == self@,
    {
        let mut properties: Vec<(String, serde_json::Value)> = Vec::new();
        let mut i: usize = 0;
        proof {
            assert(properties_view(properties@) =~= properties_view(self.state.properties@).take(0));
        }
        while i < self.state.properties.len()
            invariant
                0 <= i <= self.state.properties.len(),
                properties_view(properties@) == properties_view(self.state.properties@).take(i as int),
            decreases self.state.properties.len() - i,
        {
            let ghost before = properties@;
            let entry = (self.state.properties[i].0.clone(), self.state.properties[i].1.clone());
            properties.push(entry);
            proof {
                assert(properties_view(properties@) =~= properties_view(before).push((entry.0@, entry.1)));
                assert(properties_view(self.state.properties@).take(i + 1) =~= properties_view(
                    self.state.properties@,
                ).take(i as int).push(properties_view(self.state.properties@)[i as int]));
            }
            i = i + 1;
        }
        proof {
            assert(properties_view(self.state.properties@).take(self.state.properties.len() as int)
                =~= properties_view(self.state.properties@));
        }
        GameState {
            started: self.state.started,
            start_time: self.state.start_time,
            phase: self.state.phase.clone(),
            turn: self.state.turn,
            ended: self.state.ended,
            end_time: self.state.end_time,
            winner: copy_text(&self.state.winner),
            reason: copy_text(&self.state.reason),
            paused: self.state.paused,
            pause_time: self.state.pause_time,
            resume_time: self.state.resume_time,
            total_pause_duration: self.state.total_pause_duration,
            properties,
        }
    }

    /// Starts the game at the time `at`: started and not ended, in the
    /// phase `setup`, at turn 0. Returns where the game stands then.
    pub fn start_at(&mut self, at: i64) -> (r: Result<GameState, HyperTokenError>)
        ensures
            r is Ok,
            r->Ok_0@ == final(self)@,
            final(self)@ == (GameView {
                started: true,
                start_time: Some(at),
                phase: "setup"@,
                turn: 0,
                ended: false,
                ..old(self)@
            }),
    {
        self.state.started = true;
        self.state.start_time = Some(at);
        self.state.phase = "setup".to_owned();
        self.state.turn = 0;
        self.state.ended = false;
        Ok(self.snapshot())
    }

    /// Starts the game now. See `start_at`.
    pub fn start(&mut self) -> (r: Result<GameState, HyperTokenError>)
        ensures
            r is Ok,
            r->Ok_0@ == final(self)@,
            final(self)@ == (GameView {
                started: true,
                start_time: final(self)@.start_time,
                phase: "setup"@,
                turn: 0,
                ended: false,
                ..old(self)@
            }),
            final(self)@.start_time is Some,
    {
        self.start_at(utc_now())
    }

    /// Ends the game at the time `at`, with the winner and the reason, if
    /// any. Returns where the game stands then.
    pub fn end_at(&mut self, winner: Option<String>, reason: Option<String>, at: i64) -> (r: Result<
        GameState,
        HyperTokenError,
    >)
        ensures
            r is Ok,
            r->Ok_0@ == final(self)@,
            final(self)@ == (GameView {
                ended: true,
                end_time: Some(at),
                winner: winner.deep_view(),
                reason: reason.deep_view(),
                ..old(self)@
            }),
    {
        self.state.ended = true;
        self.state.end_time = Some(at);
        self.state.winner = winner;
        self.state.reason = reason;
        Ok(self.snapshot())
    }

    /// Ends the game now. See `end_at`.
    pub fn end(&mut self, winner: Option<String>, reason: Option<String>) -> (r: Result<GameState, HyperTokenError>)
        ensures
            r is Ok,
            r->Ok_0@ == final(self)@,
            final(self)@ == (GameView {
                ended: true,
                end_time: final(self)@.end_time,
                winner: winner.deep_view(),
                reason: reason.deep_view(),
                ..old(self)@
            }),
            final(self)@.end_time is Some,
    {
        self.end_at(winner, reason, utc_now())
    }

    /// Pauses the game at the time `at`. Returns where the game stands then.
    pub fn pause_at(&mut self, at: i64) -> (r: Result<GameState, HyperTokenError>)
        ensures
            r is Ok,
            r->Ok_0@ == final(self)@,
            final(self)@ == (GameView { paused: true, pause_time: Some(at), ..old(self)@ }),
    {
        self.state.paused = true;
        self.state.pause_time = Some(at);
        Ok(self.snapshot())
    }

    /// Pauses the game now. See `pause_at`.
    pub fn pause(&mut self) -> (r: Result<GameState, HyperTokenError>)
        ensures
            r is Ok,
            r->Ok_0@ == final(self)@,
            final(self)@ == (GameView { paused: true, pause_time: final(self)@.pause_time, ..old(self)@ }),
            final(self)@.pause_time is Some,
    {
        self.pause_at(utc_now())
    }

    /// Where the game stands after it went on at the time `at`: where it
    /// was ever paused, the time since the last pause is added to the
    /// time spent paused, wrapping around where the sum does not fit.
    pub open spec fn resumed(g: GameView, at: i64) -> GameView {
        match g.pause_time {
            Some(since) => GameView {
                paused: false,
                resume_time: Some(at),
                total_pause_duration: g.total_pause_duration.wrapping_add(at.wrapping_sub(since)),
                ..g
            },
            None => GameView { paused: false, ..g },
        }
    }

    /// Lets the game go on at the time `at`. Returns where the game stands then.
    pub fn resume_at(&mut self, at: i64) -> (r: Result<GameState, HyperTokenError>)
        ensures
            r is Ok,
            r->Ok_0@ == final(self)@,
            final(self)@ == Self::resumed(old(self)@, at),
    {
        match self.state.pause_time {
            Some(pause_time) => {
                let pause_duration = at.wrapping_sub(pause_time);
                self.state.total_pause_duration = self.state.total_pause_duration.wrapping_add(pause_duration);
                self.state.resume_time = Some(at);
            },
            None => {},
        }
        self.state.paused = false;
        Ok(self.snapshot())
    }

    /// Lets the game go on now. See `resume_at`.
    pub fn resume(&mut self) -> (r: Result<GameState, HyperTokenError>)
        ensures
            r is Ok,
            r->Ok_0@ == final(self)@,
            exists|at: i64| final(self)@ == Self::resumed(old(self)@, at),
    {
        self.resume_at(utc_now())
    }

    /// Sets the phase: to the one given, or to the one that follows by
    /// default. Returns where the game stands then.
    pub fn next_phase(&mut self, phase: Option<String>) -> (r: Result<GameState, HyperTokenError>)
        ensures
            r is Ok,
            r->Ok_0@ == final(self)@,
            final(self)@ == (GameView {
                phase: match phase {
                    Some(p) => p@,
                    None => phase_after(old(self)@.phase),
                },
                ..old(self)@
            }),
    {
        match phase {
            Some(new_phase) => {
                self.state.phase = new_phase;
            },
            None => {
                let play = "play".to_owned();
                let scoring = "scoring".to_owned();
                let end = "end".to_owned();
                let next = if self.state.phase == play {
                    scoring
                } else if self.state.phase == scoring {
                    end
                } else if self.state.phase == end {
                    end
                } else {
                    play
                };
                self.state.phase = next;
            },
        }
        Ok(self.snapshot())
    }

    /// Notes a property, given as JSON text. Fails, and changes nothing,
    /// where the text is no JSON. Returns where the game stands then.
    pub fn set_property(&mut self, key: &str, value_json: &str) -> (r: Result<GameState, HyperTokenError>)
        ensures
            match text_value(value_json@) {
                Some(value) => r is Ok && r->Ok_0@ == final(self)@ && final(self)@ == (GameView {
                    properties: with_property(old(self)@.properties, key@, value),
                    ..old(self)@
                }),
                None => r is Err && r->Err_0 is SerializationError && final(self)@ == old(self)@,
            },
    {
        let value = match decode_value(value_json) {
            Some(v) => v,
            None => {
                return Err(HyperTokenError::SerializationError("invalid JSON".to_owned()));
            },
        };
        let wanted = key.to_owned();
        let ghost ps = properties_view(self.state.properties@);
        let mut i: usize = 0;
        while i < self.state.properties.len()
            invariant
                0 <= i <= self.state.properties.len(),
                wanted@ == key@,
                text_value(value_json@) == Some(value),
                *self == *old(self),
                ps == properties_view(self.state.properties@),
                forall|j: int| 0 <= j < i ==> ps[j].0 != key@,
            decreases self.state.properties.len() - i,
        {
            proof {
                assert(ps[i as int].0 == self.state.properties[i as int].0@);
            }
            if self.state.properties[i].0 == wanted {
                proof {
                    lemma_property_place(ps, key@, i as int);
                }
                self.state.properties.remove(i);
                self.state.properties.insert(i, (wanted, value));
                proof {
                    assert(properties_view(self.state.properties@) =~= ps.update(i as int, (key@, value)));
                    assert(ps == old(self)@.properties);
                    assert(with_property(ps, key@, value) == ps.update(i as int, (key@, value)));
                    assert(text_value(value_json@) == Some(value));
                }
                return Ok(self.snapshot());
            }
            i = i + 1;
        }
        proof {
            lemma_property_place(ps, key@, i as int);
        }
        self.state.properties.push((wanted, value));
        proof {
            assert(properties_view(self.state.properties@) =~= ps.push((key@, value)));
        }
        Ok(self.snapshot())
    }

    /// A copy of where the game stands.
    pub fn get_state(&self) -> (r: Result<GameState, HyperTokenError>)
        ensures
            r is Ok,
            r->Ok_0@ == self@,
    {
        Ok(self.snapshot())
    }
}

impl Default for GameStateManager {
    fn default() -> (r: GameStateManager)
        ensures
            r@ == fresh_game(),
    {
        GameStateManager::new()
    }
}

} // verus!

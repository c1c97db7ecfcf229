use vstd::prelude::*;

use crate::audio_dir::{directory_matches, file_name, file_name_spec, MediaFile};

verus! {

/// A `PrevTrack` that arrives within this many milliseconds of the current
/// track's start goes back to the previous playlist entry; a later one
/// restarts the current entry.
pub const DOUBLE_TAP_MS: u64 = 333;

/// Commands for manipulating playback.  A `NowPlaying` request is answered
/// with a copy of the entry at the cursor.
#[derive(Clone, Copy, Debug, PartialEq, Eq, Structural)]
pub enum TransportCommand {
    NextTrack,
    PrevTrack,
    NowPlaying,
}

/// Where the playback loop stands: about to start the track at the cursor,
/// forwarding frames of a live track, or finished for good.
#[derive(Clone, Copy, Debug, PartialEq, Eq, Structural)]
pub enum Phase {
    Loading,
    Streaming,
    Stopped,
}

/// Plays a playlist and responds to user commands.
///
/// The transport owns the playlist and the cursor.  Its host drives it by
/// reporting what happened (a decoder was spawned or not, a frame was read,
/// the track ended, a command arrived) and performs the returned actions;
/// every decision about the cursor, the phase and the emitted actions is
/// made here.
#[derive(Debug)]
pub struct Transport {
    pub files: Vec<MediaFile>,
    pub cursor: usize,
    pub phase: Phase,
    pub track_start_ms: u64,
}

/// One thing the host must do on the transport's behalf.
#[derive(Debug)]
pub enum StepAction {
    /// Start a decode pipeline for this locator.
    Spawn(String),
    /// Emit a host event showing this display name.
    Print(String),
    /// Hand this frame to the audio sink.
    Forward(Vec<u8>),
    /// Answer a `NowPlaying` request with this entry.
    Reply(MediaFile),
    /// Emit the terminal host event: playback is over.
    Quit,
}

/// The observable content of a `StepAction`.
pub enum Action {
    Spawn(Seq<char>),
    Print(Seq<char>),
    Forward(Seq<u8>),
    Reply(Seq<char>),
    Quit,
}

impl View for StepAction {
    type V = Action;

    open spec fn view(&self) -> Action {
        match self {
            StepAction::Spawn(s) => Action::Spawn(s@),
            StepAction::Print(s) => Action::Print(s@),
            StepAction::Forward(f) => Action::Forward(f@),
            StepAction::Reply(f) => Action::Reply(f.location@),
            StepAction::Quit => Action::Quit,
        }
    }
}

/// What the playback loop observes: its own loop entry, the outcome of a
/// spawn, one non-empty read, the end of the current track (end of stream,
/// read error or decoder exit alike), or one polled command.
pub enum Event {
    Load,
    Spawned { ok: bool, now_ms: int },
    Read { data: Seq<u8> },
    TrackEnd,
    Cmd { cmd: TransportCommand, now_ms: int },
}

/// The transport as the contracts see it: the locators of the playlist,
/// the cursor, the phase, and when the running track started.
pub struct TransportModel {
    pub locations: Seq<Seq<char>>,
    pub cursor: int,
    pub phase: Phase,
    pub track_start_ms: int,
}

/// The cursor stays inside the playlist whenever a track is streaming.
pub open spec fn wf_model(m: TransportModel) -> bool {
    &&& 0 <= m.cursor
    &&& m.phase is Streaming ==> m.cursor < m.locations.len()
}

/// The entry the cursor points at.
pub open spec fn now_playing_of(m: TransportModel) -> Seq<char> {
    m.locations[m.cursor]
}

/// One move of the playback state machine: the next state and the actions
/// the host must perform, for a given state and event.  Events that cannot
/// occur in the given phase change nothing.
pub open spec fn step(m: TransportModel, e: Event) -> (TransportModel, Seq<Action>) {
    match e {
        Event::Load => {
            if m.phase is Loading {
                if m.cursor >= m.locations.len() {
                    (
                        TransportModel { phase: Phase::Stopped, ..m },
                        seq![Action::Quit],
                    )
                } else {
                    (m, seq![Action::Spawn(m.locations[m.cursor])])
                }
            } else {
                (m, Seq::empty())
            }
        },
        Event::Spawned { ok, now_ms } => {
            if m.phase is Loading && m.cursor < m.locations.len() {
                if ok {
                    (
                        TransportModel {
                            phase: Phase::Streaming,
                            track_start_ms: now_ms,
                            ..m
                        },
                        seq![Action::Print(file_name_spec(m.locations[m.cursor]))],
                    )
                } else {
                    (
                        TransportModel { phase: Phase::Stopped, ..m },
                        seq![Action::Quit],
                    )
                }
            } else {
                (m, Seq::empty())
            }
        },
        Event::Read { data } => {
            if m.phase is Streaming && data.len() > 0 {
                (m, seq![Action::Forward(data)])
            } else {
                (m, Seq::empty())
            }
        },
        Event::TrackEnd => {
            if m.phase is Streaming {
                (
                    TransportModel { cursor: m.cursor + 1, phase: Phase::Loading, ..m },
                    Seq::empty(),
                )
            } else {
                (m, Seq::empty())
            }
        },
        Event::Cmd { cmd, now_ms } => {
            if m.phase is Streaming {
                match cmd {
                    TransportCommand::NextTrack => {
                        (
                            TransportModel {
                                cursor: if m.cursor < m.locations.len() - 1 {
                                    m.cursor + 1
                                } else {
                                    m.cursor
                                },
                                phase: Phase::Loading,
                                ..m
                            },
                            Seq::empty(),
                        )
                    },
                    TransportCommand::PrevTrack => {
                        (
                            TransportModel {
                                cursor: if now_ms - m.track_start_ms < DOUBLE_TAP_MS && m.cursor
                                    > 0 {
                                    m.cursor - 1
                                } else {
                                    m.cursor
                                },
                                phase: Phase::Loading,
                                ..m
                            },
                            Seq::empty(),
                        )
                    },
                    TransportCommand::NowPlaying => {
                        (m, seq![Action::Reply(now_playing_of(m))])
                    },
                }
            } else {
                (m, Seq::empty())
            }
        },
    }
}

/// The machine run over a whole sequence of events, collecting every action
/// in order.
pub open spec fn run(m: TransportModel, evs: Seq<Event>) -> (TransportModel, Seq<Action>)
    decreases evs.len(),
{
    if evs.len() == 0 {
        (m, Seq::empty())
    } else {
        let first = step(m, evs[0]);
        let rest = run(first.0, evs.drop_first());
        (rest.0, first.1 + rest.1)
    }
}

/// How many `Quit` actions a run emitted.
pub open spec fn count_quits(acts: Seq<Action>) -> nat
    decreases acts.len(),
{
    if acts.len() == 0 {
        0
    } else {
        (if acts[0] is Quit {
            1nat
        } else {
            0nat
        }) + count_quits(acts.drop_first())
    }
}

/// Every byte a run handed to the sink, in delivery order.
pub open spec fn forwarded_bytes(acts: Seq<Action>) -> Seq<u8>
    decreases acts.len(),
{
    if acts.len() == 0 {
        Seq::empty()
    } else {
        (match acts[0] {
            Action::Forward(d) => d,
            _ => Seq::<u8>::empty(),
        }) + forwarded_bytes(acts.drop_first())
    }
}

/// The payload of the most recent `Print` action, or `prior` if the run
/// printed nothing.
pub open spec fn last_print(acts: Seq<Action>, prior: Option<Seq<char>>) -> Option<Seq<char>>
    decreases acts.len(),
{
    if acts.len() == 0 {
        prior
    } else {
        last_print(
            acts.drop_first(),
            match acts[0] {
                Action::Print(s) => Some(s),
                _ => prior,
            },
        )
    }
}

pub proof fn lemma_count_quits_concat(a: Seq<Action>, b: Seq<Action>)
    ensures
        count_quits(a + b) == count_quits(a) + count_quits(b),
    decreases a.len(),
{
    if a.len() == 0 {
        assert(a + b =~= b);
    } else {
        assert((a + b).drop_first() =~= a.drop_first() + b);
        lemma_count_quits_concat(a.drop_first(), b);
    }
}

pub proof fn lemma_forwarded_bytes_concat(a: Seq<Action>, b: Seq<Action>)
    ensures
        forwarded_bytes(a + b) == forwarded_bytes(a) + forwarded_bytes(b),
    decreases a.len(),
{
    if a.len() == 0 {
        assert(a + b =~= b);
        assert(forwarded_bytes(a) + forwarded_bytes(b) =~= forwarded_bytes(b));
    } else {
        assert((a + b).drop_first() =~= a.drop_first() + b);
        lemma_forwarded_bytes_concat(a.drop_first(), b);
        assert(forwarded_bytes(a + b) =~= forwarded_bytes(a) + forwarded_bytes(b));
    }
}

pub proof fn lemma_last_print_concat(a: Seq<Action>, b: Seq<Action>, prior: Option<Seq<char>>)
    ensures
        last_print(a + b, prior) == last_print(b, last_print(a, prior)),
    decreases a.len(),
{
    if a.len() == 0 {
        assert(a + b =~= b);
    } else {
        assert((a + b).drop_first() =~= a.drop_first() + b);
        let prior2 = match a[0] {
            Action::Print(s) => Some(s),
            _ => prior,
        };
        lemma_last_print_concat(a.drop_first(), b, prior2);
    }
}

/// A single move keeps the machine well formed: while a track is
/// streaming, the cursor stays inside the playlist.
pub proof fn lemma_step_wf(m: TransportModel, e: Event)
    requires
        wf_model(m),
    ensures
        wf_model(step(m, e).0),
        step(m, e).0.locations == m.locations,
{
}

/// Splitting a run: the machine processes `s1`, then `s2`, and the actions
/// are those of the first part followed by those of the second.
pub proof fn lemma_run_concat(m: TransportModel, s1: Seq<Event>, s2: Seq<Event>)
    ensures
        run(m, s1 + s2).0 == run(run(m, s1).0, s2).0,
        run(m, s1 + s2).1 == run(m, s1).1 + run(run(m, s1).0, s2).1,
    decreases s1.len(),
{
    if s1.len() == 0 {
        assert(s1 + s2 =~= s2);
        assert(run(m, s1).1 + run(run(m, s1).0, s2).1 =~= run(m, s2).1);
    } else {
        assert((s1 + s2).drop_first() =~= s1.drop_first() + s2);
        let m1 = step(m, s1[0]).0;
        lemma_run_concat(m1, s1.drop_first(), s2);
        assert(run(m, s1 + s2).1 =~= run(m, s1).1 + run(run(m, s1).0, s2).1);
    }
}

/// A run of a single event.
pub proof fn lemma_run_one(m: TransportModel, e: Event)
    ensures
        run(m, seq![e]).0 == step(m, e).0,
        run(m, seq![e]).1 == step(m, e).1,
{
    let evs = seq![e];
    assert(evs[0] == e);
    assert(evs.drop_first() =~= Seq::<Event>::empty());
    assert(run(step(m, e).0, Seq::<Event>::empty()).1 == Seq::<Action>::empty());
    assert(run(m, evs).1 =~= step(m, e).1);
}

/// Peeling the first event off a run.
pub proof fn lemma_run_cons(m: TransportModel, e: Event, evs: Seq<Event>)
    ensures
        run(m, seq![e] + evs).0 == run(step(m, e).0, evs).0,
        run(m, seq![e] + evs).1 == step(m, e).1 + run(step(m, e).0, evs).1,
{
    lemma_run_concat(m, seq![e], evs);
    lemma_run_one(m, e);
}

/// The counters on a single action.
pub proof fn lemma_acts_one(a: Action)
    ensures
        count_quits(seq![a]) == (if a is Quit {
            1nat
        } else {
            0nat
        }),
        forwarded_bytes(seq![a]) == (match a {
            Action::Forward(d) => d,
            _ => Seq::<u8>::empty(),
        }),
        forall|p: Option<Seq<char>>| #[trigger] last_print(seq![a], p) == (match a {
            Action::Print(s) => Some(s),
            _ => p,
        }),
{
    let s = seq![a];
    assert(s[0] == a);
    assert(s.drop_first() =~= Seq::<Action>::empty());
    assert(count_quits(s.drop_first()) == 0);
    assert(forwarded_bytes(s.drop_first()) == Seq::<u8>::empty());
    match a {
        Action::Forward(d) => {
            assert(forwarded_bytes(s) =~= d);
        },
        _ => {
            assert(forwarded_bytes(s) =~= Seq::<u8>::empty());
        },
    }
    assert forall|p: Option<Seq<char>>| #[trigger] last_print(s, p) == (match a {
        Action::Print(t) => Some(t),
        _ => p,
    }) by {
        let q = match a {
            Action::Print(t) => Some(t),
            _ => p,
        };
        assert(last_print(s.drop_first(), q) == q);
    }
}

/// The counters on the empty action sequence.
pub proof fn lemma_acts_empty()
    ensures
        count_quits(Seq::<Action>::empty()) == 0,
        forwarded_bytes(Seq::<Action>::empty()) == Seq::<u8>::empty(),
        forall|p: Option<Seq<char>>| #[trigger] last_print(Seq::<Action>::empty(), p) == p,
{
}

/// The events seen by a run whose every track ends at once: for each of
/// `k` remaining entries a loop entry, a successful spawn and an immediate
/// end of track, then the final loop entry that finds the playlist
/// exhausted.
pub open spec fn eof_events(k: nat) -> Seq<Event>
    decreases k,
{
    if k == 0 {
        seq![Event::Load]
    } else {
        seq![Event::Load] + (seq![Event::Spawned { ok: true, now_ms: 0 }] + (seq![
            Event::TrackEnd,
        ] + eof_events((k - 1) as nat)))
    }
}

/// A playlist whose every track ends immediately is walked from the cursor
/// to its end: the cursor comes to rest one past the last entry, the run
/// emits exactly one `Quit`, the `Quit` is the very last action, and no
/// frame is ever forwarded.
pub proof fn lemma_playlist_exhaustion(m: TransportModel)
    requires
        wf_model(m),
        m.phase is Loading,
        m.cursor <= m.locations.len(),
    ensures
        ({
            let r = run(m, eof_events((m.locations.len() - m.cursor) as nat));
            &&& r.0.phase is Stopped
            &&& r.0.cursor == m.locations.len()
            &&& count_quits(r.1) == 1
            &&& r.1.len() > 0 && r.1.last() == Action::Quit
            &&& forwarded_bytes(r.1) == Seq::<u8>::empty()
        }),
    decreases m.locations.len() - m.cursor,
{
    let k = (m.locations.len() - m.cursor) as nat;
    if k == 0 {
        assert(m.cursor == m.locations.len());
        let e = Event::Load;
        lemma_run_one(m, e);
        let r = run(m, eof_events(0));
        assert(r.1 == seq![Action::Quit]);
        lemma_acts_one(Action::Quit);
        assert(r.1.last() == Action::Quit);
    } else {
        let e1 = Event::Load;
        let e2 = Event::Spawned { ok: true, now_ms: 0 };
        let e3 = Event::TrackEnd;
        let rest = eof_events((k - 1) as nat);
        let m1 = step(m, e1).0;
        let a1 = step(m, e1).1;
        let m2 = step(m1, e2).0;
        let a2 = step(m1, e2).1;
        let m3 = step(m2, e3).0;
        let a3 = step(m2, e3).1;
        assert(m1 == m);
        assert(m3.phase is Loading);
        assert(m3.cursor == m.cursor + 1);
        assert(m3.locations == m.locations);
        lemma_run_cons(m, e1, seq![e2] + (seq![e3] + rest));
        lemma_run_cons(m1, e2, seq![e3] + rest);
        lemma_run_cons(m2, e3, rest);
        lemma_playlist_exhaustion(m3);
        let rr = run(m3, rest);
        let r = run(m, eof_events(k));
        assert(r.0 == rr.0);
        assert(r.1 == a1 + (a2 + (a3 + rr.1)));
        lemma_acts_one(a1[0]);
        lemma_acts_one(a2[0]);
        assert(a1 == seq![a1[0]]) by {
            assert(a1 =~= seq![a1[0]]);
        }
        assert(a2 == seq![a2[0]]) by {
            assert(a2 =~= seq![a2[0]]);
        }
        assert(a3 == Seq::<Action>::empty());
        lemma_acts_empty();
        lemma_count_quits_concat(a3, rr.1);
        lemma_count_quits_concat(a2, a3 + rr.1);
        lemma_count_quits_concat(a1, a2 + (a3 + rr.1));
        lemma_forwarded_bytes_concat(a3, rr.1);
        lemma_forwarded_bytes_concat(a2, a3 + rr.1);
        lemma_forwarded_bytes_concat(a1, a2 + (a3 + rr.1));
        assert(forwarded_bytes(r.1) =~= Seq::<u8>::empty());
        assert(rr.1.len() > 0);
        assert(r.1.last() == rr.1.last()) by {
            assert(r.1.len() == a1.len() + a2.len() + a3.len() + rr.1.len());
            assert(r.1[r.1.len() - 1] == rr.1[rr.1.len() - 1]);
        }
    }
}

/// `NextTrack` with entries still ahead moves the cursor to the next entry,
/// and what is playing afterwards is exactly that entry; on the last entry
/// the cursor stays put.
pub proof fn lemma_next_track(m: TransportModel, now_ms: int)
    requires
        wf_model(m),
        m.phase is Streaming,
    ensures
        ({
            let m2 = step(m, Event::Cmd { cmd: TransportCommand::NextTrack, now_ms }).0;
            &&& m.cursor < m.locations.len() - 1 ==> m2.cursor == m.cursor + 1
                && now_playing_of(m2) == m.locations[m.cursor + 1]
            &&& m.cursor == m.locations.len() - 1 ==> m2.cursor == m.cursor
        }),
{
}

/// `PrevTrack` within the double-tap window moves the cursor back one
/// entry, never below zero; after the window it leaves the cursor on the
/// current entry, so the track restarts.
pub proof fn lemma_prev_track(m: TransportModel, now_ms: int)
    requires
        wf_model(m),
        m.phase is Streaming,
        m.track_start_ms <= now_ms,
    ensures
        ({
            let m2 = step(m, Event::Cmd { cmd: TransportCommand::PrevTrack, now_ms }).0;
            &&& now_ms - m.track_start_ms < DOUBLE_TAP_MS ==> m2.cursor == (if m.cursor > 0 {
                m.cursor - 1
            } else {
                0
            })
            &&& now_ms - m.track_start_ms >= DOUBLE_TAP_MS ==> m2.cursor == m.cursor
        }),
{
}

/// Whatever events a run sees, while a track is streaming the payload of
/// the most recent `Print` is the display name of the entry at the cursor,
/// and a `NowPlaying` answered in that state replies with that same entry:
/// the printed name and the reply can never drift apart.
pub proof fn lemma_print_tracks_cursor(
    m: TransportModel,
    evs: Seq<Event>,
    prior: Option<Seq<char>>,
)
    requires
        wf_model(m),
        m.phase is Streaming ==> prior == Some(file_name_spec(now_playing_of(m))),
    ensures
        ({
            let r = run(m, evs);
            &&& wf_model(r.0)
            &&& r.0.phase is Streaming ==> last_print(r.1, prior) == Some(
                file_name_spec(now_playing_of(r.0)),
            )
        }),
    decreases evs.len(),
{
    if evs.len() == 0 {
    } else {
        let e = evs[0];
        let m1 = step(m, e).0;
        let a1 = step(m, e).1;
        lemma_step_wf(m, e);
        let prior1 = last_print(a1, prior);
        assert(m1.phase is Streaming ==> prior1 == Some(file_name_spec(now_playing_of(m1))))
            by {
            lemma_acts_empty();
            if a1.len() > 0 {
                assert(a1 =~= seq![a1[0]]);
                lemma_acts_one(a1[0]);
            }
        }
        lemma_print_tracks_cursor(m1, evs.drop_first(), prior1);
        let rr = run(m1, evs.drop_first());
        let r = run(m, evs);
        assert(r.0 == rr.0);
        assert(r.1 == a1 + rr.1);
        lemma_last_print_concat(a1, rr.1, prior);
    }
}

/// The events of one undisturbed track: each successful read in order,
/// then the end of the stream.
pub open spec fn read_events(reads: Seq<Seq<u8>>) -> Seq<Event>
    decreases reads.len(),
{
    if reads.len() == 0 {
        seq![Event::TrackEnd]
    } else {
        seq![Event::Read { data: reads[0] }] + read_events(reads.drop_first())
    }
}

/// Round trip: the bytes handed to the sink over one undisturbed track are
/// exactly the bytes the decode pipeline produced, in order, with nothing
/// dropped, duplicated or reordered; afterwards the cursor has advanced by
/// one and nothing has quit.
pub proof fn lemma_track_round_trip(m: TransportModel, reads: Seq<Seq<u8>>)
    requires
        wf_model(m),
        m.phase is Streaming,
        forall|i: int| 0 <= i < reads.len() ==> #[trigger] reads[i].len() > 0,
    ensures
        ({
            let r = run(m, read_events(reads));
            &&& forwarded_bytes(r.1) == reads.flatten()
            &&& r.0.cursor == m.cursor + 1
            &&& r.0.phase is Loading
            &&& r.0.locations == m.locations
            &&& count_quits(r.1) == 0
        }),
    decreases reads.len(),
{
    if reads.len() == 0 {
        let e = Event::TrackEnd;
        lemma_run_one(m, e);
        let r = run(m, read_events(reads));
        assert(r.1 == Seq::<Action>::empty());
        lemma_acts_empty();
        assert(reads.flatten() =~= Seq::<u8>::empty());
    } else {
        let e = Event::Read { data: reads[0] };
        let m1 = step(m, e).0;
        let a1 = step(m, e).1;
        assert(m1 == m);
        assert(a1 == seq![Action::Forward(reads[0])]);
        lemma_run_cons(m, e, read_events(reads.drop_first()));
        lemma_track_round_trip(m, reads.drop_first());
        let rr = run(m, read_events(reads.drop_first()));
        let r = run(m, read_events(reads));
        assert(r.0 == rr.0);
        assert(r.1 == a1 + rr.1);
        lemma_acts_one(a1[0]);
        lemma_forwarded_bytes_concat(a1, rr.1);
        lemma_count_quits_concat(a1, rr.1);
        assert(reads.flatten() == reads[0] + reads.drop_first().flatten());
        assert(forwarded_bytes(r.1) =~= reads.flatten());
    }
}

impl Transport {
    /// The transport as the contracts see it.
    pub open spec fn model(&self) -> TransportModel {
        TransportModel {
            locations: self.files@.map(|i: int, f: MediaFile| f.location@),
            cursor: self.cursor as int,
            phase: self.phase,
            track_start_ms: self.track_start_ms as int,
        }
    }

    pub open spec fn wf(&self) -> bool {
        wf_model(self.model())
    }

    /// A transport with an empty playlist, ready to be filled and run.
    pub fn new() -> (t: Transport)
        ensures
            t.wf(),
            t.files@.len() == 0,
            t.cursor == 0,
            t.phase == Phase::Loading,
    {
        Transport {
            files: Vec::new(),
            cursor: 0,
            phase: Phase::Loading,
            track_start_ms: 0,
        }
    }

    /// Add files to the end of the playlist.  Earlier entries and the
    /// cursor are untouched, so a running track is not disturbed.
    pub fn extend(&mut self, files: Vec<MediaFile>)
        ensures
            final(self).files@ == old(self).files@ + files@,
            final(self).cursor == old(self).cursor,
            final(self).phase == old(self).phase,
            final(self).track_start_ms == old(self).track_start_ms,
            old(self).wf() ==> final(self).wf(),
    {
        let mut rest = files;
        self.files.append(&mut rest);
    }

    /// Return the file at the cursor.
    pub fn now_playing(&self) -> (f: &MediaFile)
        requires
            self.cursor < self.files@.len(),
        ensures
            *f == self.files@[self.cursor as int],
            f.location@ == now_playing_of(self.model()),
    {
        &self.files[self.cursor]
    }

    /// Enter the outer loop for the entry at the cursor: ask the host to
    /// spawn its decoder, or stop for good when the playlist is exhausted.
    pub fn begin_track(&mut self) -> (a: StepAction)
        requires
            old(self).wf(),
            old(self).phase == Phase::Loading,
        ensures
            final(self).wf(),
            final(self).files@ == old(self).files@,
            final(self).model() == step(old(self).model(), Event::Load).0,
            seq![a@] == step(old(self).model(), Event::Load).1,
            a is Quit <==> old(self).cursor >= old(self).files@.len(),
    {
        if self.cursor >= self.files.len() {
            self.phase = Phase::Stopped;
            StepAction::Quit
        } else {
            StepAction::Spawn(self.files[self.cursor].location.clone())
        }
    }

    /// Record the outcome of the decoder spawn for the entry at the cursor.
    /// On success the track is streaming from `now_ms` on and its display
    /// name is printed; on failure playback stops for good.
    pub fn on_spawn(&mut self, ok: bool, now_ms: u64) -> (a: StepAction)
        requires
            old(self).wf(),
            old(self).phase == Phase::Loading,
            old(self).cursor < old(self).files@.len(),
        ensures
            final(self).wf(),
            final(self).files@ == old(self).files@,
            final(self).model() == step(
                old(self).model(),
                Event::Spawned { ok, now_ms: now_ms as int },
            ).0,
            seq![a@] == step(old(self).model(), Event::Spawned { ok, now_ms: now_ms as int }).1,
            ok ==> final(self).phase == Phase::Streaming && final(self).track_start_ms == now_ms,
            !ok ==> a is Quit && final(self).phase == Phase::Stopped,
    {
        if ok {
            self.phase = Phase::Streaming;
            self.track_start_ms = now_ms;
            let name = file_name(self.files[self.cursor].location.as_str());
            StepAction::Print(name)
        } else {
            self.phase = Phase::Stopped;
            StepAction::Quit
        }
    }

    /// Forward one successful non-empty read: the first `len` bytes of the
    /// read buffer become the frame handed to the sink, unchanged.
    pub fn on_frame(&self, buf: &[u8], len: usize) -> (frame: Vec<u8>)
        requires
            self.wf(),
            self.phase == Phase::Streaming,
            0 < len <= buf@.len(),
        ensures
            frame@ == buf@.subrange(0, len as int),
            seq![Action::Forward(frame@)] == step(
                self.model(),
                Event::Read { data: buf@.subrange(0, len as int) },
            ).1,
    {
        crate::audio::frame_chunk(buf, len)
    }

    /// The current track is over: end of stream, a read error and a failed
    /// decoder exit are treated alike, and the cursor advances by one.
    pub fn on_track_end(&mut self)
        requires
            old(self).wf(),
            old(self).phase == Phase::Streaming,
        ensures
            final(self).wf(),
            final(self).files@ == old(self).files@,
            final(self).model() == step(old(self).model(), Event::TrackEnd).0,
            final(self).cursor == old(self).cursor + 1,
            final(self).phase == Phase::Loading,
    {
        proof {
            assert(old(self).model().cursor < old(self).model().locations.len());
            assert(old(self).model().locations.len() == old(self).files@.len());
            assert(old(self).cursor < old(self).files.len());
        }
        self.cursor = self.cursor + 1;
        self.phase = Phase::Loading;
    }

    /// Consume one polled command while a track is streaming.
    ///
    /// `NextTrack` advances the cursor unless it is already on the last
    /// entry; `PrevTrack` within `DOUBLE_TAP_MS` of the track start moves
    /// it back one entry (never below zero), later it leaves the cursor on
    /// the current entry so the track restarts; both abandon the running
    /// track and hand control back to the outer loop.  `NowPlaying` answers
    /// with a copy of the entry at the cursor and streaming goes on.
    pub fn on_command(&mut self, cmd: &TransportCommand, now_ms: u64) -> (a: Option<
        StepAction,
    >)
        requires
            old(self).wf(),
            old(self).phase == Phase::Streaming,
            old(self).track_start_ms <= now_ms,
        ensures
            final(self).wf(),
            final(self).files@ == old(self).files@,
            final(self).model() == step(
                old(self).model(),
                Event::Cmd { cmd: *cmd, now_ms: now_ms as int },
            ).0,
            (match a {
                Some(act) => seq![act@],
                None => Seq::empty(),
            }) == step(old(self).model(), Event::Cmd { cmd: *cmd, now_ms: now_ms as int }).1,
            cmd is NowPlaying <==> a is Some,
            cmd is NowPlaying ==> final(self).phase == Phase::Streaming,
            // The answer is a copy of the entry at the cursor: every
            // catalogue field and the directory reference carry over.
            cmd is NowPlaying ==> ({
                let cur = old(self).files@[old(self).cursor as int];
                &&& a matches Some(act)
                &&& act matches StepAction::Reply(f)
                &&& f.id == cur.id
                &&& f.file_size == cur.file_size
                &&& f.media_type@ == cur.media_type@
                &&& f.location@ == cur.location@
                &&& directory_matches(cur.directory, f.directory)
            }),
            !(cmd is NowPlaying) ==> final(self).phase == Phase::Loading,
    {
        match cmd {
            TransportCommand::NextTrack => {
                if self.cursor < self.files.len() - 1 {
                    self.cursor = self.cursor + 1;
                }
                self.phase = Phase::Loading;
                None
            },
            TransportCommand::PrevTrack => {
                if now_ms - self.track_start_ms < DOUBLE_TAP_MS && self.cursor > 0 {
                    self.cursor = self.cursor - 1;
                }
                self.phase = Phase::Loading;
                None
            },
            TransportCommand::NowPlaying => {
                let f = self.files[self.cursor].duplicate();
                Some(StepAction::Reply(f))
            },
        }
    }
}

} // verus!

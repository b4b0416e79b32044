//! The game loop as a state machine. One game walks round-robin questioning
//! (whoever answers asks next), then a vote, then the reveal. The outside work
//! (model generations, waiting for the human, the pause before the reveal, and
//! publishing snapshots and activity lines) is requested by `Step`s; the
//! caller performs it and hands the outcome back as an `Event`.
//!
//! A guess ends the game at once: right, the uninvited side wins; wrong, the
//! invited side wins.
use vstd::prelude::*;
use vstd::string::StringExecFns;
use crate::agents::{
    answer_prompt, answer_user_spec, ask_prompt, ask_user_spec, clean_line, parse_vote,
    system_spec, try_parse_uninvited_turn, turn_user_spec, uninvited_turn_prompt, vote_prompt,
    vote_user_spec, UninvitedAction,
};
use crate::game::{
    has_uninvited, is_view_of, votes_in_range, Awaiting, GameConfig, GameMode, GameSession,
    GameView, PendingTurn, Phase, Player, Role, Side, Turn, HUMAN_ID,
};
use crate::random::pick_one;
use crate::scenarios::Scenario;
use crate::text::{chars_of, trim, trim_ws};

verus! {

broadcast use vstd::seq_lib::lemma_seq_contains_after_push;

/// Input the human submits, delivered to the game loop.
pub enum HumanInput {
    Question { target: u8, text: String },
    Answer { text: String },
    Vote { target: u8 },
    GuessLocation { text: String },
    /// Bartender mode only: end the eavesdropping early and open the vote.
    CallVote,
}

/// One line per AI action, for the scene (and, when enabled, its reasoning).
pub struct AgentActivity {
    pub player_id: u8,
    /// "question", "answer", "vote", "thinking" or "guess".
    pub kind: &'static str,
    pub text: String,
    pub target_id: Option<u8>,
}

/// The human is forced back into the chain after this many turns without
/// asking or answering.
pub const HUMAN_IDLE_LIMIT: usize = 2;

/// The tokens a generation may use.
pub open spec fn gen_tokens_spec(thinking_enabled: bool) -> usize {
    if thinking_enabled {
        1024
    } else {
        128
    }
}

/// Tokens a generation may use: reasoning models spend most of them thinking.
pub fn gen_tokens(thinking_enabled: bool) -> (r: usize)
    ensures
        r == gen_tokens_spec(thinking_enabled),
{
    if thinking_enabled {
        1024
    } else {
        128
    }
}

// -- session invariants --------------------------------------------------------

/// A session as the game loop keeps it: three to nine seats, seat `i` holding
/// player id `i`, only seat 0 human, an uninvited player among them, and a
/// transcript naming existing seats.
pub open spec fn session_wf(s: GameSession) -> bool {
    &&& 3 <= s.players@.len() <= 9
    &&& forall|i: int| 0 <= i < s.players@.len() ==> (#[trigger] s.players@[i]).id == i
    &&& forall|i: int| 0 <= i < s.players@.len() ==> (#[trigger] s.players@[i]).is_human == (i
        == 0)
    &&& has_uninvited(s.players@)
    &&& s.turns_in_range()
}

/// The seats of `b` are those of `a`: same players, only their votes may differ.
pub open spec fn same_seats(a: Seq<Player>, b: Seq<Player>) -> bool {
    &&& a.len() == b.len()
    &&& forall|i: int|
        #![trigger b[i]]
        0 <= i < a.len() ==> b[i].id == a[i].id && b[i].name == a[i].name && b[i].is_human
            == a[i].is_human && b[i].role == a[i].role
}

/// The order in which the phases follow each other.
pub open spec fn phase_rank(p: Phase) -> int {
    match p {
        Phase::Questioning => 0,
        Phase::Voting => 1,
        Phase::Reveal => 2,
    }
}

/// `b` is a later state of the same game as `a`: the same party, seats,
/// mode and number of rounds; the transcript only grew; the phase did not go
/// back; a winner once decided stays.
pub open spec fn same_game_later(a: GameSession, b: GameSession) -> bool {
    &&& b.scenario == a.scenario
    &&& same_seats(a.players@, b.players@)
    &&& b.mode == a.mode
    &&& b.rounds_total == a.rounds_total
    &&& a.transcript@.len() <= b.transcript@.len()
    &&& b.transcript@.take(a.transcript@.len() as int) == a.transcript@
    &&& phase_rank(a.phase) <= phase_rank(b.phase)
    &&& (a.winner is Some ==> b.winner == a.winner)
}

// -- decisions -------------------------------------------------------------------

/// The players `asker` may question: everyone but the asker, and never the
/// human in Bartender mode.
pub open spec fn is_candidate(s: GameSession, asker: u8, bartender: bool, id: u8) -> bool {
    &&& exists|i: int| 0 <= i < s.players@.len() && (#[trigger] s.players@[i]).id == id
    &&& id != asker
    &&& !(bartender && id == HUMAN_ID)
}

/// Picks someone for `asker` to question, at random among the candidates,
/// avoiding `exclude` (who just asked `asker`) unless no one else is left.
pub fn pick_target(s: &GameSession, asker: u8, exclude: Option<u8>, bartender: bool) -> (r: u8)
    requires
        exists|id: u8| is_candidate(*s, asker, bartender, id),
    ensures
        is_candidate(*s, asker, bartender, r),
        exclude matches Some(ex) ==> ((exists|id: u8|
            is_candidate(*s, asker, bartender, id) && id != ex) ==> r != ex),
{
    let n = s.players.len();
    let mut cands: Vec<u8> = Vec::new();
    let mut i: usize = 0;
    while i < n
        invariant
            0 <= i <= n,
            n == s.players@.len(),
            forall|k: int| 0 <= k < cands@.len() ==> is_candidate(*s, asker, bartender, #[trigger] cands@[k]),
            forall|j: int|
                0 <= j < i && is_candidate(*s, asker, bartender, (#[trigger] s.players@[j]).id)
                    ==> cands@.contains(s.players@[j].id),
        decreases n - i,
    {
        let id = s.players[i].id;
        if id != asker && !(bartender && id == HUMAN_ID) {
            assert(is_candidate(*s, asker, bartender, id));
            cands.push(id);
        }
        i += 1;
    }
    proof {
        let w = choose|id: u8| is_candidate(*s, asker, bartender, id);
        let j = choose|j: int| 0 <= j < s.players@.len() && (#[trigger] s.players@[j]).id == w;
        assert(cands@.contains(s.players@[j].id));
    }
    let mut chosen = cands;
    if let Some(ex) = exclude {
        let mut filtered: Vec<u8> = Vec::new();
        let m = chosen.len();
        let mut k: usize = 0;
        while k < m
            invariant
                0 <= k <= m,
                m == chosen@.len(),
                forall|a: int| 0 <= a < filtered@.len() ==> #[trigger] filtered@[a] != ex
                    && chosen@.contains(filtered@[a]),
                forall|a: int| 0 <= a < k && chosen@[a] != ex ==> filtered@.contains(#[trigger] chosen@[a]),
            decreases m - k,
        {
            if chosen[k] != ex {
                filtered.push(chosen[k]);
            }
            k += 1;
        }
        if filtered.len() > 0 {
            proof {
                assert forall|a: int| 0 <= a < filtered@.len() implies is_candidate(
                    *s,
                    asker,
                    bartender,
                    #[trigger] filtered@[a],
                ) by {
                    let b = choose|b: int| 0 <= b < chosen@.len() && chosen@[b] == filtered@[a];
                }
            }
            chosen = filtered;
        } else {
            proof {
                assert forall|id: u8| is_candidate(*s, asker, bartender, id) implies id == ex by {
                    let j = choose|j: int| 0 <= j < s.players@.len() && (#[trigger] s.players@[j]).id == id;
                    if id != ex {
                        assert(chosen@.contains(id));
                        let b = choose|b: int| 0 <= b < chosen@.len() && chosen@[b] == id;
                        assert(filtered@.contains(chosen@[b]));
                    }
                }
            }
        }
    }
    match pick_one(&chosen) {
        Some(id) => id,
        None => {
            assert(false);
            HUMAN_ID
        },
    }
}

/// The first asker, at random; in Bartender mode only an AI guest may open.
pub fn pick_first_asker(s: &GameSession, bartender: bool) -> (r: u8)
    ensures
        (exists|i: int|
            0 <= i < s.players@.len() && !(bartender && (#[trigger] s.players@[i]).id
                == HUMAN_ID)) ==> exists|i: int|
            0 <= i < s.players@.len() && (#[trigger] s.players@[i]).id == r && !(bartender && r
                == HUMAN_ID),
        (forall|i: int|
            0 <= i < s.players@.len() ==> bartender && (#[trigger] s.players@[i]).id == HUMAN_ID)
            ==> r == HUMAN_ID,
{
    let n = s.players.len();
    let mut ids: Vec<u8> = Vec::new();
    let mut i: usize = 0;
    while i < n
        invariant
            0 <= i <= n,
            n == s.players@.len(),
            forall|k: int|
                0 <= k < ids@.len() ==> exists|j: int|
                    0 <= j < n && (#[trigger] s.players@[j]).id == #[trigger] ids@[k] && !(
                    bartender && ids@[k] == HUMAN_ID),
            forall|j: int|
                0 <= j < i && !(bartender && (#[trigger] s.players@[j]).id == HUMAN_ID)
                    ==> ids@.contains(s.players@[j].id),
        decreases n - i,
    {
        let id = s.players[i].id;
        if !(bartender && id == HUMAN_ID) {
            ids.push(id);
        }
        i += 1;
    }
    match pick_one(&ids) {
        Some(id) => {
            proof {
                let k = choose|k: int| 0 <= k < ids@.len() && ids@[k] == id;
            }
            id
        },
        None => {
            proof {
                assert forall|j: int|
                    0 <= j < s.players@.len() implies bartender && (#[trigger] s.players@[j]).id
                    == HUMAN_ID by {
                    if !(bartender && s.players@[j].id == HUMAN_ID) {
                        assert(ids@.contains(s.players@[j].id));
                    }
                }
            }
            HUMAN_ID
        },
    }
}

/// Applies a location guess and ends the game: a correct guess wins for the
/// uninvited side, a wrong one for the invited side; nothing is awaited any
/// more. Publishes one snapshot, of the finished game.
pub fn finish_with_guess(s: &mut GameSession, fx: &mut Vec<Effect>, player: u8, guess: String)
    requires
        old(s).players@.len() > 0,
        has_uninvited(old(s).players@),
    ensures
        final(fx)@.len() == old(fx)@.len() + 1,
        final(fx)@.take(old(fx)@.len() as int) == old(fx)@,
        ends_with_view(final(fx)@, *final(s)),
        published(old(fx)@, final(fx)@, *final(s), *final(s)),
        ({
            let correct = old(s).scenario.spec_guess_matches(guess@);
            *final(s) == (GameSession {
                guess: Some(crate::game::LocationGuess { player, guess, correct }),
                winner: Some(
                    if correct {
                        Side::Uninvited
                    } else {
                        Side::Invited
                    },
                ),
                phase: Phase::Reveal,
                awaiting: None,
                pending: None,
                thinking: None,
                ..*old(s)
            })
        }),
{
    let correct = s.record_guess(player, guess);
    if !correct {
        s.winner = Some(Side::Invited);
        s.phase = Phase::Reveal;
    }
    s.awaiting = None;
    s.pending = None;
    s.thinking = None;
    emit_state(fx, s);
}

/// The target of a human's question: the one they named when it is another,
/// existing player, else the one the loop picked.
pub open spec fn human_target(picked: u8, asker: u8, named: u8, seats: int) -> u8 {
    if named != asker && named < seats {
        named
    } else {
        picked
    }
}

// -- the state machine ---------------------------------------------------------

/// Where the game loop waits.
#[derive(Clone, Copy, PartialEq, Eq, Debug, Structural)]
pub enum Stage {
    /// Not started yet.
    Starting,
    /// Bartender mode, top of a question: checking whether the human called the vote.
    PollCallVote,
    /// The human asks: waiting for their question (or a guess).
    AwaitQuestion,
    /// The uninvited AI's turn is being generated.
    AwaitTurnReply,
    /// An invited AI's question is being generated.
    AwaitAskReply,
    /// The human answers: waiting for their answer (or a guess).
    AwaitAnswer,
    /// An AI's answer is being generated.
    AwaitAnswerReply,
    /// Before an AI vote: checking whether the human's vote (or a guess) arrived.
    PollVote,
    /// An AI's vote is being generated.
    AwaitVoteReply,
    /// Waiting for the human's vote (or a guess).
    AwaitVote,
    /// Everyone has voted: the pause before the reveal.
    Pausing,
    /// The game is over.
    Finished,
}

/// Something to publish, in order.
pub enum Effect {
    /// A "game-state" snapshot.
    EmitState(GameView),
    /// An "agent-activity" line.
    EmitActivity(AgentActivity),
}

/// The outside work the loop waits on next.
pub enum Request {
    /// Generate a reply with the model.
    Generate { system: String, user: String, max_tokens: usize },
    /// Wait for the human's next input.
    WaitForHuman,
    /// Take the human's next input if one is already there, without waiting.
    PollHuman,
    /// Pause (one second) before the reveal.
    Pause,
    /// The game is over: nothing more to do.
    Stop,
}

/// What came of a request.
pub enum Event {
    /// The model replied, with its reasoning when thinking is on.
    Generated { text: String, thinking: Option<String> },
    /// The generation failed.
    GenerationFailed,
    /// The human's input.
    Human(HumanInput),
    /// Waiting for the human ended: the input channel is closed.
    Closed,
    /// Polling found no input.
    Nothing,
    /// The pause is over.
    Resumed,
}

/// What the caller does next: publish the effects in order, then perform the request.
pub struct Step {
    pub effects: Vec<Effect>,
    pub request: Request,
}

/// The loop's own state beside the session.
pub struct GameLoop {
    pub bartender: bool,
    /// Publish the models' reasoning as activity lines.
    pub debug_thinking: bool,
    pub max_tokens: usize,
    /// Players taking part in the questioning.
    pub qa: usize,
    pub total_questions: usize,
    /// The current question, counted from 0.
    pub q: usize,
    pub asker_id: u8,
    pub target_id: u8,
    pub prev_asker: Option<u8>,
    /// Turns since the human last asked or answered.
    pub human_idle: usize,
    /// The question in flight.
    pub question: String,
    /// The AI players, in seat order, who vote.
    pub ai_voters: Vec<u8>,
    pub voter_index: usize,
    pub human_voted: bool,
    pub stage: Stage,
}

/// The human asks or answers in this turn.
pub open spec fn involves_human(t: Turn) -> bool {
    t.asker == HUMAN_ID || t.target == HUMAN_ID
}

/// Of every three turns in a row, the human asks or answers in at least one.
pub open spec fn human_kept_in(ts: Seq<Turn>) -> bool {
    forall|i: int|
        0 <= i && i + 2 < ts.len() ==> involves_human(#[trigger] ts[i]) || involves_human(
            ts[i + 1],
        ) || involves_human(ts[i + 2])
}

/// The last `idle` turns leave the human out, and the turn before them, if
/// there is one, does not.
pub open spec fn idle_tail(ts: Seq<Turn>, idle: int) -> bool {
    &&& 0 <= idle <= ts.len()
    &&& forall|j: int| ts.len() - idle <= j < ts.len() ==> !involves_human(#[trigger] ts[j])
    &&& idle < ts.len() ==> involves_human(ts[ts.len() - 1 - idle])
}

/// Where the vote goes on, given that `voter_index` of the `voters` AI voters
/// have voted and whether the human has: the next AI vote (checking first for
/// the human's vote while it is missing), else the human's vote, else the pause.
pub open spec fn next_vote_stage(voter_index: int, voters: int, human_voted: bool) -> Stage {
    if voter_index >= voters {
        if human_voted {
            Stage::Pausing
        } else {
            Stage::AwaitVote
        }
    } else if human_voted {
        Stage::AwaitVoteReply
    } else {
        Stage::PollVote
    }
}

/// The AI voters of a game with `n` seats: every seat but the human's, in order.
pub open spec fn ai_seats(n: int) -> Seq<u8> {
    Seq::new((n - 1) as nat, |k: int| (k + 1) as u8)
}

/// An AI asker does not put its question straight back to the player who just
/// asked it, unless the human had to be brought back in or no one else could
/// be asked.
pub open spec fn no_ask_back(lp: GameLoop, s: GameSession) -> bool {
    (lp.asker_id != HUMAN_ID && !(!lp.bartender && lp.human_idle >= HUMAN_IDLE_LIMIT) && (
    lp.prev_asker matches Some(ex) && exists|id: u8|
        is_candidate(s, lp.asker_id, lp.bartender, id) && id != ex)) ==> Some(lp.target_id)
        != lp.prev_asker
}

/// The stage asks for this request.
pub open spec fn request_fits(stage: Stage, req: Request) -> bool {
    match req {
        Request::Generate { .. } => stage == Stage::AwaitTurnReply || stage == Stage::AwaitAskReply
            || stage == Stage::AwaitAnswerReply || stage == Stage::AwaitVoteReply,
        Request::WaitForHuman => stage == Stage::AwaitQuestion || stage == Stage::AwaitAnswer
            || stage == Stage::AwaitVote,
        Request::PollHuman => stage == Stage::PollCallVote || stage == Stage::PollVote,
        Request::Pause => stage == Stage::Pausing,
        Request::Stop => stage == Stage::Finished || stage == Stage::Starting,
    }
}

/// A stage of the questioning.
pub open spec fn questioning_stage(stage: Stage) -> bool {
    stage == Stage::PollCallVote || stage == Stage::AwaitQuestion || stage == Stage::AwaitTurnReply
        || stage == Stage::AwaitAskReply || stage == Stage::AwaitAnswer || stage
        == Stage::AwaitAnswerReply
}

/// A stage of the vote.
pub open spec fn voting_stage(stage: Stage) -> bool {
    stage == Stage::PollVote || stage == Stage::AwaitVoteReply || stage == Stage::AwaitVote || stage
        == Stage::Pausing
}

/// The kinds of activity line.
pub open spec fn activity_kind(kind: Seq<char>) -> bool {
    kind == "question"@ || kind == "answer"@ || kind == "vote"@ || kind == "thinking"@ || kind
        == "guess"@
}

/// An activity line of one of `n` seats, about another of them or about no one.
pub open spec fn activity_fits(act: AgentActivity, n: int) -> bool {
    &&& act.player_id < n
    &&& (act.target_id matches Some(t) ==> t < n)
    &&& activity_kind(act.kind@)
}

/// `after` extends `before`; each snapshot among the added effects is the
/// view of a session of the same game, between `a` and `b`, and a snapshot of
/// the reveal is the last effect; each activity line is by and about seats of
/// that game.
pub open spec fn published(before: Seq<Effect>, after: Seq<Effect>, a: GameSession, b: GameSession) -> bool {
    &&& before.len() <= after.len()
    &&& after.take(before.len() as int) == before
    &&& forall|k: int|
        #![trigger after[k]]
        before.len() <= k < after.len() ==> match after[k] {
            Effect::EmitState(v) => exists|t: GameSession|
                is_view_of(v, t) && same_game_later(a, t) && same_game_later(t, b) && (t.phase
                    == Phase::Reveal ==> k == after.len() - 1),
            Effect::EmitActivity(act) => activity_fits(act, b.players@.len() as int),
        }
}

/// `e` is the activity line of `player`, of the given kind and text, about `target`.
pub open spec fn is_activity(e: Effect, player: u8, kind: Seq<char>, text: Seq<char>, target: Option<u8>) -> bool {
    e matches Effect::EmitActivity(a) && a.player_id == player && a.kind@ == kind && a.text@ == text
        && a.target_id == target
}

/// Some effect of `fx` is that activity line.
pub open spec fn has_activity(fx: Seq<Effect>, player: u8, kind: Seq<char>, text: Seq<char>, target: Option<u8>) -> bool {
    exists|k: int| 0 <= k < fx.len() && is_activity(#[trigger] fx[k], player, kind, text, target)
}

/// The last effect of `fx` is the snapshot of `s`.
pub open spec fn ends_with_view(fx: Seq<Effect>, s: GameSession) -> bool {
    fx.len() > 0 && (fx.last() matches Effect::EmitState(v) && is_view_of(v, s))
}

/// A session whose snapshot `emit_state` can publish.
pub open spec fn emits_view(s: GameSession) -> bool {
    &&& s.players@.len() > 0
    &&& (s.phase == Phase::Reveal ==> has_uninvited(s.players@))
}

/// The (system, user) prompt the model is given in the loop's stage: the
/// uninvited asker's turn, an invited asker's question, the target's answer to
/// the question in flight, or the vote of the next AI voter.
pub open spec fn stage_prompt(lp: GameLoop, s: GameSession) -> (Seq<char>, Seq<char>) {
    let asker = s.players@[lp.asker_id as int];
    let target = s.players@[lp.target_id as int];
    match lp.stage {
        Stage::AwaitTurnReply => (system_spec(s, asker), turn_user_spec(s, lp.target_id)),
        Stage::AwaitAskReply => (system_spec(s, asker), ask_user_spec(s, lp.target_id)),
        Stage::AwaitAnswerReply => (
            system_spec(s, target),
            answer_user_spec(s, target, lp.asker_id, lp.question@),
        ),
        _ => {
            let voter = s.players@[lp.ai_voters@[lp.voter_index as int] as int];
            (system_spec(s, voter), vote_user_spec(s, voter))
        },
    }
}

/// A generation request carries the prompt of the loop's stage and its token budget.
pub open spec fn generate_fits(lp: GameLoop, s: GameSession, req: Request) -> bool {
    req matches Request::Generate { system, user, max_tokens } ==> max_tokens == lp.max_tokens
        && system@ == stage_prompt(lp, s).0 && user@ == stage_prompt(lp, s).1
}

impl GameLoop {
    /// The loop state is consistent with the session it drives.
    pub open spec fn wf(&self, s: GameSession) -> bool {
        &&& self.wf_core(s)
        &&& (questioning_stage(self.stage) ==> self.q < self.total_questions && s.phase
            == Phase::Questioning)
        &&& (voting_stage(self.stage) ==> s.phase == Phase::Voting)
        &&& (self.stage == Stage::AwaitVoteReply ==> self.voter_index < self.ai_voters@.len())
        &&& (self.stage == Stage::PollVote ==> self.voter_index < self.ai_voters@.len())
        &&& (self.stage == Stage::PollVote ==> !self.human_voted)
        &&& (self.stage == Stage::AwaitTurnReply || self.stage == Stage::AwaitAskReply
            || self.stage == Stage::AwaitAnswer || self.stage == Stage::AwaitAnswerReply
            ==> no_ask_back(*self, s))
        &&& (self.bartender && (self.stage == Stage::AwaitTurnReply || self.stage
            == Stage::AwaitAskReply || self.stage == Stage::AwaitAnswerReply) ==> self.target_id
            != HUMAN_ID)
        &&& (self.bartender ==> self.stage != Stage::AwaitQuestion && self.stage
            != Stage::AwaitAnswer)
        &&& (self.stage != Stage::Finished ==> s.phase != Phase::Reveal)
        &&& (self.stage == Stage::AwaitQuestion ==> self.asker_id == HUMAN_ID)
        &&& (self.stage == Stage::AwaitQuestion || self.stage == Stage::AwaitTurnReply
            || self.stage == Stage::AwaitAskReply || self.stage == Stage::AwaitAnswer
            || self.stage == Stage::AwaitAnswerReply ==> self.target_id != self.asker_id)
        &&& (!self.bartender && self.asker_id != HUMAN_ID && self.human_idle >= HUMAN_IDLE_LIMIT
            && (self.stage == Stage::AwaitTurnReply || self.stage == Stage::AwaitAskReply
            || self.stage == Stage::AwaitAnswer || self.stage == Stage::AwaitAnswerReply)
            ==> self.target_id == HUMAN_ID)
    }

    /// The counters and seats of the loop are consistent with the session.
    pub open spec fn wf_core(&self, s: GameSession) -> bool {
        let n = s.players@.len() as int;
        &&& session_wf(s)
        &&& (s.winner is Some ==> s.phase == Phase::Reveal)
        &&& self.bartender == s.spec_bartender_mode()
        &&& self.qa == (if self.bartender {
            n - 1
        } else {
            n
        })
        &&& self.total_questions == s.rounds_total * self.qa
        &&& self.q <= self.total_questions
        &&& self.asker_id < n
        &&& self.target_id < n
        &&& (forall|k: int| 0 <= k < self.ai_voters@.len() ==> #[trigger] self.ai_voters@[k] < n)
        &&& self.voter_index <= self.ai_voters@.len()
        &&& self.human_idle <= self.q
        &&& (self.bartender ==> self.asker_id != HUMAN_ID)
        &&& s.transcript@.len() <= self.q
        &&& forall|k: int|
            0 <= k < s.transcript@.len() ==> (#[trigger] s.transcript@[k]).asker
                != s.transcript@[k].target
        &&& (self.bartender ==> forall|k: int|
            0 <= k < s.transcript@.len() ==> !involves_human(#[trigger] s.transcript@[k]))
        &&& (!self.bartender ==> self.human_idle <= HUMAN_IDLE_LIMIT && idle_tail(
            s.transcript@,
            self.human_idle as int,
        ) && human_kept_in(s.transcript@))
    }

    /// The loop moved on from `self`/`s` to `next`/`t` without growing the transcript.
    pub open spec fn moved_to(&self, s: GameSession, next: GameLoop, t: GameSession) -> bool {
        &&& next.wf(t)
        &&& same_game_later(s, t)
        &&& self.q <= next.q
        &&& next.total_questions == self.total_questions
        &&& next.qa == self.qa
        &&& next.bartender == self.bartender
        &&& next.debug_thinking == self.debug_thinking
        &&& next.max_tokens == self.max_tokens
    }
}

fn emit_state(fx: &mut Vec<Effect>, s: &GameSession)
    requires
        emits_view(*s),
    ensures
        final(fx)@.len() == old(fx)@.len() + 1,
        final(fx)@.take(old(fx)@.len() as int) == old(fx)@,
        ends_with_view(final(fx)@, *s),
        published(old(fx)@, final(fx)@, *s, *s),
{
    let v = s.view();
    fx.push(Effect::EmitState(v));
    proof {
        lemma_same_game_later_refl(*s);
        assert(fx@.take(old(fx)@.len() as int) =~= old(fx)@);
        assert(fx@[old(fx)@.len() as int] == Effect::EmitState(v));
    }
}

fn emit_activity(fx: &mut Vec<Effect>, player_id: u8, kind: &'static str, text: String, target_id: Option<u8>)
    requires
        activity_kind(kind@),
    ensures
        final(fx)@.len() == old(fx)@.len() + 1,
        final(fx)@.take(old(fx)@.len() as int) == old(fx)@,
        is_activity(final(fx)@.last(), player_id, kind@, text@, target_id),
        forall|a: GameSession, b: GameSession|
            player_id < b.players@.len() && (target_id matches Some(t) ==> t < b.players@.len())
                ==> #[trigger] published(old(fx)@, final(fx)@, a, b),
{
    fx.push(Effect::EmitActivity(AgentActivity { player_id, kind, text, target_id }));
    assert(fx@.take(old(fx)@.len() as int) =~= old(fx)@);
}

/// Sets the vote of seat `i`.
fn set_vote(s: &mut GameSession, i: usize, target: u8)
    requires
        i < old(s).players@.len(),
    ensures
        final(s).players@ == old(s).players@.update(
            i as int,
            Player { vote_for: Some(target), ..old(s).players@[i as int] },
        ),
        *final(s) == (GameSession { players: final(s).players, ..*old(s) }),
{
    let mut p = s.players[i].clone();
    p.vote_for = Some(target);
    s.players.set(i, p);
}

proof fn lemma_set_vote_keeps(s: GameSession, t: GameSession, i: int, target: u8)
    requires
        session_wf(s),
        0 <= i < s.players@.len(),
        t.players@ == s.players@.update(i, Player { vote_for: Some(target), ..s.players@[i] }),
        t == (GameSession { players: t.players, ..s }),
    ensures
        session_wf(t),
        same_game_later(s, t),
{
    assert(t.transcript@.take(s.transcript@.len() as int) =~= s.transcript@);
    let w = choose|w: int| 0 <= w < s.players@.len() && (#[trigger] s.players@[w]).role is Uninvited;
    assert(t.players@[w].role is Uninvited);
}

proof fn lemma_same_game_later_refl(s: GameSession)
    ensures
        same_game_later(s, s),
{
    assert(s.transcript@.take(s.transcript@.len() as int) =~= s.transcript@);
}

proof fn lemma_same_game_later_trans(a: GameSession, b: GameSession, c: GameSession)
    requires
        same_game_later(a, b),
        same_game_later(b, c),
    ensures
        same_game_later(a, c),
{
    assert(c.transcript@.take(a.transcript@.len() as int) =~= b.transcript@.take(
        a.transcript@.len() as int,
    ));
}

proof fn lemma_published_none(fx: Seq<Effect>, a: GameSession, b: GameSession)
    ensures
        published(fx, fx, a, b),
{
    assert(fx.take(fx.len() as int) =~= fx);
}

proof fn lemma_published_widen(
    f1: Seq<Effect>,
    f2: Seq<Effect>,
    a: GameSession,
    b: GameSession,
    a2: GameSession,
    b2: GameSession,
)
    requires
        published(f1, f2, a, b),
        same_game_later(a2, a),
        same_game_later(b, b2),
    ensures
        published(f1, f2, a2, b2),
{
    assert forall|k: int| f1.len() <= k < f2.len() implies match #[trigger] f2[k] {
        Effect::EmitState(v) => exists|t: GameSession|
            is_view_of(v, t) && same_game_later(a2, t) && same_game_later(t, b2) && (t.phase
                == Phase::Reveal ==> k == f2.len() - 1),
        Effect::EmitActivity(act) => activity_fits(act, b2.players@.len() as int),
    } by {
        if let Effect::EmitState(v) = f2[k] {
            let t = choose|t: GameSession|
                is_view_of(v, t) && same_game_later(a, t) && same_game_later(t, b) && (t.phase
                    == Phase::Reveal ==> k == f2.len() - 1);
            lemma_same_game_later_trans(a2, a, t);
            lemma_same_game_later_trans(t, b, b2);
        }
    }
}

proof fn lemma_published_chain(
    f1: Seq<Effect>,
    f2: Seq<Effect>,
    f3: Seq<Effect>,
    a: GameSession,
    m: GameSession,
    b: GameSession,
)
    requires
        published(f1, f2, a, m),
        published(f2, f3, m, b),
        same_game_later(a, m),
        same_game_later(m, b),
        m.phase == Phase::Reveal ==> f3.len() == f2.len(),
    ensures
        published(f1, f3, a, b),
{
    assert(f3.take(f1.len() as int) =~= f1) by {
        assert forall|k: int| 0 <= k < f1.len() implies f3[k] == f1[k] by {
            assert(f3.take(f2.len() as int)[k] == f3[k]);
            assert(f2.take(f1.len() as int)[k] == f2[k]);
        }
    }
    assert forall|k: int| f1.len() <= k < f3.len() implies match #[trigger] f3[k] {
        Effect::EmitState(v) => exists|t: GameSession|
            is_view_of(v, t) && same_game_later(a, t) && same_game_later(t, b) && (t.phase
                == Phase::Reveal ==> k == f3.len() - 1),
        Effect::EmitActivity(act) => activity_fits(act, b.players@.len() as int),
    } by {
        if k < f2.len() {
            assert(f3.take(f2.len() as int)[k] == f3[k]);
        }
        if let Effect::EmitState(v) = f3[k] {
            if k < f2.len() {
                assert(f3.take(f2.len() as int)[k] == f3[k]);
                assert(f2[k] == f3[k]);
                let t = choose|t: GameSession|
                    is_view_of(v, t) && same_game_later(a, t) && same_game_later(t, m) && (t.phase
                        == Phase::Reveal ==> k == f2.len() - 1);
                lemma_same_game_later_trans(t, m, b);
            } else {
                let t = choose|t: GameSession|
                    is_view_of(v, t) && same_game_later(m, t) && same_game_later(t, b) && (t.phase
                        == Phase::Reveal ==> k == f3.len() - 1);
                lemma_same_game_later_trans(a, m, t);
            }
        }
    }
}

/// No snapshot of the reveal is followed by another effect.
pub open spec fn reveal_last(fx: Seq<Effect>) -> bool {
    forall|k: int|
        0 <= k < fx.len() && (#[trigger] fx[k] is EmitState) && fx[k]->EmitState_0.phase
            == Phase::Reveal ==> k == fx.len() - 1
}

proof fn lemma_reveal_last(fx: Seq<Effect>, a: GameSession, b: GameSession)
    requires
        published(Seq::empty(), fx, a, b),
    ensures
        reveal_last(fx),
{
    assert forall|k: int|
        0 <= k < fx.len() && (#[trigger] fx[k] is EmitState) && fx[k]->EmitState_0.phase
            == Phase::Reveal implies k == fx.len() - 1 by {
        let v = fx[k]->EmitState_0;
        let t = choose|t: GameSession|
            is_view_of(v, t) && same_game_later(a, t) && same_game_later(t, b) && (t.phase
                == Phase::Reveal ==> k == fx.len() - 1);
    }
}

proof fn lemma_no_ask_back_seats(lp: GameLoop, s: GameSession, t: GameSession)
    requires
        no_ask_back(lp, s),
        t.players@ == s.players@,
    ensures
        no_ask_back(lp, t),
{
    assert forall|id: u8| is_candidate(t, lp.asker_id, lp.bartender, id) implies is_candidate(
        s,
        lp.asker_id,
        lp.bartender,
        id,
    ) by {
        let i = choose|i: int| 0 <= i < t.players@.len() && (#[trigger] t.players@[i]).id == id;
        assert(s.players@[i].id == id);
    }
}

proof fn lemma_activity_last(fx: Seq<Effect>, player: u8, kind: Seq<char>, text: Seq<char>, target: Option<u8>)
    requires
        fx.len() > 0,
        is_activity(fx.last(), player, kind, text, target),
    ensures
        has_activity(fx, player, kind, text, target),
{
    assert(is_activity(fx[fx.len() - 1], player, kind, text, target));
}

proof fn lemma_activity_kept(
    f1: Seq<Effect>,
    f2: Seq<Effect>,
    player: u8,
    kind: Seq<char>,
    text: Seq<char>,
    target: Option<u8>,
)
    requires
        has_activity(f1, player, kind, text, target),
        f1.len() <= f2.len(),
        f2.take(f1.len() as int) == f1,
    ensures
        has_activity(f2, player, kind, text, target),
{
    let k = choose|k: int| 0 <= k < f1.len() && is_activity(#[trigger] f1[k], player, kind, text, target);
    assert(f2.take(f1.len() as int)[k] == f2[k]);
    assert(is_activity(f2[k], player, kind, text, target));
}

impl GameLoop {
    fn emit_thinking(&self, fx: &mut Vec<Effect>, player_id: u8, thinking: &Option<String>)
        ensures
            // With reasoning shown, the reasoning becomes a "thinking" line of the player.
            self.debug_thinking && thinking is Some ==> final(fx)@.len() == old(fx)@.len() + 1
                && final(fx)@.take(old(fx)@.len() as int) == old(fx)@ && is_activity(
                final(fx)@.last(),
                player_id,
                "thinking"@,
                thinking->0@,
                None,
            ),
            !(self.debug_thinking && thinking is Some) ==> final(fx)@ == old(fx)@,
            forall|a: GameSession, b: GameSession|
                player_id < b.players@.len() ==> #[trigger] published(old(fx)@, final(fx)@, a, b),
    {
        proof {
            assert forall|a: GameSession, b: GameSession| #[trigger] published(fx@, fx@, a, b) by {
                lemma_published_none(fx@, a, b);
            }
        }
        if self.debug_thinking {
            if let Some(t) = thinking {
                emit_activity(fx, player_id, "thinking", t.clone(), None);
            }
        }
    }

    /// Ends the game on a guess by `player`.
    fn end_with_guess(&mut self, s: &mut GameSession, fx: &mut Vec<Effect>, player: u8, guess: String) -> (r: Request)
        requires
            old(self).wf_core(*old(s)),
            old(s).phase != Phase::Reveal,
        ensures
            old(self).moved_to(*old(s), *final(self), *final(s)),
            final(s).transcript@ == old(s).transcript@,
            final(self).stage == Stage::Finished,
            r is Stop,
            final(s).winner == Some(
                if old(s).scenario.spec_guess_matches(guess@) {
                    Side::Uninvited
                } else {
                    Side::Invited
                },
            ),
            published(old(fx)@, final(fx)@, *old(s), *final(s)),
            final(fx)@.len() == old(fx)@.len() + 1,
            ends_with_view(final(fx)@, *final(s)),
            final(s).phase == Phase::Reveal,
            final(self).q == old(self).q,
    {
        let ghost f0 = fx@;
        finish_with_guess(s, fx, player, guess);
        proof {
            assert(s.transcript@.take(old(s).transcript@.len() as int) =~= old(s).transcript@);
        }
        proof {
            lemma_same_game_later_refl(*s);
            lemma_published_widen(f0, fx@, *s, *s, *old(s), *s);
        }
        self.stage = Stage::Finished;
        Request::Stop
    }

    /// Top of question `q`: the vote once all questions are asked; else the
    /// round number, then (in Bartender mode) a check for a called vote, or the turn.
    fn top_of_question(&mut self, s: &mut GameSession, fx: &mut Vec<Effect>) -> (r: Request)
        requires
            old(self).wf_core(*old(s)),
            old(s).phase == Phase::Questioning,
        ensures
            final(self).asker_id == old(self).asker_id,
            old(self).moved_to(*old(s), *final(self), *final(s)),
            final(s).transcript@ == old(s).transcript@,
            request_fits(final(self).stage, r),
            generate_fits(*final(self), *final(s), r),
            published(old(fx)@, final(fx)@, *old(s), *final(s)),
            ends_with_view(final(fx)@, *final(s)),
            old(self).q >= old(self).total_questions ==> final(s).phase == Phase::Voting,
            old(self).q < old(self).total_questions ==> final(s).phase == Phase::Questioning,
            final(self).q == old(self).q,
            old(s).phase == Phase::Questioning && final(s).phase == Phase::Voting && !old(self).bartender
                ==> final(self).ai_voters@ == ai_seats(old(s).players@.len() as int)
                && final(self).voter_index == 0 && !final(self).human_voted && final(self).stage
                == next_vote_stage(0, final(self).ai_voters@.len() as int, false),
            final(self).prev_asker == old(self).prev_asker,
    {
        proof {
            lemma_published_none(fx@, *old(s), *old(s));
        }
        if self.q >= self.total_questions {
            return self.begin_voting(s, fx);
        }
        proof {
            assert(self.q / self.qa < s.rounds_total) by (nonlinear_arith)
                requires
                    self.q < self.total_questions,
                    self.total_questions == s.rounds_total * self.qa,
                    self.qa > 0,
            ;
        }
        s.round = (self.q / self.qa) as u8 + 1;
        proof {
            assert(s.transcript@.take(old(s).transcript@.len() as int) =~= old(s).transcript@);
        }
        proof {
            lemma_published_none(fx@, *old(s), *s);
        }
        if self.bartender {
            emit_state(fx, s);
            proof {
                lemma_same_game_later_refl(*s);
                lemma_published_widen(old(fx)@, fx@, *s, *s, *old(s), *s);
            }
            self.stage = Stage::PollCallVote;
            return Request::PollHuman;
        }
        let ghost mid = *s;
        let r = self.start_turn(s, fx);
        proof {
            lemma_same_game_later_refl(*s);
            lemma_published_widen(old(fx)@, fx@, mid, *s, *old(s), *s);
        }
        r
    }

    /// Picks the target and asks the asker for a question.
    fn start_turn(&mut self, s: &mut GameSession, fx: &mut Vec<Effect>) -> (r: Request)
        requires
            old(self).wf_core(*old(s)),
            old(s).phase == Phase::Questioning,
            old(self).q < old(self).total_questions,
        ensures
            old(self).moved_to(*old(s), *final(self), *final(s)),
            final(s).transcript@ == old(s).transcript@,
            request_fits(final(self).stage, r),
            generate_fits(*final(self), *final(s), r),
            final(self).stage == Stage::AwaitQuestion || final(self).stage == Stage::AwaitTurnReply
                || final(self).stage == Stage::AwaitAskReply,
            final(self).asker_id == old(self).asker_id,
            // The human is brought back in after sitting out too many turns.
            !old(self).bartender && old(self).asker_id != HUMAN_ID && old(self).human_idle
                >= HUMAN_IDLE_LIMIT ==> final(self).target_id == HUMAN_ID,
            published(old(fx)@, final(fx)@, *old(s), *final(s)),
            ends_with_view(final(fx)@, *final(s)),
            final(self).q == old(self).q,
            final(s).phase == old(s).phase,
            no_ask_back(*final(self), *final(s)),
            final(self).prev_asker == old(self).prev_asker,
    {
        proof {
            let other: u8 = if self.asker_id == 1 { 2 } else { 1 };
            assert(s.players@[other as int].id == other);
            assert(is_candidate(*s, self.asker_id, self.bartender, other));
        }
        let picked = pick_target(s, self.asker_id, self.prev_asker, self.bartender);
        proof {
            let j = choose|j: int| 0 <= j < s.players@.len() && (#[trigger] s.players@[j]).id == picked;
        }
        let ghost f0 = fx@;
        let target = if !self.bartender && self.asker_id != HUMAN_ID && self.human_idle
            >= HUMAN_IDLE_LIMIT {
            HUMAN_ID
        } else {
            picked
        };
        self.target_id = target;
        let ghost s_pick = *s;
        proof {
            if self.asker_id != HUMAN_ID && !(!self.bartender && self.human_idle >= HUMAN_IDLE_LIMIT) {
                assert(target == picked);
            }
        }
        s.pending = None;
        s.thinking = None;
        let asker = s.player(self.asker_id).clone();
        proof {
            assert(s.transcript@.take(old(s).transcript@.len() as int) =~= old(s).transcript@);
        }
        if asker.is_human {
            s.awaiting = Some(Awaiting::Question { target });
            emit_state(fx, s);
            proof {
                lemma_same_game_later_refl(*s);
                lemma_published_widen(f0, fx@, *s, *s, *old(s), *s);
                lemma_no_ask_back_seats(*self, s_pick, *s);
            }
            self.stage = Stage::AwaitQuestion;
            Request::WaitForHuman
        } else if asker.role.side() == Side::Uninvited {
            s.pending = Some(PendingTurn { asker: self.asker_id, target, question: None });
            s.thinking = Some(self.asker_id);
            emit_state(fx, s);
            proof {
                lemma_same_game_later_refl(*s);
                lemma_published_widen(f0, fx@, *s, *s, *old(s), *s);
                lemma_no_ask_back_seats(*self, s_pick, *s);
            }
            let (system, user) = uninvited_turn_prompt(s, &asker, target);
            self.stage = Stage::AwaitTurnReply;
            Request::Generate { system, user, max_tokens: self.max_tokens }
        } else {
            s.pending = Some(PendingTurn { asker: self.asker_id, target, question: None });
            s.thinking = Some(self.asker_id);
            emit_state(fx, s);
            proof {
                lemma_same_game_later_refl(*s);
                lemma_published_widen(f0, fx@, *s, *s, *old(s), *s);
                lemma_no_ask_back_seats(*self, s_pick, *s);
            }
            let (system, user) = ask_prompt(s, &asker, target);
            self.stage = Stage::AwaitAskReply;
            Request::Generate { system, user, max_tokens: self.max_tokens }
        }
    }

    /// A turn yielded nothing: the answerer-to-be asks next, on the following question.
    fn skip_turn(&mut self, s: &mut GameSession, fx: &mut Vec<Effect>) -> (r: Request)
        requires
            old(self).wf_core(*old(s)),
            old(s).phase == Phase::Questioning,
            old(self).q < old(self).total_questions,
        ensures
            old(self).moved_to(*old(s), *final(self), *final(s)),
            final(s).transcript@ == old(s).transcript@,
            request_fits(final(self).stage, r),
            generate_fits(*final(self), *final(s), r),
            published(old(fx)@, final(fx)@, *old(s), *final(s)),
            ends_with_view(final(fx)@, *final(s)),
            final(self).q == old(self).q + 1,
            old(self).q + 1 >= old(self).total_questions ==> final(s).phase == Phase::Voting,
            old(self).q + 1 < old(self).total_questions ==> final(s).phase == Phase::Questioning,
            old(s).phase == Phase::Questioning && final(s).phase == Phase::Voting && !old(self).bartender
                ==> final(self).ai_voters@ == ai_seats(old(s).players@.len() as int)
                && final(self).voter_index == 0 && !final(self).human_voted && final(self).stage
                == next_vote_stage(0, final(self).ai_voters@.len() as int, false),
    {
        proof {
            let other: u8 = if self.asker_id == 1 { 2 } else { 1 };
            assert(s.players@[other as int].id == other);
            assert(is_candidate(*s, self.asker_id, self.bartender, other));
        }
        let next = pick_target(s, self.asker_id, self.prev_asker, self.bartender);
        proof {
            let j = choose|j: int| 0 <= j < s.players@.len() && (#[trigger] s.players@[j]).id == next;
        }
        self.asker_id = next;
        self.q = self.q + 1;
        self.top_of_question(s, fx)
    }

    /// The question exists: publish it and ask the target for the answer.
    fn after_question(&mut self, s: &mut GameSession, fx: &mut Vec<Effect>, question: String) -> (r: Request)
        requires
            old(self).wf_core(*old(s)),
            old(self).bartender ==> old(self).target_id != HUMAN_ID,
            !old(self).bartender && old(self).asker_id != HUMAN_ID && old(self).human_idle
                >= HUMAN_IDLE_LIMIT ==> old(self).target_id == HUMAN_ID,
            no_ask_back(*old(self), *old(s)),
            old(self).target_id != old(self).asker_id,
            old(s).phase == Phase::Questioning,
            old(self).q < old(self).total_questions,
        ensures
            old(self).moved_to(*old(s), *final(self), *final(s)),
            final(s).transcript@ == old(s).transcript@,
            request_fits(final(self).stage, r),
            generate_fits(*final(self), *final(s), r),
            trim(question@).len() > 0 ==> final(s).pending == Some(
                PendingTurn {
                    asker: old(self).asker_id,
                    target: old(self).target_id,
                    question: Some(question),
                },
            ),
            trim(question@).len() > 0 ==> final(self).question == question && final(self).q == old(self).q
                && final(self).target_id == old(self).target_id && final(self).asker_id == old(
                self,
            ).asker_id && (final(self).stage == Stage::AwaitAnswer || final(self).stage
                == Stage::AwaitAnswerReply),
            published(old(fx)@, final(fx)@, *old(s), *final(s)),
            ends_with_view(final(fx)@, *final(s)),
            trim(question@).len() > 0 ==> has_activity(
                final(fx)@,
                old(self).asker_id,
                "question"@,
                question@,
                Some(old(self).target_id),
            ),
            trim(question@).len() == 0 ==> final(self).q == old(self).q + 1 && (old(self).q + 1
                >= old(self).total_questions ==> final(s).phase == Phase::Voting) && (old(self).q
                + 1 < old(self).total_questions ==> final(s).phase == Phase::Questioning),
            trim(question@).len() > 0 ==> final(s).phase == old(s).phase && final(self).stage == (
            if old(s).players@[old(self).target_id as int].is_human {
                Stage::AwaitAnswer
            } else {
                Stage::AwaitAnswerReply
            }),
            old(s).phase == Phase::Questioning && final(s).phase == Phase::Voting && !old(self).bartender
                ==> final(self).ai_voters@ == ai_seats(old(s).players@.len() as int)
                && final(self).voter_index == 0 && !final(self).human_voted && final(self).stage
                == next_vote_stage(0, final(self).ai_voters@.len() as int, false),
    {
        let qv = chars_of(question.as_str());
        if trim_ws(&qv).len() == 0 {
            return self.skip_turn(s, fx);
        }
        emit_activity(fx, self.asker_id, "question", question.clone(), Some(self.target_id));
        let ghost f1 = fx@;
        proof {
            lemma_activity_last(f1, self.asker_id, "question"@, question@, Some(self.target_id));
        }
        s.pending = Some(PendingTurn { asker: self.asker_id, target: self.target_id, question: Some(question.clone()) });
        s.thinking = None;
        self.question = question;
        let target = s.player(self.target_id).clone();
        proof {
            assert(s.transcript@.take(old(s).transcript@.len() as int) =~= old(s).transcript@);
        }
        if target.is_human {
            s.awaiting = Some(Awaiting::Answer { asker: self.asker_id, question: self.question.clone() });
            emit_state(fx, s);
            proof {
                lemma_same_game_later_refl(*s);
                lemma_published_widen(f1, fx@, *s, *s, *old(s), *s);
                lemma_published_chain(old(fx)@, f1, fx@, *old(s), *old(s), *s);
                assert(no_ask_back(*self, *old(s)));
                lemma_no_ask_back_seats(*self, *old(s), *s);
                lemma_activity_kept(f1, fx@, old(self).asker_id, "question"@, question@, Some(old(self).target_id));
            }
            self.stage = Stage::AwaitAnswer;
            Request::WaitForHuman
        } else {
            s.thinking = Some(self.target_id);
            emit_state(fx, s);
            proof {
                lemma_same_game_later_refl(*s);
                lemma_published_widen(f1, fx@, *s, *s, *old(s), *s);
                lemma_published_chain(old(fx)@, f1, fx@, *old(s), *old(s), *s);
                assert(no_ask_back(*self, *old(s)));
                lemma_no_ask_back_seats(*self, *old(s), *s);
                lemma_activity_kept(f1, fx@, old(self).asker_id, "question"@, question@, Some(old(self).target_id));
            }
            let (system, user) = answer_prompt(s, &target, self.asker_id, self.question.as_str());
            self.stage = Stage::AwaitAnswerReply;
            Request::Generate { system, user, max_tokens: self.max_tokens }
        }
    }

    /// The answer exists: record the turn; the answerer asks next.
    fn record_answer(&mut self, s: &mut GameSession, fx: &mut Vec<Effect>, answer: String) -> (r: Request)
        requires
            old(self).wf_core(*old(s)),
            old(self).bartender ==> old(self).target_id != HUMAN_ID,
            !old(self).bartender && old(self).asker_id != HUMAN_ID && old(self).human_idle
                >= HUMAN_IDLE_LIMIT ==> old(self).target_id == HUMAN_ID,
            old(self).target_id != old(self).asker_id,
            old(s).phase == Phase::Questioning,
            old(self).q < old(self).total_questions,
        ensures
            final(self).asker_id == old(self).target_id,
            final(self).wf(*final(s)),
            same_game_later(*old(s), *final(s)),
            old(self).q < final(self).q,
            final(self).bartender == old(self).bartender,
            final(self).debug_thinking == old(self).debug_thinking,
            final(self).max_tokens == old(self).max_tokens,
            final(s).transcript@ == old(s).transcript@.push(
                Turn {
                    asker: old(self).asker_id,
                    target: old(self).target_id,
                    question: old(self).question,
                    answer,
                },
            ),
            request_fits(final(self).stage, r),
            generate_fits(*final(self), *final(s), r),
            published(old(fx)@, final(fx)@, *old(s), *final(s)),
            ends_with_view(final(fx)@, *final(s)),
            has_activity(final(fx)@, old(self).target_id, "answer"@, answer@, Some(old(self).asker_id)),
            final(self).q == old(self).q + 1,
            old(self).q + 1 >= old(self).total_questions ==> final(s).phase == Phase::Voting,
            old(self).q + 1 < old(self).total_questions ==> final(s).phase == Phase::Questioning,
            old(s).phase == Phase::Questioning && final(s).phase == Phase::Voting && !old(self).bartender
                ==> final(self).ai_voters@ == ai_seats(old(s).players@.len() as int)
                && final(self).voter_index == 0 && !final(self).human_voted && final(self).stage
                == next_vote_stage(0, final(self).ai_voters@.len() as int, false),
            final(self).prev_asker == Some(old(self).asker_id),
    {
        s.awaiting = None;
        s.pending = None;
        s.thinking = None;
        let ghost before = *s;
        let ghost answer_text = answer@;
        s.transcript.push(Turn {
            asker: self.asker_id,
            target: self.target_id,
            question: self.question.clone(),
            answer: answer.clone(),
        });
        proof {
            assert(s.transcript@.take(old(s).transcript@.len() as int) =~= old(s).transcript@);
        }
        emit_activity(fx, self.target_id, "answer", answer, Some(self.asker_id));
        let ghost f1 = fx@;
        proof {
            lemma_activity_last(f1, old(self).target_id, "answer"@, answer_text, Some(old(self).asker_id));
        }
        emit_state(fx, s);
        proof {
            lemma_activity_kept(f1, fx@, old(self).target_id, "answer"@, answer_text, Some(old(self).asker_id));
            lemma_same_game_later_refl(*s);
            lemma_same_game_later_refl(*old(s));
            lemma_published_widen(f1, fx@, *s, *s, *old(s), *s);
            lemma_published_chain(old(fx)@, f1, fx@, *old(s), *old(s), *s);
        }
        let ghost f2 = fx@;
        if self.asker_id == HUMAN_ID || self.target_id == HUMAN_ID {
            self.human_idle = 0;
        } else {
            self.human_idle = self.human_idle + 1;
        }
        self.prev_asker = Some(self.asker_id);
        self.asker_id = self.target_id;
        self.q = self.q + 1;
        let ghost mid = *s;
        let r = self.top_of_question(s, fx);
        proof {
            lemma_same_game_later_trans(*old(s), mid, *s);
            lemma_published_chain(old(fx)@, f2, fx@, *old(s), mid, *s);
            lemma_activity_kept(f2, fx@, old(self).target_id, "answer"@, answer_text, Some(old(self).asker_id));
        }
        r
    }

    /// Opens the vote.
    fn begin_voting(&mut self, s: &mut GameSession, fx: &mut Vec<Effect>) -> (r: Request)
        requires
            old(self).wf_core(*old(s)),
            old(s).phase == Phase::Questioning,
        ensures
            final(s).phase == Phase::Voting,
            final(self).asker_id == old(self).asker_id,
            old(self).moved_to(*old(s), *final(self), *final(s)),
            final(s).transcript@ == old(s).transcript@,
            request_fits(final(self).stage, r),
            generate_fits(*final(self), *final(s), r),
            published(old(fx)@, final(fx)@, *old(s), *final(s)),
            ends_with_view(final(fx)@, *final(s)),
            final(self).q == old(self).q,
            !old(self).bartender ==> final(self).ai_voters@ == ai_seats(old(s).players@.len() as int)
                && final(self).voter_index == 0 && !final(self).human_voted && final(self).stage
                == next_vote_stage(0, final(self).ai_voters@.len() as int, false),
            final(self).prev_asker == old(self).prev_asker,
    {
        s.phase = Phase::Voting;
        s.pending = None;
        s.thinking = None;
        s.awaiting = Some(Awaiting::Vote);
        proof {
            assert(s.transcript@.take(old(s).transcript@.len() as int) =~= old(s).transcript@);
        }
        emit_state(fx, s);
        let ghost f1 = fx@;
        let ghost mid = *s;
        proof {
            lemma_same_game_later_refl(*s);
            lemma_published_widen(old(fx)@, f1, *s, *s, *old(s), *s);
        }
        if self.bartender {
            self.stage = Stage::AwaitVote;
            return Request::WaitForHuman;
        }
        let n = s.players.len();
        let mut voters: Vec<u8> = Vec::new();
        let mut i: usize = 0;
        while i < n
            invariant
                0 <= i <= n,
                n == s.players@.len(),
                forall|j: int| 0 <= j < n ==> (#[trigger] s.players@[j]).id == j,
                forall|j: int| 0 <= j < n ==> (#[trigger] s.players@[j]).is_human == (j == 0),
                forall|k: int| 0 <= k < voters@.len() ==> #[trigger] voters@[k] < n,
                n <= 9,
                voters@ == Seq::new(
                    if i == 0 {
                        0nat
                    } else {
                        (i - 1) as nat
                    },
                    |k: int| (k + 1) as u8,
                ),
            decreases n - i,
        {
            if !s.players[i].is_human {
                voters.push(s.players[i].id);
            }
            i += 1;
            assert(voters@ =~= Seq::new((i - 1) as nat, |k: int| (k + 1) as u8));
        }
        self.ai_voters = voters;
        self.voter_index = 0;
        self.human_voted = false;
        let r = self.next_vote(s, fx);
        proof {
            lemma_published_chain(old(fx)@, f1, fx@, *old(s), mid, *s);
        }
        r
    }

    /// The next AI vote, or (when every AI has voted) the human's vote or the pause.
    fn next_vote(&mut self, s: &mut GameSession, fx: &mut Vec<Effect>) -> (r: Request)
        requires
            old(self).wf_core(*old(s)),
            old(s).phase == Phase::Voting,
        ensures
            final(s).players == old(s).players,
            final(s).phase == old(s).phase,
            final(self).asker_id == old(self).asker_id,
            old(self).moved_to(*old(s), *final(self), *final(s)),
            final(s).transcript@ == old(s).transcript@,
            request_fits(final(self).stage, r),
            generate_fits(*final(self), *final(s), r),
            published(old(fx)@, final(fx)@, *old(s), *final(s)),
            (final(fx)@ == old(fx)@ && *final(s) == *old(s)) || ends_with_view(final(fx)@, *final(s)),
            final(self).q == old(self).q,
            final(self).stage == next_vote_stage(
                old(self).voter_index as int,
                old(self).ai_voters@.len() as int,
                old(self).human_voted,
            ),
            *final(self) == (GameLoop { stage: final(self).stage, ..*old(self) }),
    {
        proof {
            lemma_same_game_later_refl(*s);
            lemma_published_none(fx@, *s, *s);
        }
        if self.voter_index >= self.ai_voters.len() {
            if !self.human_voted {
                self.stage = Stage::AwaitVote;
                return Request::WaitForHuman;
            }
            self.stage = Stage::Pausing;
            return Request::Pause;
        }
        if !self.human_voted {
            self.stage = Stage::PollVote;
            return Request::PollHuman;
        }
        self.start_ai_vote(s, fx)
    }

    /// Asks the next AI voter for its vote.
    fn start_ai_vote(&mut self, s: &mut GameSession, fx: &mut Vec<Effect>) -> (r: Request)
        requires
            old(self).wf_core(*old(s)),
            old(s).phase == Phase::Voting,
            old(self).voter_index < old(self).ai_voters@.len(),
        ensures
            final(s).phase == old(s).phase,
            final(self).asker_id == old(self).asker_id,
            old(self).moved_to(*old(s), *final(self), *final(s)),
            final(s).transcript@ == old(s).transcript@,
            final(s).players == old(s).players,
            request_fits(final(self).stage, r),
            generate_fits(*final(self), *final(s), r),
            published(old(fx)@, final(fx)@, *old(s), *final(s)),
            ends_with_view(final(fx)@, *final(s)),
            final(self).q == old(self).q,
            *final(self) == (GameLoop { stage: Stage::AwaitVoteReply, ..*old(self) }),
    {
        let voter_id = self.ai_voters[self.voter_index];
        let voter = s.player(voter_id).clone();
        s.thinking = Some(voter_id);
        proof {
            assert(s.transcript@.take(old(s).transcript@.len() as int) =~= old(s).transcript@);
        }
        emit_state(fx, s);
        proof {
            lemma_same_game_later_refl(*s);
            lemma_published_widen(old(fx)@, fx@, *s, *s, *old(s), *s);
        }
        let (system, user) = vote_prompt(s, &voter);
        self.stage = Stage::AwaitVoteReply;
        Request::Generate { system, user, max_tokens: self.max_tokens }
    }

    /// Records the human's vote.
    fn take_human_vote(&mut self, s: &mut GameSession, fx: &mut Vec<Effect>, target: u8)
        requires
            old(self).wf(*old(s)),
            old(s).phase == Phase::Voting,
        ensures
            final(self).wf_core(*final(s)),
            old(self).stage != Stage::PollVote ==> final(self).wf(*final(s)),
            *final(self) == (GameLoop { human_voted: true, ..*old(self) }),
            same_game_later(*old(s), *final(s)),
            final(s).transcript@ == old(s).transcript@,
            final(s).players@[0].vote_for == Some(target),
            final(s).phase == Phase::Voting,
            published(old(fx)@, final(fx)@, *old(s), *final(s)),
            ends_with_view(final(fx)@, *final(s)),
    {
        let ghost s0 = *s;
        set_vote(s, 0, target);
        proof {
            lemma_set_vote_keeps(s0, *s, 0, target);
        }
        let ghost s1 = *s;
        s.awaiting = None;
        proof {
            lemma_same_game_later_trans(s0, s1, *s);
            assert(s.transcript@.take(s1.transcript@.len() as int) =~= s1.transcript@);
        }
        self.human_voted = true;
        emit_state(fx, s);
        proof {
            lemma_same_game_later_refl(*s);
            lemma_published_widen(old(fx)@, fx@, *s, *s, *old(s), *s);
        }
    }
}

/// Every vote names an existing seat.
fn votes_ok(s: &GameSession) -> (r: bool)
    ensures
        r == votes_in_range(s.players@),
{
    let n = s.players.len();
    let mut i: usize = 0;
    while i < n
        invariant
            0 <= i <= n,
            n == s.players@.len(),
            forall|j: int|
                0 <= j < i ==> ((#[trigger] s.players@[j]).vote_for matches Some(t) ==> t < n),
        decreases n - i,
    {
        if let Some(t) = s.players[i].vote_for {
            if t as usize >= n {
                return false;
            }
        }
        i += 1;
    }
    true
}

impl GameLoop {
    /// Starts a game on `scenario`: deals the session, publishes it, picks the
    /// first asker, and runs up to the first request.
    pub fn start(
        cfg: &GameConfig,
        scenario: Scenario,
        rounds_total: u8,
        thinking_enabled: bool,
        debug_thinking: bool,
    ) -> (r: (GameLoop, GameSession, Step))
        ensures
            r.0.wf(r.1),
            request_fits(r.0.stage, r.2.request),
            generate_fits(r.0, r.1, r.2.request),
            r.1.scenario == scenario,
            r.1.mode == cfg.mode,
            r.1.rounds_total == rounds_total,
            r.1.transcript@.len() == 0,
            r.0.debug_thinking == debug_thinking,
            r.0.max_tokens == gen_tokens_spec(thinking_enabled),
            // Every snapshot published is the view of a session of this game.
            exists|a: GameSession| published(Seq::empty(), r.2.effects@, a, r.1),
            ends_with_view(r.2.effects@, r.1),
            // The questioning starts from the first of `rounds_total` times `qa`
            // questions, `qa` being the players who take part in it; with none to
            // ask, the vote opens at once.
            r.0.q == 0,
            r.0.qa == (if cfg.mode == GameMode::Bartender {
                r.1.players@.len() - 1
            } else {
                r.1.players@.len() as int
            }),
            r.0.total_questions == rounds_total * r.0.qa,
            r.1.phase == (if r.0.total_questions == 0 {
                Phase::Voting
            } else {
                Phase::Questioning
            }),
    {
        let s0 = GameSession::new(cfg, scenario, rounds_total);
        let mut s = s0;
        proof {
            let (u, dealt) = choose|u: int, dealt: Seq<String>|
                {
                    &&& (cfg.mode == GameMode::Outsider ==> u == 0)
                    &&& (cfg.mode != GameMode::Outsider ==> 1 <= u <= crate::game::clamp_spec(
                        cfg.ai_count,
                        2,
                        8,
                    ))
                    &&& dealt.to_multiset() == scenario.roles@.to_multiset()
                    &&& crate::game::dealt_players(s.players@, crate::game::seat_count(*cfg), u, dealt)
                };
            assert(s.players@[u].role is Uninvited);
            assert(has_uninvited(s.players@));
        }
        let bartender = s.bartender_mode();
        let mut fx: Vec<Effect> = Vec::new();
        emit_state(&mut fx, &s);
        let ghost f1 = fx@;
        let ghost s0 = s;
        let n = s.players.len();
        let qa = if bartender {
            n - 1
        } else {
            n
        };
        proof {
            assert(qa <= 9);
            assert(rounds_total as usize * qa <= 255 * 9) by (nonlinear_arith)
                requires
                    qa <= 9,
                    rounds_total <= 255,
            ;
        }
        let total = rounds_total as usize * qa;
        proof {
            assert(s.players@[1].id == 1);
        }
        let asker = pick_first_asker(&s, bartender);
        proof {
            let j = choose|j: int|
                0 <= j < s.players@.len() && (#[trigger] s.players@[j]).id == asker && !(bartender
                    && asker == HUMAN_ID);
        }
        let mut lp = GameLoop {
            bartender,
            debug_thinking,
            max_tokens: gen_tokens(thinking_enabled),
            qa,
            total_questions: total,
            q: 0,
            asker_id: asker,
            target_id: 0,
            prev_asker: None,
            human_idle: 0,
            question: String::new(),
            ai_voters: Vec::new(),
            voter_index: 0,
            human_voted: false,
            stage: Stage::Starting,
        };
        let request = lp.top_of_question(&mut s, &mut fx);
        proof {
            lemma_same_game_later_refl(s0);
            lemma_published_chain(Seq::empty(), f1, fx@, s0, s0, s);
        }
        let r = (lp, s, Step { effects: fx, request });
        assert(published(Seq::empty(), r.2.effects@, s0, r.1));
        r
    }

    /// Advances the game on `event`, the outcome of the last request, up to the
    /// next request. An event that does not answer the request is handled as
    /// its failure (a generation), as no input yet (a poll or a wait), or as
    /// nothing (the pause).
    #[verifier::rlimit(60)]
    #[verifier::spinoff_prover]
    pub fn step(&mut self, s: &mut GameSession, event: Event) -> (r: Step)
        requires
            old(self).wf(*old(s)),
        ensures
            old(self).moved_to(*old(s), *final(self), *final(s)),
            final(s).transcript@.len() <= old(s).transcript@.len() + 1,
            request_fits(final(self).stage, r.request),
            // Every snapshot published is the view of a session of this game.
            published(Seq::empty(), r.effects@, *old(s), *final(s)),
            // Whenever the session changes, the last thing published is its new snapshot.
            *final(s) != *old(s) ==> ends_with_view(r.effects@, *final(s)),
            // Every recorded turn is asked by one seat of another, never involves the
            // human in Bartender mode, and there are no more turns than the rounds allow.
            forall|k: int|
                0 <= k < final(s).transcript@.len() ==> (#[trigger] final(s).transcript@[k]).asker
                    != final(s).transcript@[k].target && final(s).transcript@[k].asker
                    < final(s).players@.len() && final(s).transcript@[k].target
                    < final(s).players@.len() && (old(self).bartender ==> !involves_human(
                    final(s).transcript@[k],
                )),
            final(s).transcript@.len() <= final(s).rounds_total * final(self).qa,
            // A question that is not blank goes to its target for the answer: the
            // human's is awaited, an AI's is generated.
            (old(self).stage == Stage::AwaitAskReply && (event matches Event::Generated { text, .. })
                && trim(crate::agents::clean_line_spec(event->Generated_text@)).len() > 0) || (
            old(self).stage == Stage::AwaitTurnReply && (event matches Event::Generated {
                text,
                ..
            }) && crate::agents::turn_reply_slices_ok(event->Generated_text@)
                && crate::agents::parse_turn_spec(event->Generated_text@) is Ask && trim(
                crate::agents::parse_turn_spec(event->Generated_text@)->Ask_0,
            ).len() > 0) || (old(self).stage == Stage::AwaitQuestion && (event matches Event::Human(
                HumanInput::Question { target, text },
            )) && trim(crate::agents::clean_line_spec(event->Human_0->Question_text@)).len() > 0)
                ==> final(self).q == old(self).q && final(self).stage == (
            if old(s).players@[final(self).target_id as int].is_human {
                Stage::AwaitAnswer
            } else {
                Stage::AwaitAnswerReply
            }),
            // The questions are counted: one per turn recorded or skipped, and no more.
            final(self).q == old(self).q || final(self).q == old(self).q + 1,
            final(s).transcript@.len() == old(s).transcript@.len() + 1 ==> final(self).q == old(
                self,
            ).q + 1,
            final(self).q == old(self).q + 1 ==> final(s).transcript@.len()
                == old(s).transcript@.len() + 1 || old(self).stage == Stage::AwaitQuestion
                || old(self).stage == Stage::AwaitTurnReply || old(self).stage
                == Stage::AwaitAskReply,
            // A question that fails or comes out blank is skipped: it counts, nothing is recorded.
            old(self).stage == Stage::AwaitAskReply && (!(event is Generated) || trim(
                crate::agents::clean_line_spec(event->Generated_text@),
            ).len() == 0) ==> final(self).q == old(self).q + 1 && final(s).transcript@
                == old(s).transcript@,
            old(self).stage == Stage::AwaitTurnReply && (!(event is Generated) || (
            crate::agents::turn_reply_slices_ok(event->Generated_text@)
                && crate::agents::parse_turn_spec(event->Generated_text@) is Ask && trim(
                crate::agents::parse_turn_spec(event->Generated_text@)->Ask_0,
            ).len() == 0)) ==> final(self).q == old(self).q + 1 && final(s).transcript@
                == old(s).transcript@,
            old(self).stage == Stage::AwaitQuestion && (event matches Event::Human(
                HumanInput::Question { target, text },
            )) && trim(crate::agents::clean_line_spec(event->Human_0->Question_text@)).len() == 0
                ==> final(self).q == old(self).q + 1 && final(s).transcript@ == old(s).transcript@,
            // The vote opens when every question has been asked, or, in Bartender
            // mode, when the human calls it; never otherwise.
            old(s).phase == Phase::Questioning && final(s).phase == Phase::Voting ==> final(self).q
                == final(self).total_questions || (old(self).stage == Stage::PollCallVote && (
            event matches Event::Human(HumanInput::CallVote))),
            old(s).phase == Phase::Questioning && old(self).q < final(self).q && final(self).q
                == final(self).total_questions ==> final(s).phase == Phase::Voting,
            old(s).phase == Phase::Questioning && final(self).q < final(self).total_questions
                && final(s).phase != Phase::Reveal && !(old(self).stage == Stage::PollCallVote && (
            event matches Event::Human(HumanInput::CallVote))) ==> final(s).phase
                == Phase::Questioning,
            // Once the reveal is published, nothing follows it.
            reveal_last(r.effects@),
            // Nothing is published before the start or after the end.
            (old(self).stage == Stage::Finished || old(self).stage == Stage::Starting)
                ==> r.effects@.len() == 0,
            // A human who plays asks or answers in at least one of every three turns.
            !old(self).bartender ==> human_kept_in(final(s).transcript@),
            // A generation carries the prompt of the stage it is made in.
            generate_fits(*final(self), *final(s), r.request),
            (old(self).stage == Stage::Finished || old(self).stage == Stage::Starting) ==> (
            r.request is Stop && *final(s) == *old(s)),
            // A closed input channel ends the game where the loop waits for the human.
            (old(self).stage == Stage::AwaitQuestion || old(self).stage == Stage::AwaitAnswer
                || old(self).stage == Stage::AwaitVote) && event is Closed ==> r.request is Stop
                && *final(s) == *old(s),
            // A guess by the human ends the game, decided by the guess.
            (old(self).stage == Stage::AwaitQuestion || old(self).stage == Stage::AwaitAnswer
                || old(self).stage == Stage::AwaitVote || old(self).stage == Stage::PollVote) && (
            event matches Event::Human(HumanInput::GuessLocation { text })) ==> r.request is Stop
                && r.effects@.len() == 1 && ends_with_view(r.effects@, *final(s))
                && final(s).phase == Phase::Reveal && final(s).winner == Some(
                if old(s).scenario.spec_guess_matches(event->Human_0->GuessLocation_text@) {
                    Side::Uninvited
                } else {
                    Side::Invited
                },
            ),
            // The human's question goes to the player they named, when that is another player.
            old(self).stage == Stage::AwaitQuestion && (event matches Event::Human(
                HumanInput::Question { target, text },
            )) && trim(crate::agents::clean_line_spec(event->Human_0->Question_text@)).len() > 0
                ==> final(self).target_id == human_target(
                old(self).target_id,
                old(self).asker_id,
                event->Human_0->Question_target,
                old(s).players@.len() as int,
            ) && final(self).question@ == crate::agents::clean_line_spec(
                event->Human_0->Question_text@,
            ) && final(s).pending == Some(
                PendingTurn {
                    asker: old(self).asker_id,
                    target: final(self).target_id,
                    question: Some(final(self).question),
                },
            ) && has_activity(
                r.effects@,
                old(self).asker_id,
                "question"@,
                final(self).question@,
                Some(final(self).target_id),
            ),
            // An invited AI's question is its reply, cleaned; when it is not blank, it
            // is put to the target and published.
            old(self).stage == Stage::AwaitAskReply && (event matches Event::Generated {
                text,
                ..
            }) && trim(crate::agents::clean_line_spec(event->Generated_text@)).len() > 0
                ==> final(self).question@ == crate::agents::clean_line_spec(event->Generated_text@)
                && final(self).target_id == old(self).target_id && final(s).pending == Some(
                PendingTurn {
                    asker: old(self).asker_id,
                    target: old(self).target_id,
                    question: Some(final(self).question),
                },
            ) && has_activity(
                r.effects@,
                old(self).asker_id,
                "question"@,
                final(self).question@,
                Some(old(self).target_id),
            ),
            // The uninvited AI's question is the one its reply asks; likewise.
            old(self).stage == Stage::AwaitTurnReply && (event matches Event::Generated {
                text,
                ..
            }) && crate::agents::turn_reply_slices_ok(event->Generated_text@) && (
            crate::agents::parse_turn_spec(event->Generated_text@) is Ask) && trim(
                crate::agents::parse_turn_spec(event->Generated_text@)->Ask_0,
            ).len() > 0 ==> final(self).question@ == crate::agents::parse_turn_spec(
                event->Generated_text@,
            )->Ask_0 && final(self).target_id == old(self).target_id && final(s).pending == Some(
                PendingTurn {
                    asker: old(self).asker_id,
                    target: old(self).target_id,
                    question: Some(final(self).question),
                },
            ) && has_activity(
                r.effects@,
                old(self).asker_id,
                "question"@,
                final(self).question@,
                Some(old(self).target_id),
            ),
            // After a recorded turn its asker is the one not to be asked straight back;
            // an AI about to ask does not put its question to them, unless the human
            // had to be brought back in or no one else could be asked.
            final(s).transcript@.len() == old(s).transcript@.len() + 1 ==> final(self).prev_asker
                == Some(final(s).transcript@.last().asker),
            final(self).stage == Stage::AwaitTurnReply || final(self).stage == Stage::AwaitAskReply
                ==> no_ask_back(*final(self), *final(s)),
            // A question the human puts to another existing seat goes to that seat.
            old(self).stage == Stage::AwaitQuestion && (event matches Event::Human(
                HumanInput::Question { target, text },
            )) && trim(crate::agents::clean_line_spec(event->Human_0->Question_text@)).len() > 0
                && event->Human_0->Question_target != old(self).asker_id && (
            event->Human_0->Question_target as int) < old(s).players@.len() ==> final(self).target_id
                == event->Human_0->Question_target,
            // Whoever answers asks next.
            final(s).transcript@.len() == old(s).transcript@.len() + 1 ==> final(self).asker_id
                == final(s).transcript@.last().target,
            // The human's answer is recorded, cleaned, as the answer of the turn in flight.
            old(self).stage == Stage::AwaitAnswer && (event matches Event::Human(
                HumanInput::Answer { text },
            )) ==> final(s).transcript@.len() == old(s).transcript@.len() + 1
                && final(s).transcript@.last().asker == old(self).asker_id && final(s).transcript@.last().target
                == old(self).target_id && final(s).transcript@.last().question == old(self).question
                && final(s).transcript@.last().answer@ == crate::agents::clean_line_spec(
                event->Human_0->Answer_text@,
            ) && has_activity(
                r.effects@,
                old(self).target_id,
                "answer"@,
                final(s).transcript@.last().answer@,
                Some(old(self).asker_id),
            ),
            // An AI's answer is recorded cleaned; a failed one as an ellipsis.
            old(self).stage == Stage::AwaitAnswerReply ==> final(s).transcript@.len()
                == old(s).transcript@.len() + 1
                && final(s).transcript@.last().asker == old(self).asker_id
                && final(s).transcript@.last().target == old(self).target_id
                && final(s).transcript@.last().answer@ == (match event {
                Event::Generated { text, .. } => crate::agents::clean_line_spec(text@),
                _ => "\u{2026}"@,
            }) && has_activity(
                r.effects@,
                old(self).target_id,
                "answer"@,
                final(s).transcript@.last().answer@,
                Some(old(self).asker_id),
            ),
            // The uninvited AI's guess ends the game, decided by the guess.
            old(self).stage == Stage::AwaitTurnReply && (event matches Event::Generated {
                text,
                ..
            }) && crate::agents::turn_reply_slices_ok(event->Generated_text@) && (
            crate::agents::parse_turn_spec(event->Generated_text@) matches
                crate::agents::TurnChoice::Guess(g)) ==> r.request is Stop && has_activity(
                r.effects@,
                old(self).asker_id,
                "guess"@,
                crate::agents::parse_turn_spec(event->Generated_text@)->Guess_0,
                None,
            ) && final(s).phase == Phase::Reveal && final(s).winner == Some(
                if old(s).scenario.spec_guess_matches(
                    crate::agents::parse_turn_spec(event->Generated_text@)->Guess_0,
                ) {
                    Side::Uninvited
                } else {
                    Side::Invited
                },
            ),
            // An AI's vote goes to the player its reply names first, else to another player.
            old(self).stage == Stage::AwaitVoteReply && (event matches Event::Generated {
                text,
                ..
            }) ==> ({
                let voter = old(self).ai_voters@[old(self).voter_index as int];
                &&& final(s).players@[voter as int].vote_for is Some
                &&& final(s).players@[voter as int].vote_for->0 != voter
                &&& final(s).players@[voter as int].vote_for->0 < final(s).players@.len()
                &&& has_activity(
                    r.effects@,
                    voter,
                    "vote"@,
                    final(s).players@[final(s).players@[voter as int].vote_for->0 as int].name@,
                    final(s).players@[voter as int].vote_for,
                )
                &&& (crate::agents::best_named(
                    old(s).players@,
                    voter,
                    event->Generated_text@,
                ) matches Some((_, id)) ==> final(s).players@[voter as int].vote_for == Some(id))
            }),
            // The vote: when it opens (outside Bartender mode) every AI seat is to vote,
            // in seat order; each AI reply, or its failure, moves on to the next voter;
            // once all have voted the human's vote is awaited, then the pause.
            old(s).phase == Phase::Questioning && final(s).phase == Phase::Voting
                && !old(self).bartender ==> final(self).ai_voters@ == ai_seats(
                old(s).players@.len() as int,
            ) && final(self).voter_index == 0 && !final(self).human_voted && final(self).stage
                == next_vote_stage(0, final(self).ai_voters@.len() as int, false),
            old(self).stage == Stage::AwaitVoteReply ==> final(self).voter_index == old(
                self,
            ).voter_index + 1 && final(self).ai_voters == old(self).ai_voters
                && final(self).human_voted == old(self).human_voted && final(self).stage
                == next_vote_stage(
                old(self).voter_index + 1,
                old(self).ai_voters@.len() as int,
                old(self).human_voted,
            ),
            old(self).stage == Stage::PollVote && !(event matches Event::Human(
                HumanInput::GuessLocation { text },
            )) ==> final(self).voter_index == old(self).voter_index && final(self).ai_voters
                == old(self).ai_voters && (if event is Human && !(event matches Event::Human(
                HumanInput::Vote { target },
            )) {
                final(self).stage == Stage::PollVote && !final(self).human_voted
            } else {
                final(self).stage == Stage::AwaitVoteReply && final(self).human_voted == (
                event matches Event::Human(HumanInput::Vote { target }))
            }),
            old(self).stage == Stage::AwaitVote && (event matches Event::Human(
                HumanInput::Vote { target },
            )) ==> final(self).stage == Stage::Pausing,
            old(self).stage == Stage::Pausing && event is Resumed ==> final(self).stage
                == Stage::Finished,
            // Calling the vote in Bartender mode opens it.
            old(self).stage == Stage::PollCallVote && (event matches Event::Human(
                HumanInput::CallVote,
            )) ==> final(s).phase == Phase::Voting,
            // The human's vote is taken as given.
            (old(self).stage == Stage::AwaitVote || old(self).stage == Stage::PollVote) && (
            event matches Event::Human(HumanInput::Vote { target })) ==> final(s).players@[0].vote_for
                == Some(event->Human_0->Vote_target),
            // After the pause the votes decide the game.
            old(self).stage == Stage::Pausing && event is Resumed && votes_in_range(old(s).players@)
                ==> r.request is Stop && final(s).phase == Phase::Reveal && final(s).winner == Some(
                crate::game::vote_result(old(s).players@),
            ),
    {
        let mut fx: Vec<Effect> = Vec::new();
        proof {
            lemma_same_game_later_refl(*s);
            lemma_published_none(fx@, *s, *s);
        }
        let request = match self.stage {
            Stage::Starting | Stage::Finished => {
                self.stage = Stage::Finished;
                Request::Stop
            },
            Stage::PollCallVote => match event {
                Event::Human(HumanInput::CallVote) => self.begin_voting(s, &mut fx),
                Event::Human(_) => Request::PollHuman,
                _ => self.start_turn(s, &mut fx),
            },
            Stage::AwaitQuestion => match event {
                Event::Closed => {
                    self.stage = Stage::Finished;
                    Request::Stop
                },
                Event::Human(HumanInput::Question { target, text }) => {
                    if target != self.asker_id && (target as usize) < s.players.len() {
                        self.target_id = target;
                    }
                    let question = clean_line(text.as_str());
                    s.awaiting = None;
                    proof {
                        assert(s.transcript@.take(old(s).transcript@.len() as int)
                            =~= old(s).transcript@);
                    }
                    let ghost mid = *s;
                    let r = self.after_question(s, &mut fx, question);
                    proof {
                        lemma_same_game_later_trans(*old(s), mid, *s);
                        lemma_same_game_later_refl(*s);
                        lemma_published_widen(Seq::empty(), fx@, mid, *s, *old(s), *s);
                    }
                    r
                },
                Event::Human(HumanInput::GuessLocation { text }) => self.end_with_guess(
                    s,
                    &mut fx,
                    HUMAN_ID,
                    text,
                ),
                _ => Request::WaitForHuman,
            },
            Stage::AwaitTurnReply => match event {
                Event::Generated { text, thinking } => {
                    self.emit_thinking(&mut fx, self.asker_id, &thinking);
                    let ghost f1 = fx@;
                    proof {
                        assert(published(Seq::empty(), f1, *old(s), *old(s)));
                    }
                    match try_parse_uninvited_turn(text.as_str()) {
                        None => {
                            self.stage = Stage::Finished;
                            Request::Stop
                        },
                        Some(UninvitedAction::Guess(g)) => {
                            emit_activity(&mut fx, self.asker_id, "guess", g.clone(), None);
                            let ghost f2 = fx@;
                            proof {
                                assert(published(f1, f2, *old(s), *old(s)));
                                lemma_published_chain(Seq::empty(), f1, f2, *old(s), *old(s), *old(s));
                            }
                            proof {
                                lemma_activity_last(f2, old(self).asker_id, "guess"@, g@, None);
                            }
                            let r = self.end_with_guess(s, &mut fx, self.asker_id, g);
                            proof {
                                lemma_published_chain(Seq::empty(), f2, fx@, *old(s), *old(s), *s);
                                lemma_activity_kept(f2, fx@, old(self).asker_id, "guess"@, g@, None);
                            }
                            r
                        },
                        Some(UninvitedAction::Ask(q)) => {
                            let r = self.after_question(s, &mut fx, q);
                            proof {
                                lemma_published_chain(Seq::empty(), f1, fx@, *old(s), *old(s), *s);
                            }
                            r
                        },
                    }
                },
                _ => self.skip_turn(s, &mut fx),
            },
            Stage::AwaitAskReply => match event {
                Event::Generated { text, thinking } => {
                    self.emit_thinking(&mut fx, self.asker_id, &thinking);
                    let ghost f1 = fx@;
                    proof {
                        assert(published(Seq::empty(), f1, *old(s), *old(s)));
                    }
                    let question = clean_line(text.as_str());
                    let r = self.after_question(s, &mut fx, question);
                    proof {
                        lemma_published_chain(Seq::empty(), f1, fx@, *old(s), *old(s), *s);
                    }
                    r
                },
                _ => self.skip_turn(s, &mut fx),
            },
            Stage::AwaitAnswer => match event {
                Event::Closed => {
                    self.stage = Stage::Finished;
                    Request::Stop
                },
                Event::Human(HumanInput::Answer { text }) => {
                    let answer = clean_line(text.as_str());
                    self.record_answer(s, &mut fx, answer)
                },
                Event::Human(HumanInput::GuessLocation { text }) => self.end_with_guess(
                    s,
                    &mut fx,
                    HUMAN_ID,
                    text,
                ),
                _ => Request::WaitForHuman,
            },
            Stage::AwaitAnswerReply => match event {
                Event::Generated { text, thinking } => {
                    self.emit_thinking(&mut fx, self.target_id, &thinking);
                    let ghost f1 = fx@;
                    proof {
                        assert(published(Seq::empty(), f1, *old(s), *old(s)));
                    }
                    let answer = clean_line(text.as_str());
                    let r = self.record_answer(s, &mut fx, answer);
                    proof {
                        lemma_published_chain(Seq::empty(), f1, fx@, *old(s), *old(s), *s);
                    }
                    r
                },
                _ => self.record_answer(s, &mut fx, String::from_str("\u{2026}")),
            },
            Stage::PollVote => match event {
                Event::Human(HumanInput::Vote { target }) => {
                    let ghost s0 = *s;
                    self.take_human_vote(s, &mut fx, target);
                    let ghost mid = *s;
                    let ghost f1 = fx@;
                    let r = self.start_ai_vote(s, &mut fx);
                    proof {
                        lemma_same_game_later_trans(s0, mid, *s);
                        lemma_published_chain(Seq::empty(), f1, fx@, *old(s), mid, *s);
                    }
                    r
                },
                Event::Human(HumanInput::GuessLocation { text }) => self.end_with_guess(
                    s,
                    &mut fx,
                    HUMAN_ID,
                    text,
                ),
                Event::Human(_) => Request::PollHuman,
                _ => self.start_ai_vote(s, &mut fx),
            },
            Stage::AwaitVoteReply => {
                let vi = self.voter_index;
                assert(vi < self.ai_voters.len());
                let voter_id = self.ai_voters[vi];
                let ghost s0 = *s;
                match event {
                    Event::Generated { text, thinking } => {
                        self.emit_thinking(&mut fx, voter_id, &thinking);
                        let ghost f1 = fx@;
                        proof {
                            assert(s.players@[1].id == 1);
                            assert(s.players@[2].id == 2);
                            assert(voter_id != 1 ==> s.players@[1].id != voter_id);
                        }
                        let target = parse_vote(s, voter_id, text.as_str());
                        proof {
                            if crate::agents::best_named(s.players@, voter_id, text@) is None {
                                assert(s.other_ids_spec(voter_id).contains(target));
                                let ids = crate::game::ids_of(s.players@);
                                ids.lemma_filter_contains_rev(crate::game::id_differs(voter_id), target);
                                assert(ids.contains(target));
                                let j = choose|j: int| 0 <= j < ids.len() && ids[j] == target;
                                assert(s.players@[j].id == target);
                            } else {
                                crate::agents::lemma_best_named_is_player(s.players@, voter_id, text@);
                            }
                        }
                        set_vote(s, voter_id as usize, target);
                        proof {
                            lemma_set_vote_keeps(s0, *s, voter_id as int, target);
                        }
                        let ghost s1 = *s;
                        s.thinking = None;
                        let name = s.player(target).name.clone();
                        emit_activity(&mut fx, voter_id, "vote", name, Some(target));
                        proof {
                            lemma_activity_last(fx@, voter_id, "vote"@, s.players@[target as int].name@, Some(target));
                            assert(s.transcript@.take(s1.transcript@.len() as int) =~= s1.transcript@);
                            lemma_same_game_later_trans(s0, s1, *s);
                        }
                        let ghost f2 = fx@;
                        emit_state(&mut fx, s);
                        proof {
                            assert(published(Seq::empty(), f2, *old(s), *old(s))) by {
                                assert(published(Seq::empty(), f1, *old(s), *old(s)));
                                assert(published(f1, f2, *old(s), *old(s)));
                                lemma_published_chain(Seq::empty(), f1, f2, *old(s), *old(s), *old(s));
                            }
                            lemma_same_game_later_refl(*s);
                            lemma_published_widen(f2, fx@, *s, *s, *old(s), *s);
                            lemma_published_chain(Seq::empty(), f2, fx@, *old(s), *old(s), *s);
                            lemma_activity_kept(f2, fx@, voter_id, "vote"@, s.players@[target as int].name@, Some(target));
                            assert(s.players@[voter_id as int].vote_for == Some(target));
                        }
                    },
                    _ => {
                        s.thinking = None;
                        proof {
                            assert(s.transcript@.take(s0.transcript@.len() as int) =~= s0.transcript@);
                        }
                        emit_state(&mut fx, s);
                        proof {
                            lemma_same_game_later_refl(*s);
                            lemma_published_widen(Seq::empty(), fx@, *s, *s, *old(s), *s);
                        }
                    },
                }
                self.voter_index = vi + 1;
                let ghost mid = *s;
                let ghost f3 = fx@;
                let r = self.next_vote(s, &mut fx);
                proof {
                    lemma_same_game_later_trans(s0, mid, *s);
                    lemma_published_chain(Seq::empty(), f3, fx@, *old(s), mid, *s);
                    let t = mid.players@[voter_id as int].vote_for->0;
                    if has_activity(f3, voter_id, "vote"@, mid.players@[t as int].name@, Some(t)) {
                        lemma_activity_kept(f3, fx@, voter_id, "vote"@, mid.players@[t as int].name@, Some(t));
                    }
                }
                r
            },
            Stage::AwaitVote => match event {
                Event::Closed => {
                    self.stage = Stage::Finished;
                    Request::Stop
                },
                Event::Human(HumanInput::Vote { target }) => {
                    self.take_human_vote(s, &mut fx, target);
                    self.stage = Stage::Pausing;
                    Request::Pause
                },
                Event::Human(HumanInput::GuessLocation { text }) => self.end_with_guess(
                    s,
                    &mut fx,
                    HUMAN_ID,
                    text,
                ),
                _ => Request::WaitForHuman,
            },
            Stage::Pausing => match event {
                Event::Resumed => {
                    if votes_ok(s) {
                        let ghost s0 = *s;
                        s.resolve_votes();
                        proof {
                            assert(s.transcript@.take(s0.transcript@.len() as int) =~= s0.transcript@);
                        }
                        emit_state(&mut fx, s);
                        proof {
                            lemma_same_game_later_refl(*s);
                            lemma_published_widen(Seq::empty(), fx@, *s, *s, *old(s), *s);
                        }
                    }
                    self.stage = Stage::Finished;
                    Request::Stop
                },
                _ => Request::Pause,
            },
        };
        proof {
            lemma_reveal_last(fx@, *old(s), *s);
        }
        Step { effects: fx, request }
    }
}

} // verus!

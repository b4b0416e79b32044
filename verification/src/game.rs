//! Core game state: players, roles, the public transcript, and the rules
//! (role assignment, vote tally, win conditions). `GameSession` holds the
//! full truth, secrets included; `GameView` is the snapshot filtered to what
//! the human may know.
use vstd::prelude::*;
use vstd::string::StringExecFns;
use crate::random::{pick_one, shuffle};
use crate::scenarios::Scenario;
use crate::text::{parse_u8, parse_u8_spec};

verus! {

/// The human is always player 0.
pub const HUMAN_ID: u8 = 0;

/// The number of questioning rounds when the setting does not give a valid `u8`.
pub const DEFAULT_ROUNDS: u8 = 2;

#[derive(Clone, Copy, PartialEq, Eq, Debug, Structural)]
pub enum Side {
    Invited,
    Uninvited,
}

pub enum Role {
    Invited { party_role: String },
    Uninvited,
}

impl Role {
    pub open spec fn spec_side(&self) -> Side {
        match self {
            Role::Invited { .. } => Side::Invited,
            Role::Uninvited => Side::Uninvited,
        }
    }

    #[verifier::when_used_as_spec(spec_side)]
    pub fn side(&self) -> (r: Side)
        ensures
            r == self.spec_side(),
    {
        match self {
            Role::Invited { .. } => Side::Invited,
            Role::Uninvited => Side::Uninvited,
        }
    }
}

impl Clone for Role {
    fn clone(&self) -> (r: Self)
        ensures
            r == *self,
    {
        match self {
            Role::Invited { party_role } => Role::Invited { party_role: party_role.clone() },
            Role::Uninvited => Role::Uninvited,
        }
    }
}

pub struct Player {
    pub id: u8,
    pub name: String,
    pub is_human: bool,
    pub role: Role,
    pub vote_for: Option<u8>,
}

impl Clone for Player {
    fn clone(&self) -> (r: Self)
        ensures
            r == *self,
    {
        Player {
            id: self.id,
            name: self.name.clone(),
            is_human: self.is_human,
            role: self.role.clone(),
            vote_for: self.vote_for,
        }
    }
}

pub struct Turn {
    pub asker: u8,
    pub target: u8,
    pub question: String,
    pub answer: String,
}

impl Clone for Turn {
    fn clone(&self) -> (r: Self)
        ensures
            r == *self,
    {
        Turn {
            asker: self.asker,
            target: self.target,
            question: self.question.clone(),
            answer: self.answer.clone(),
        }
    }
}

/// The exchange in flight, shown before its answer exists. `question: None`
/// means the asker is still composing it.
pub struct PendingTurn {
    pub asker: u8,
    pub target: u8,
    pub question: Option<String>,
}

impl Clone for PendingTurn {
    fn clone(&self) -> (r: Self)
        ensures
            r == *self,
    {
        PendingTurn {
            asker: self.asker,
            target: self.target,
            question: match &self.question {
                Some(q) => Some(q.clone()),
                None => None,
            },
        }
    }
}

#[derive(Clone, Copy, PartialEq, Eq, Debug, Structural)]
pub enum Phase {
    Questioning,
    Voting,
    Reveal,
}

/// What input the UI must collect from the human right now.
pub enum Awaiting {
    /// The human asks `target` a question (or guesses, if uninvited).
    Question { target: u8 },
    /// The human answers the question `asker` posed.
    Answer { asker: u8, question: String },
    /// The human picks who is uninvited.
    Vote,
}

impl Clone for Awaiting {
    fn clone(&self) -> (r: Self)
        ensures
            r == *self,
    {
        match self {
            Awaiting::Question { target } => Awaiting::Question { target: *target },
            Awaiting::Answer { asker, question } => Awaiting::Answer {
                asker: *asker,
                question: question.clone(),
            },
            Awaiting::Vote => Awaiting::Vote,
        }
    }
}

/// How the human takes part. `Bartender` is invited-side but stays out of the
/// questioning and is the only voter.
#[derive(Clone, Copy, PartialEq, Eq, Debug, Structural)]
pub enum GameMode {
    Invited,
    Outsider,
    Bartender,
}

#[derive(Clone, Copy, PartialEq, Eq, Debug, Structural)]
pub struct GameConfig {
    pub mode: GameMode,
    /// Number of AI players (clamped to 2..=8).
    pub ai_count: u8,
}

pub struct LocationGuess {
    pub player: u8,
    pub guess: String,
    pub correct: bool,
}

pub struct GameSession {
    pub scenario: Scenario,
    pub players: Vec<Player>,
    pub transcript: Vec<Turn>,
    pub phase: Phase,
    pub round: u8,
    pub rounds_total: u8,
    pub mode: GameMode,
    pub awaiting: Option<Awaiting>,
    /// The in-flight question/answer exchange, shown before the answer lands.
    pub pending: Option<PendingTurn>,
    /// The AI currently generating, shown as thinking.
    pub thinking: Option<u8>,
    pub guess: Option<LocationGuess>,
    pub winner: Option<Side>,
}

// -- frontend-facing snapshot ----------------------------------------------

pub struct PlayerView {
    pub id: u8,
    pub name: String,
    pub is_human: bool,
    pub side: Option<Side>,
}

#[derive(Clone, Copy, PartialEq, Eq, Debug, Structural)]
pub struct VoteView {
    pub voter: u8,
    /// The voted-for player, or `None` while the vote is masked (before the reveal).
    pub target: Option<u8>,
}

pub struct GuessView {
    pub player: u8,
    pub guess: String,
    pub correct: bool,
}

pub struct GameView {
    pub phase: Phase,
    pub players: Vec<PlayerView>,
    pub human_id: u8,
    pub human_invited: bool,
    pub mode: GameMode,
    pub party_role: Option<String>,
    pub occasion: Option<String>,
    pub location: Option<String>,
    pub round: u8,
    pub rounds_total: u8,
    pub transcript: Vec<Turn>,
    pub awaiting: Option<Awaiting>,
    pub pending: Option<PendingTurn>,
    pub thinking: Option<u8>,
    pub votes: Option<Vec<VoteView>>,
    pub uninvited_id: Option<u8>,
    pub winner: Option<Side>,
    pub guess: Option<GuessView>,
}

// -- rules as spec functions ------------------------------------------------

/// Some player is on the uninvited side.
pub open spec fn has_uninvited(ps: Seq<Player>) -> bool {
    exists|i: int| 0 <= i < ps.len() && (#[trigger] ps[i]).role is Uninvited
}

/// `i` is the first player on the uninvited side.
pub open spec fn is_first_uninvited(ps: Seq<Player>, i: int) -> bool {
    &&& 0 <= i < ps.len()
    &&& ps[i].role is Uninvited
    &&& forall|j: int| 0 <= j < i ==> (#[trigger] ps[j]).role is Invited
}

/// The number of votes cast for player index `i`.
pub open spec fn votes_for(ps: Seq<Player>, i: int) -> nat
    decreases ps.len(),
{
    if ps.len() == 0 {
        0
    } else {
        votes_for(ps.drop_last(), i) + if ps.last().vote_for matches Some(t) && t as int == i {
            1nat
        } else {
            0nat
        }
    }
}

/// Player index `l` has a strict plurality: at least one vote, and more than every other player.
pub open spec fn sole_leader(ps: Seq<Player>, l: int) -> bool {
    &&& 0 <= l < ps.len()
    &&& votes_for(ps, l) > 0
    &&& forall|j: int| 0 <= j < ps.len() && j != l ==> votes_for(ps, j) < votes_for(ps, l)
}

/// Every vote names an existing player index.
pub open spec fn votes_in_range(ps: Seq<Player>) -> bool {
    forall|i: int| 0 <= i < ps.len() ==> ((#[trigger] ps[i]).vote_for matches Some(t) ==> t < ps.len())
}

/// The vote snapshot: one entry per player who has voted, in seat order; the
/// target shows only at the reveal, or for the human's own vote.
pub open spec fn vote_views(ps: Seq<Player>, revealed: bool) -> Seq<VoteView>
    decreases ps.len(),
{
    if ps.len() == 0 {
        Seq::empty()
    } else {
        let rest = vote_views(ps.drop_last(), revealed);
        let p = ps.last();
        match p.vote_for {
            Some(t) => rest.push(
                VoteView {
                    voter: p.id,
                    target: if revealed || p.id == HUMAN_ID {
                        Some(t)
                    } else {
                        None
                    },
                },
            ),
            None => rest,
        }
    }
}

/// `x` clamped to `lo..=hi`.
pub open spec fn clamp_spec(x: u8, lo: u8, hi: u8) -> u8 {
    if x < lo {
        lo
    } else if x > hi {
        hi
    } else {
        x
    }
}

/// The names the AI guests are drawn from.
pub open spec fn ai_names_spec() -> Seq<Seq<char>> {
    seq![
        "Mia"@,
        "Leo"@,
        "Zoe"@,
        "Kai"@,
        "Nora"@,
        "Theo"@,
        "Iris"@,
        "Felix"@,
        "Ruby"@,
        "Otis"@,
        "Luna"@,
        "Gus"@,
    ]
}

/// `role` is invited with the party role `name`.
pub open spec fn has_party_role(role: Role, name: Seq<char>) -> bool {
    match role {
        Role::Invited { party_role } => party_role@ == name,
        Role::Uninvited => false,
    }
}

/// The party role dealt to the `k`-th invited player from the shuffled roles.
pub open spec fn dealt_role(dealt: Seq<String>, k: int) -> Seq<char> {
    if 0 <= k < dealt.len() {
        dealt[k]@
    } else {
        "a guest"@
    }
}

/// The seat of player `i` among the invited players, when player `u` is the uninvited one.
pub open spec fn invited_rank(i: int, u: int) -> int {
    if i < u {
        i
    } else {
        i - 1
    }
}

/// The players of a fresh game: seat `i` has id `i`, seat 0 is the human
/// ("You"), the others carry AI names; `u` is the only uninvited seat, and the
/// invited seats hold the roles of `dealt` in seat order ("a guest" once they run out).
pub open spec fn dealt_players(ps: Seq<Player>, n: int, u: int, dealt: Seq<String>) -> bool {
    &&& ps.len() == n
    &&& forall|i: int|
        #![trigger ps[i]]
        0 <= i < n ==> {
            &&& ps[i].id == i
            &&& ps[i].is_human == (i == 0)
            &&& ps[i].vote_for is None
            &&& (i == 0 ==> ps[i].name@ == "You"@)
            &&& (i > 0 ==> ai_names_spec().contains(ps[i].name@))
            &&& (i == u ==> ps[i].role is Uninvited)
            &&& (i != u ==> has_party_role(ps[i].role, dealt_role(dealt, invited_rank(i, u))))
        }
    &&& forall|i: int, j: int| 1 <= i < j < n ==> ps[i].name@ != ps[j].name@
}

/// The number of questioning rounds from the `UNINVITED_ROUNDS` setting: its
/// value when it parses as a `u8`, else two.
pub fn rounds_total(setting: Option<String>) -> (r: u8)
    ensures
        r == match setting {
            Some(v) => match parse_u8_spec(v@) {
                Some(n) => n,
                None => DEFAULT_ROUNDS,
            },
            None => DEFAULT_ROUNDS,
        },
{
    match setting {
        Some(v) => match parse_u8(v.as_str()) {
            Some(n) => n,
            None => DEFAULT_ROUNDS,
        },
        None => DEFAULT_ROUNDS,
    }
}

/// The number of seats of a game: the human and the clamped number of AI guests.
pub open spec fn seat_count(cfg: GameConfig) -> int {
    clamp_spec(cfg.ai_count, 2, 8) + 1
}

/// `x` clamped to `lo..=hi`.
pub fn clamp(x: u8, lo: u8, hi: u8) -> (r: u8)
    requires
        lo <= hi,
    ensures
        r == clamp_spec(x, lo, hi),
{
    if x < lo {
        lo
    } else if x > hi {
        hi
    } else {
        x
    }
}

fn ai_names() -> (r: Vec<String>)
    ensures
        r@.map_values(|s: String| s@) == ai_names_spec(),
{
    let r = vec![
        String::from_str("Mia"),
        String::from_str("Leo"),
        String::from_str("Zoe"),
        String::from_str("Kai"),
        String::from_str("Nora"),
        String::from_str("Theo"),
        String::from_str("Iris"),
        String::from_str("Felix"),
        String::from_str("Ruby"),
        String::from_str("Otis"),
        String::from_str("Luna"),
        String::from_str("Gus"),
    ];
    assert(r@.map_values(|s: String| s@) =~= ai_names_spec());
    r
}

/// The winning side of a finished vote: the invited side when one player index
/// has a strict plurality and, taken modulo 256, equals the id of the first
/// uninvited player.
pub open spec fn vote_result(ps: Seq<Player>) -> Side {
    if exists|l: int, i: int|
        #[trigger] sole_leader(ps, l) && #[trigger] is_first_uninvited(ps, i) && l % 256
            == ps[i].id as int {
        Side::Invited
    } else {
        Side::Uninvited
    }
}

/// At most one player index has a strict plurality.
pub proof fn lemma_sole_leader_unique(ps: Seq<Player>)
    ensures
        forall|a: int, b: int| sole_leader(ps, a) && sole_leader(ps, b) ==> a == b,
{
}

/// At most one player is the first uninvited one.
pub proof fn lemma_first_uninvited_unique(ps: Seq<Player>)
    ensures
        forall|a: int, b: int| is_first_uninvited(ps, a) && is_first_uninvited(ps, b) ==> a == b,
{
    assert forall|a: int, b: int| is_first_uninvited(ps, a) && is_first_uninvited(ps, b) implies a
        == b by {
        if a < b {
            assert(ps[a].role is Invited);
        } else if b < a {
            assert(ps[b].role is Invited);
        }
    }
}

/// The ids of the players, in seat order.
pub open spec fn ids_of(ps: Seq<Player>) -> Seq<u8> {
    ps.map_values(|p: Player| p.id)
}

/// The test "is not `except`" on ids.
pub open spec fn id_differs(except: u8) -> spec_fn(u8) -> bool {
    |id: u8| id != except
}

impl GameSession {
    pub open spec fn spec_human_invited(&self) -> bool {
        self.mode != GameMode::Outsider
    }

    pub open spec fn spec_bartender_mode(&self) -> bool {
        self.mode == GameMode::Bartender
    }

    /// Every turn of the transcript names existing players.
    pub open spec fn turns_in_range(&self) -> bool {
        forall|k: int|
            0 <= k < self.transcript@.len() ==> (#[trigger] self.transcript@[k]).asker
                < self.players@.len() && self.transcript@[k].target < self.players@.len()
    }

    /// The ids of every player but `except`, in seat order.
    pub open spec fn other_ids_spec(&self, except: u8) -> Seq<u8> {
        ids_of(self.players@).filter(id_differs(except))
    }

    /// A player whose id is not `except` has its id among `other_ids_spec(except)`.
    pub proof fn lemma_other_ids_contains(&self, except: u8, w: int)
        requires
            0 <= w < self.players@.len(),
            self.players@[w].id != except,
        ensures
            self.other_ids_spec(except).contains(self.players@[w].id),
            self.other_ids_spec(except).len() > 0,
    {
        let ids = ids_of(self.players@);
        let pred = id_differs(except);
        broadcast use vstd::seq_lib::group_filter_ensures;
        assert(ids[w] == self.players@[w].id);
        assert(ids.contains(ids[w]));
        assert(ids.filter(pred).contains(ids[w]));
    }

    /// The player in seat `id`.
    pub fn player(&self, id: u8) -> (r: &Player)
        requires
            id < self.players@.len(),
        ensures
            *r == self.players@[id as int],
    {
        &self.players[id as usize]
    }

    /// The id of the first player on the uninvited side.
    pub fn uninvited_id(&self) -> (r: u8)
        requires
            has_uninvited(self.players@),
        ensures
            exists|i: int| is_first_uninvited(self.players@, i) && r == self.players@[i].id,
    {
        let n = self.players.len();
        let mut i: usize = 0;
        while i < n
            invariant
                0 <= i <= n,
                n == self.players@.len(),
                has_uninvited(self.players@),
                forall|j: int| 0 <= j < i ==> (#[trigger] self.players@[j]).role is Invited,
            decreases n - i,
        {
            if self.players[i].role.side() == Side::Uninvited {
                assert(is_first_uninvited(self.players@, i as int));
                return self.players[i].id;
            }
            i += 1;
        }
        assert(false);
        0
    }

    /// The ids of every player but `except`, in seat order.
    pub fn other_ids(&self, except: u8) -> (r: Vec<u8>)
        ensures
            r@ == self.other_ids_spec(except),
    {
        let n = self.players.len();
        let ghost ids = ids_of(self.players@);
        let ghost pred = id_differs(except);
        let mut r: Vec<u8> = Vec::new();
        let mut i: usize = 0;
        assert(ids.take(0).filter(pred) =~= Seq::<u8>::empty()) by {
            reveal_with_fuel(Seq::<_>::filter, 1);
        }
        while i < n
            invariant
                0 <= i <= n,
                n == self.players@.len(),
                ids == ids_of(self.players@),
                pred == id_differs(except),
                r@ == ids.take(i as int).filter(pred),
            decreases n - i,
        {
            assert(ids.take(i + 1).drop_last() =~= ids.take(i as int));
            reveal_with_fuel(Seq::<_>::filter, 1);
            let id = self.players[i].id;
            if id != except {
                r.push(id);
            }
            i += 1;
        }
        assert(ids.take(n as int) =~= ids);
        r
    }

    /// The human is on the invited side (knows the party) in every mode but `Outsider`.
    #[verifier::when_used_as_spec(spec_human_invited)]
    pub fn human_invited(&self) -> (r: bool)
        ensures
            r == self.spec_human_invited(),
    {
        self.mode != GameMode::Outsider
    }

    /// In Bartender mode the human only watches the questioning and is the lone voter.
    #[verifier::when_used_as_spec(spec_bartender_mode)]
    pub fn bartender_mode(&self) -> (r: bool)
        ensures
            r == self.spec_bartender_mode(),
    {
        self.mode == GameMode::Bartender
    }

    /// Records a location guess; a correct one ends the game with the uninvited side winning.
    pub fn record_guess(&mut self, player: u8, guess: String) -> (r: bool)
        ensures
            r == old(self).scenario.spec_guess_matches(guess@),
            *final(self) == (GameSession {
                guess: Some(LocationGuess { player, guess, correct: r }),
                winner: if r {
                    Some(Side::Uninvited)
                } else {
                    old(self).winner
                },
                phase: if r {
                    Phase::Reveal
                } else {
                    old(self).phase
                },
                ..*old(self)
            }),
    {
        let correct = self.scenario.guess_matches(guess.as_str());
        self.guess = Some(LocationGuess { player, guess, correct });
        if correct {
            self.winner = Some(Side::Uninvited);
            self.phase = Phase::Reveal;
        }
        correct
    }

    /// Tallies the votes and decides the winner: the invited side wins only when
    /// one player has a strict plurality and is the uninvited one; the game
    /// moves to the reveal.
    pub fn resolve_votes(&mut self) -> (r: Side)
        requires
            votes_in_range(old(self).players@),
            old(self).players@.len() <= u32::MAX,
            (exists|l: int| sole_leader(old(self).players@, l)) ==> has_uninvited(old(self).players@),
        ensures
            r == vote_result(old(self).players@),
            *final(self) == (GameSession { winner: Some(r), phase: Phase::Reveal, ..*old(self) }),
    {
        let n = self.players.len();
        let ghost ps = self.players@;
        let mut tally: Vec<u32> = Vec::new();
        let mut i: usize = 0;
        while i < n
            invariant
                0 <= i <= n,
                tally@.len() == i,
                forall|j: int| 0 <= j < i ==> tally@[j] == 0,
            decreases n - i,
        {
            tally.push(0);
            i += 1;
        }
        let mut k: usize = 0;
        assert(ps.take(0) =~= Seq::<Player>::empty());
        while k < n
            invariant
                0 <= k <= n,
                n == ps.len(),
                ps == self.players@,
                n <= u32::MAX,
                votes_in_range(ps),
                tally@.len() == n,
                forall|j: int| 0 <= j < n ==> tally@[j] == votes_for(ps.take(k as int), j),
                forall|j: int| 0 <= j < n ==> votes_for(ps.take(k as int), j) <= k,
            decreases n - k,
        {
            assert(ps.take(k + 1).drop_last() =~= ps.take(k as int));
            assert(ps.take(k + 1).last() == ps[k as int]);
            assert forall|j: int| 0 <= j < n implies #[trigger] votes_for(ps.take(k + 1), j) <= k + 1 by {
                assert(votes_for(ps.take(k as int), j) <= k);
            }
            if let Some(t) = self.players[k].vote_for {
                assert(ps[k as int].vote_for == Some(t));
                let cur = tally[t as usize];
                tally.set(t as usize, cur + 1);
            }
            k += 1;
        }
        assert(ps.take(n as int) =~= ps);
        let mut max: u32 = 0;
        let mut a: usize = 0;
        while a < n
            invariant
                0 <= a <= n,
                tally@.len() == n,
                forall|j: int| 0 <= j < a ==> tally@[j] <= max,
                a > 0 ==> exists|j: int| 0 <= j < a && tally@[j] == max,
                a == 0 ==> max == 0,
            decreases n - a,
        {
            if tally[a] > max {
                max = tally[a];
            }
            a += 1;
        }
        let mut count: usize = 0;
        let mut first: usize = 0;
        let mut b: usize = 0;
        while b < n
            invariant
                0 <= b <= n,
                tally@.len() == n,
                count <= b,
                count == 0 ==> forall|j: int| 0 <= j < b ==> !(tally@[j] == max && max > 0),
                count >= 1 ==> first < b && tally@[first as int] == max && max > 0,
                count >= 1 ==> forall|j: int|
                    0 <= j < first ==> !(tally@[j] == max && max > 0),
                count == 1 ==> forall|j: int|
                    0 <= j < b && j != first ==> !(tally@[j] == max && max > 0),
                count >= 2 ==> exists|j: int|
                    0 <= j < b && j != first && tally@[j] == max && max > 0,
            decreases n - b,
        {
            if tally[b] == max && max > 0 {
                if count == 0 {
                    first = b;
                }
                count += 1;
            }
            b += 1;
        }
        proof {
            if count != 1 {
                assert forall|l: int| !sole_leader(ps, l) by {
                    if sole_leader(ps, l) {
                        assert(tally@[l] == votes_for(ps, l));
                        assert forall|j: int| 0 <= j < n implies tally@[j] <= tally@[l] by {
                            if j != l {
                                assert(tally@[j] == votes_for(ps, j));
                            }
                        }
                        let w = choose|j: int| 0 <= j < n && tally@[j] == max;
                        if w != l {
                            assert(tally@[w] == votes_for(ps, w));
                        }
                        assert(tally@[l] == max);
                        if count == 0 {
                            assert(!(tally@[l] == max && max > 0));
                        } else {
                            let x = choose|j: int|
                                0 <= j < n && j != first && tally@[j] == max && max > 0;
                            if x != l {
                                assert(tally@[x] == votes_for(ps, x));
                            } else {
                                assert(tally@[first as int] == votes_for(ps, first as int));
                            }
                        }
                    }
                }
            }
        }
        let winner = if count == 1 {
            proof {
                assert(tally@[first as int] == votes_for(ps, first as int));
                assert forall|j: int| 0 <= j < ps.len() && j != first implies votes_for(ps, j)
                    < votes_for(ps, first as int) by {
                    assert(tally@[j] == votes_for(ps, j));
                    assert(tally@[j] <= max);
                }
                assert(sole_leader(ps, first as int));
            }
            let u = self.uninvited_id();
            let ghost ui = choose|i: int| is_first_uninvited(ps, i) && u == ps[i].id;
            proof {
                lemma_sole_leader_unique(ps);
                lemma_first_uninvited_unique(ps);
            }
            if (first % 256) as u8 == u {
                assert(sole_leader(ps, first as int) && is_first_uninvited(ps, ui) && (first as int)
                    % 256 == ps[ui].id as int);
                Side::Invited
            } else {
                Side::Uninvited
            }
        } else {
            Side::Uninvited
        };
        self.winner = Some(winner);
        self.phase = Phase::Reveal;
        winner
    }
}

/// A player as the snapshot shows them: the side only at the reveal.
pub open spec fn player_view(p: Player, revealed: bool) -> PlayerView {
    PlayerView {
        id: p.id,
        name: p.name,
        is_human: p.is_human,
        side: if revealed {
            Some(p.role.spec_side())
        } else {
            None
        },
    }
}

/// The party role of an invited player.
pub open spec fn party_role_of(role: Role) -> Option<String> {
    match role {
        Role::Invited { party_role } => Some(party_role),
        Role::Uninvited => None,
    }
}

/// The snapshot of a location guess.
pub open spec fn guess_view(g: Option<LocationGuess>) -> Option<GuessView> {
    match g {
        Some(g) => Some(GuessView { player: g.player, guess: g.guess, correct: g.correct }),
        None => None,
    }
}

/// `v` is the snapshot of `s` that the human may see: every player's side,
/// the uninvited seat, whom the AI players voted for and the winner stay
/// hidden until the reveal, and the party until then from an uninvited human.
pub open spec fn is_view_of(v: GameView, s: GameSession) -> bool {
    let revealed = s.phase == Phase::Reveal;
    &&& v.phase == s.phase
    &&& v.players@ == s.players@.map_values(|p: Player| player_view(p, revealed))
    &&& v.human_id == HUMAN_ID
    &&& v.human_invited == s.spec_human_invited()
    &&& v.mode == s.mode
    &&& v.party_role == party_role_of(s.players@[0].role)
    &&& v.occasion == if s.spec_human_invited() || revealed {
        Some(s.scenario.occasion)
    } else {
        None::<String>
    }
    &&& v.location == if s.spec_human_invited() || revealed {
        Some(s.scenario.location)
    } else {
        None::<String>
    }
    &&& v.round == s.round
    &&& v.rounds_total == s.rounds_total
    &&& v.transcript@ == s.transcript@
    &&& v.awaiting == s.awaiting
    &&& v.pending == s.pending
    &&& v.thinking == s.thinking
    &&& (v.votes is Some <==> s.phase != Phase::Questioning)
    &&& (v.votes matches Some(tally) ==> tally@ == vote_views(s.players@, revealed))
    &&& (revealed ==> exists|i: int|
        is_first_uninvited(s.players@, i) && v.uninvited_id == Some(
            s.players@[i].id,
        ))
    &&& (!revealed ==> v.uninvited_id is None)
    &&& v.winner == if revealed {
        s.winner
    } else {
        None
    }
    &&& v.guess == guess_view(s.guess)
}

impl GameSession {
    /// The snapshot for the webview, filtered to the human's knowledge.
    pub fn view(&self) -> (r: GameView)
        requires
            self.players@.len() > 0,
            self.phase == Phase::Reveal ==> has_uninvited(self.players@),
        ensures
            is_view_of(r, *self),
    {
        let revealed = self.phase == Phase::Reveal;
        let n = self.players.len();
        let mut players: Vec<PlayerView> = Vec::new();
        let mut i: usize = 0;
        while i < n
            invariant
                0 <= i <= n,
                n == self.players@.len(),
                revealed == (self.phase == Phase::Reveal),
                players@ == self.players@.take(i as int).map_values(
                    |p: Player| player_view(p, revealed),
                ),
            decreases n - i,
        {
            let p = &self.players[i];
            players.push(
                PlayerView {
                    id: p.id,
                    name: p.name.clone(),
                    is_human: p.is_human,
                    side: if revealed {
                        Some(p.role.side())
                    } else {
                        None
                    },
                },
            );
            i += 1;
            assert(players@ =~= self.players@.take(i as int).map_values(
                |p: Player| player_view(p, revealed),
            ));
        }
        assert(self.players@.take(n as int) =~= self.players@);
        let human = self.player(HUMAN_ID);
        let party_role = match &human.role {
            Role::Invited { party_role } => Some(party_role.clone()),
            Role::Uninvited => None,
        };
        let (occasion, location) = if self.human_invited() || revealed {
            (Some(self.scenario.occasion.clone()), Some(self.scenario.location.clone()))
        } else {
            (None, None)
        };
        let votes = if self.phase == Phase::Voting || self.phase == Phase::Reveal {
            let mut vs: Vec<VoteView> = Vec::new();
            let mut k: usize = 0;
            assert(self.players@.take(0) =~= Seq::<Player>::empty());
            while k < n
                invariant
                    0 <= k <= n,
                    n == self.players@.len(),
                    revealed == (self.phase == Phase::Reveal),
                    vs@ == vote_views(self.players@.take(k as int), revealed),
                decreases n - k,
            {
                assert(self.players@.take(k + 1).drop_last() =~= self.players@.take(k as int));
                let p = &self.players[k];
                if let Some(t) = p.vote_for {
                    vs.push(
                        VoteView {
                            voter: p.id,
                            target: if revealed || p.id == HUMAN_ID {
                                Some(t)
                            } else {
                                None
                            },
                        },
                    );
                }
                k += 1;
            }
            assert(self.players@.take(n as int) =~= self.players@);
            Some(vs)
        } else {
            None
        };
        let mut transcript: Vec<Turn> = Vec::new();
        let m = self.transcript.len();
        let mut j: usize = 0;
        while j < m
            invariant
                0 <= j <= m,
                m == self.transcript@.len(),
                transcript@ == self.transcript@.take(j as int),
            decreases m - j,
        {
            transcript.push(self.transcript[j].clone());
            j += 1;
            assert(transcript@ =~= self.transcript@.take(j as int));
        }
        assert(self.transcript@.take(m as int) =~= self.transcript@);
        GameView {
            phase: self.phase,
            players,
            human_id: HUMAN_ID,
            human_invited: self.human_invited(),
            mode: self.mode,
            party_role,
            occasion,
            location,
            round: self.round,
            rounds_total: self.rounds_total,
            transcript,
            awaiting: match &self.awaiting {
                Some(a) => Some(a.clone()),
                None => None,
            },
            pending: match &self.pending {
                Some(p) => Some(p.clone()),
                None => None,
            },
            thinking: self.thinking,
            votes,
            uninvited_id: if revealed {
                Some(self.uninvited_id())
            } else {
                None
            },
            winner: if revealed {
                self.winner
            } else {
                None
            },
            guess: match &self.guess {
                Some(g) => Some(GuessView { player: g.player, guess: g.guess.clone(), correct: g.correct }),
                None => None,
            },
        }
    }
}

/// The AI names are pairwise different.
proof fn lemma_ai_names_distinct()
    ensures
        forall|i: int, j: int|
            0 <= i < j < ai_names_spec().len() ==> ai_names_spec()[i] != ai_names_spec()[j],
{
    reveal_strlit("Mia");
    reveal_strlit("Leo");
    reveal_strlit("Zoe");
    reveal_strlit("Kai");
    reveal_strlit("Nora");
    reveal_strlit("Theo");
    reveal_strlit("Iris");
    reveal_strlit("Felix");
    reveal_strlit("Ruby");
    reveal_strlit("Otis");
    reveal_strlit("Luna");
    reveal_strlit("Gus");
    let names = ai_names_spec();
    assert forall|i: int, j: int| 0 <= i < j < names.len() implies names[i] != names[j] by {
        if names[i].len() == names[j].len() {
            if names[i][0] == names[j][0] {
                assert(names[i][1] != names[j][1]);
            } else {
                assert(names[i][0] != names[j][0]);
            }
        }
    }
}

/// A shuffle of strings with pairwise different views keeps them pairwise
/// different, each one of the strings shuffled.
proof fn lemma_shuffled_distinct(src: Seq<String>, out: Seq<String>)
    requires
        out.to_multiset() == src.to_multiset(),
        forall|i: int, j: int| 0 <= i < j < src.len() ==> src[i]@ != src[j]@,
    ensures
        forall|i: int| 0 <= i < out.len() ==> src.map_values(|s: String| s@).contains(
            #[trigger] out[i]@,
        ),
        forall|i: int, j: int| 0 <= i < j < out.len() ==> out[i]@ != out[j]@,
{
    broadcast use vstd::seq_lib::to_multiset_contains;
    assert(src.no_duplicates()) by {
        assert forall|i: int, j: int|
            0 <= i < src.len() && 0 <= j < src.len() && i != j implies src[i] != src[j] by {
            if i < j {
                assert(src[i]@ != src[j]@);
            } else {
                assert(src[j]@ != src[i]@);
            }
        }
    }
    src.lemma_multiset_has_no_duplicates();
    out.lemma_multiset_has_no_duplicates_conv();
    assert forall|i: int| 0 <= i < out.len() implies src.map_values(|s: String| s@).contains(
        #[trigger] out[i]@,
    ) by {
        assert(out.contains(out[i]));
        assert(out.to_multiset().count(out[i]) > 0);
        assert(src.contains(out[i]));
        let a = choose|a: int| 0 <= a < src.len() && src[a] == out[i];
        assert(src.map_values(|s: String| s@)[a] == out[i]@);
    }
    assert forall|i: int, j: int| 0 <= i < j < out.len() implies out[i]@ != out[j]@ by {
        assert(out.contains(out[i]));
        assert(out.contains(out[j]));
        assert(out.to_multiset().count(out[i]) > 0);
        assert(out.to_multiset().count(out[j]) > 0);
        assert(src.contains(out[i]));
        assert(src.contains(out[j]));
        let a = choose|a: int| 0 <= a < src.len() && src[a] == out[i];
        let b = choose|b: int| 0 <= b < src.len() && src[b] == out[j];
        assert(out[i] != out[j]);
        if a < b {
        } else if b < a {
        }
    }
}

impl GameSession {
    /// A fresh game on `scenario`: seats the human and 2 to 8 AI guests (the
    /// configured count, clamped), names the guests at random, makes the
    /// human the uninvited one in `Outsider` mode and a random AI otherwise, and
    /// deals the shuffled party roles to the invited players in seat order.
    pub fn new(cfg: &GameConfig, scenario: Scenario, rounds_total: u8) -> (r: Self)
        ensures
            exists|u: int, dealt: Seq<String>|
                #![trigger dealt_players(r.players@, seat_count(*cfg), u, dealt)]
                {
                    &&& (cfg.mode == GameMode::Outsider ==> u == 0)
                    &&& (cfg.mode != GameMode::Outsider ==> 1 <= u <= clamp_spec(
                        cfg.ai_count,
                        2,
                        8,
                    ))
                    &&& dealt.to_multiset() == scenario.roles@.to_multiset()
                    &&& dealt_players(r.players@, seat_count(*cfg), u, dealt)
                },
            r.scenario == scenario,
            r.transcript@.len() == 0,
            r.phase == Phase::Questioning,
            r.round == 1,
            r.rounds_total == rounds_total,
            r.mode == cfg.mode,
            r.awaiting is None,
            r.pending is None,
            r.thinking is None,
            r.guess is None,
            r.winner is None,
    {
        let ai_count = clamp(cfg.ai_count, 2, 8);
        let source = ai_names();
        let mut names: Vec<String> = Vec::new();
        let mut c: usize = 0;
        while c < source.len()
            invariant
                0 <= c <= source@.len(),
                names@ == source@.take(c as int),
            decreases source@.len() - c,
        {
            names.push(source[c].clone());
            c += 1;
            assert(names@ =~= source@.take(c as int));
        }
        assert(source@.take(source@.len() as int) =~= source@);
        assert(source@.len() == ai_names_spec().len());
        shuffle(&mut names);
        assert(names@.len() == 12);
        proof {
            lemma_ai_names_distinct();
            assert forall|i: int, j: int| 0 <= i < j < source@.len() implies source@[i]@
                != source@[j]@ by {
                assert(source@.map_values(|s: String| s@)[i] == source@[i]@);
                assert(source@.map_values(|s: String| s@)[j] == source@[j]@);
            }
            assert(names@.to_multiset() == source@.to_multiset());
            lemma_shuffled_distinct(source@, names@);
        }
        let total: usize = ai_count as usize + 1;
        let uninvited: u8 = if cfg.mode != GameMode::Outsider {
            let mut ids: Vec<u8> = Vec::new();
            let mut k: u8 = 0;
            while k < ai_count
                invariant
                    0 <= k <= ai_count,
                    ids@.len() == k,
                    forall|j: int| 0 <= j < k ==> ids@[j] == j,
                decreases ai_count - k,
            {
                ids.push(k);
                k += 1;
            }
            let pick = match pick_one(&ids) {
                Some(x) => x,
                None => 0,
            };
            proof {
                if ids@.contains(pick) {
                    let j = choose|j: int| 0 <= j < ids@.len() && ids@[j] == pick;
                }
            }
            1 + pick
        } else {
            HUMAN_ID
        };
        let mut roles: Vec<String> = Vec::new();
        let nr = scenario.roles.len();
        let mut k: usize = 0;
        while k < nr
            invariant
                0 <= k <= nr,
                nr == scenario.roles@.len(),
                roles@ == scenario.roles@.take(k as int),
            decreases nr - k,
        {
            roles.push(scenario.roles[k].clone());
            k += 1;
            assert(roles@ =~= scenario.roles@.take(k as int));
        }
        assert(scenario.roles@.take(nr as int) =~= scenario.roles@);
        shuffle(&mut roles);
        let mut next_role: usize = 0;
        let mut players: Vec<Player> = Vec::new();
        let mut id: usize = 0;
        while id < total
            invariant
                0 <= id <= total,
                total == ai_count + 1,
                2 <= ai_count <= 8,
                names@.len() == 12,
                uninvited < total,
                cfg.mode != GameMode::Outsider ==> 1 <= uninvited,
                cfg.mode == GameMode::Outsider ==> uninvited == 0,
                next_role == if id <= uninvited {
                    id as int
                } else {
                    id - 1
                },
                forall|i: int|
                    0 <= i < names@.len() ==> ai_names_spec().contains(#[trigger] names@[i]@),
                forall|i: int, j: int| 0 <= i < j < names@.len() ==> names@[i]@ != names@[j]@,
                players@.len() == id,
                forall|i: int|
                    #![trigger players@[i]]
                    0 <= i < id ==> {
                        &&& players@[i].id == i
                        &&& players@[i].is_human == (i == 0)
                        &&& players@[i].vote_for is None
                        &&& (i == 0 ==> players@[i].name@ == "You"@)
                        &&& (i > 0 ==> players@[i].name@ == names@[i - 1]@)
                        &&& (i == uninvited ==> players@[i].role is Uninvited)
                        &&& (i != uninvited ==> has_party_role(
                            players@[i].role,
                            dealt_role(roles@, invited_rank(i, uninvited as int)),
                        ))
                    },
            decreases total - id,
        {
            let is_human = id == 0;
            let name = if is_human {
                String::from_str("You")
            } else {
                names[id - 1].clone()
            };
            let role = if id == uninvited as usize {
                Role::Uninvited
            } else {
                let party_role = if next_role < roles.len() {
                    roles[next_role].clone()
                } else {
                    String::from_str("a guest")
                };
                next_role += 1;
                Role::Invited { party_role }
            };
            players.push(Player { id: id as u8, name, is_human, role, vote_for: None });
            id += 1;
        }
        proof {
            assert(dealt_players(players@, seat_count(*cfg), uninvited as int, roles@));
            assert(roles@.to_multiset() == scenario.roles@.to_multiset());
        }
        let ghost pv = players@;
        let ghost sr = scenario.roles@;
        let r = GameSession {
            scenario,
            players,
            transcript: Vec::new(),
            phase: Phase::Questioning,
            round: 1,
            rounds_total,
            mode: cfg.mode,
            awaiting: None,
            pending: None,
            thinking: None,
            guess: None,
            winner: None,
        };
        assert(r.players@ == pv);
        assert(r.scenario.roles@ == sr);
        assert(dealt_players(r.players@, seat_count(*cfg), uninvited as int, roles@));
        r
    }
}

} // verus!

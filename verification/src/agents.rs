//! Prompt construction and reply parsing for the AI players. Every AI action is
//! one stateless generation from a (system, user) pair of strings: the system
//! string is the agent's private briefing, the user string the public
//! transcript plus the task for this turn.
use vstd::prelude::*;
use vstd::string::StringExecFns;
use crate::game::{GameSession, Player, Role};
use crate::random::pick_one;
use crate::text::{
    join, lemma_utf8_len_prefix_strict,
    chars_of, find, find_exec, lemma_find_from, lemma_utf8_len_concat, lines, lines_of, lowercase,
    matches_at, matches_at_exec, string_from_chars, suffix_at_byte_of_prefix, suffix_from_byte,
    to_lowercase, trim, trim_by, trim_class, trim_ws, utf8_len, views, CharClass,
};

verus! {

// -- cleaning a model's reply -------------------------------------------------

/// `t` with a leading `label` (and the whitespace after it) removed, if `t` starts with it.
pub open spec fn strip_label(t: Seq<char>, label: Seq<char>) -> Seq<char> {
    if label.len() <= t.len() && t.take(label.len() as int) == label {
        trim(t.skip(label.len() as int))
    } else {
        t
    }
}

/// The labels some models put in front of a reply, stripped in this order.
pub open spec fn strip_labels(t: Seq<char>) -> Seq<char> {
    strip_label(
        strip_label(strip_label(strip_label(t, "Question:"@), "Answer:"@), "Q:"@),
        "A:"@,
    )
}

/// The first line that is not blank after trimming.
pub open spec fn first_nonblank(ls: Seq<Seq<char>>) -> Option<Seq<char>>
    decreases ls.len(),
{
    if ls.len() == 0 {
        None
    } else if trim(ls[0]).len() > 0 {
        Some(ls[0])
    } else {
        first_nonblank(ls.drop_first())
    }
}

/// One line of a reply, cleaned: trimmed, a leading label removed, the first
/// non-blank line kept, quotes and asterisks trimmed from its ends.
pub open spec fn clean_line_spec(s: Seq<char>) -> Seq<char> {
    let t = strip_labels(trim(s));
    let first = trim(
        match first_nonblank(lines(t)) {
            Some(l) => l,
            None => t,
        },
    );
    trim(trim_by(first, CharClass::QuoteMark))
}

fn strip_label_exec(t: Vec<char>, label: &str) -> (r: Vec<char>)
    ensures
        r@ == strip_label(t@, label@),
{
    let l = chars_of(label);
    if l.len() <= t.len() && matches_at_exec(&t, &l, 0) {
        assert(t@.take(l@.len() as int) =~= l@);
        let n = t.len();
        let rest = crate::text::subvec(&t, l.len(), n);
        assert(rest@ =~= t@.skip(l@.len() as int));
        trim_ws(&rest)
    } else {
        proof {
            if l@.len() <= t@.len() && t@.take(l@.len() as int) == l@ {
                assert forall|j: int| 0 <= j < l@.len() implies t@[0 + j] == #[trigger] l@[j] by {
                    assert(t@.take(l@.len() as int)[j] == t@[j]);
                }
            }
        }
        t
    }
}

fn first_nonblank_exec(ls: &Vec<Vec<char>>) -> (r: Option<Vec<char>>)
    ensures
        r matches Some(l) ==> first_nonblank(views(ls@)) == Some(l@),
        r is None ==> first_nonblank(views(ls@)) is None,
{
    let n = ls.len();
    let ghost all = views(ls@);
    let mut i: usize = 0;
    assert(all.skip(0) =~= all);
    while i < n
        invariant
            0 <= i <= n,
            n == ls@.len(),
            all == views(ls@),
            first_nonblank(all) == first_nonblank(all.skip(i as int)),
        decreases n - i,
    {
        assert(all.skip(i as int)[0] == ls@[i as int]@);
        assert(all.skip(i as int).drop_first() =~= all.skip(i + 1));
        let t = trim_ws(&ls[i]);
        if t.len() > 0 {
            let l = crate::text::subvec(&ls[i], 0, ls[i].len());
            assert(l@ =~= ls@[i as int]@);
            return Some(l);
        }
        i += 1;
    }
    assert(all.skip(n as int) =~= Seq::<Seq<char>>::empty());
    None
}

fn clean_chars(s: &Vec<char>) -> (r: Vec<char>)
    ensures
        r@ == clean_line_spec(s@),
{
    let t0 = trim_ws(s);
    let t1 = strip_label_exec(t0, "Question:");
    let t2 = strip_label_exec(t1, "Answer:");
    let t3 = strip_label_exec(t2, "Q:");
    let t = strip_label_exec(t3, "A:");
    let ls = lines_of(&t);
    let first = match first_nonblank_exec(&ls) {
        Some(l) => trim_ws(&l),
        None => trim_ws(&t),
    };
    let unquoted = trim_class(&first, CharClass::QuoteMark);
    trim_ws(&unquoted)
}

/// One short sentence, quotes stripped, single line: what we want back from a
/// small model that loves to ramble.
pub fn clean_line(s: &str) -> (r: String)
    ensures
        r@ == clean_line_spec(s@),
{
    let v = chars_of(s);
    let c = clean_chars(&v);
    string_from_chars(&c)
}

// -- the uninvited player's turn -------------------------------------------------

/// What the uninvited AI decided to do on its turn.
pub enum UninvitedAction {
    Guess(String),
    Ask(String),
}

/// The content of an `UninvitedAction`.
pub enum TurnChoice {
    Guess(Seq<char>),
    Ask(Seq<char>),
}

impl View for UninvitedAction {
    type V = TurnChoice;

    open spec fn view(&self) -> TurnChoice {
        match self {
            UninvitedAction::Guess(g) => TurnChoice::Guess(g@),
            UninvitedAction::Ask(q) => TurnChoice::Ask(q@),
        }
    }
}

/// `&t[pos + kw.len()..]`, where `pos` is the byte position of the first
/// occurrence of `kw` in `lower`: `None` where that slice panics.
pub open spec fn keyword_rest_in(t: Seq<char>, lower: Seq<char>, kw: Seq<char>) -> Option<Seq<char>>
    recommends
        find(lower, kw) is Some,
{
    suffix_from_byte(t, (utf8_len(lower.take(find(lower, kw)->0)) + utf8_len(kw)) as int)
}

/// `keyword_rest_in` with `t` lowercased.
pub open spec fn keyword_rest(t: Seq<char>, kw: Seq<char>) -> Option<Seq<char>>
    recommends
        find(lowercase(t), kw) is Some,
{
    keyword_rest_in(t, lowercase(t), kw)
}

/// The reply `t`, with `lower` its lowercasing, names a non-empty guess after "guess:".
pub open spec fn guess_taken_in(t: Seq<char>, lower: Seq<char>) -> bool {
    &&& find(lower, "guess:"@) is Some
    &&& keyword_rest_in(t, lower, "guess:"@) matches Some(rest) && clean_line_spec(rest).len() > 0
}

/// `guess_taken_in` with `t` lowercased.
pub open spec fn guess_taken(t: Seq<char>) -> bool {
    guess_taken_in(t, lowercase(t))
}

/// Every slice that reading the trimmed reply `t`, with `lower` its
/// lowercasing, takes falls on character boundaries.
pub open spec fn slices_ok_in(t: Seq<char>, lower: Seq<char>) -> bool {
    &&& find(lower, "guess:"@) is Some ==> keyword_rest_in(t, lower, "guess:"@) is Some
    &&& !guess_taken_in(t, lower) ==> (find(lower, "ask:"@) is Some ==> keyword_rest_in(
        t,
        lower,
        "ask:"@,
    ) is Some)
}

/// Every slice that reading the reply takes falls on character boundaries.
pub open spec fn turn_reply_slices_ok(reply: Seq<char>) -> bool {
    slices_ok_in(trim(reply), lowercase(trim(reply)))
}

/// The decision read from the trimmed reply `t`, with `lower` its lowercasing:
/// a guess when "guess:" is followed by something non-empty; otherwise a
/// question, the text after "ask:" if present, else the whole reply, cleaned.
pub open spec fn parse_turn_in(t: Seq<char>, lower: Seq<char>) -> TurnChoice {
    if guess_taken_in(t, lower) {
        TurnChoice::Guess(clean_line_spec(keyword_rest_in(t, lower, "guess:"@)->0))
    } else if find(lower, "ask:"@) is Some {
        TurnChoice::Ask(clean_line_spec(keyword_rest_in(t, lower, "ask:"@)->0))
    } else {
        TurnChoice::Ask(clean_line_spec(t))
    }
}

/// The uninvited AI's decision: a guess when the reply has "guess:" (in any
/// case) followed by something non-empty; otherwise a question, the text after
/// "ask:" if present, else the whole reply, cleaned.
pub open spec fn parse_turn_spec(reply: Seq<char>) -> TurnChoice {
    parse_turn_in(trim(reply), lowercase(trim(reply)))
}

/// `keyword_rest` computed: `None` when `kw` does not occur in `lower`,
/// `Some(None)` when the slice after it would not fall on a character boundary.
fn keyword_rest_exec(t: &Vec<char>, lower: &Vec<char>, kw: &str) -> (r: Option<Option<Vec<char>>>)
    ensures
        r is None <==> find(lower@, kw@) is None,
        r matches Some(Some(v)) ==> keyword_rest_in(t@, lower@, kw@) == Some(v@),
        r matches Some(None) ==> keyword_rest_in(t@, lower@, kw@) is None,
{
    let k = chars_of(kw);
    match find_exec(lower, &k) {
        None => None,
        Some(pos) => {
            proof {
                lemma_find_from(lower@, k@, 0);
                assert(lower@.take(pos + k@.len()) =~= lower@.take(pos as int) + k@) by {
                    assert forall|j: int| 0 <= j < k@.len() implies lower@[pos + j] == k@[j] by {
                        assert(matches_at(lower@, k@, pos as int));
                    }
                }
                lemma_utf8_len_concat(lower@.take(pos as int), k@);
            }
            assert(pos + k.len() <= lower.len());
            Some(suffix_at_byte_of_prefix(t, lower, pos + k.len()))
        },
    }
}

/// Reads the uninvited AI's turn from `t`, the reply trimmed, and `lower`, its
/// lowercasing: a guess or a question, or `None` where reading it would have
/// to slice inside a character.
pub fn read_turn(t: &str, lower: &str) -> (r: Option<UninvitedAction>)
    ensures
        r is Some <==> slices_ok_in(t@, lower@),
        r matches Some(a) ==> a@ == parse_turn_in(t@, lower@),
{
    let tv = chars_of(t);
    let lv = chars_of(lower);
    match keyword_rest_exec(&tv, &lv, "guess:") {
        Some(Some(rest)) => {
            let g = clean_chars(&rest);
            if g.len() > 0 {
                return Some(UninvitedAction::Guess(string_from_chars(&g)));
            }
        },
        Some(None) => {
            return None;
        },
        None => {},
    }
    match keyword_rest_exec(&tv, &lv, "ask:") {
        Some(Some(rest)) => Some(UninvitedAction::Ask(string_from_chars(&clean_chars(&rest)))),
        Some(None) => None,
        None => Some(UninvitedAction::Ask(string_from_chars(&clean_chars(&tv)))),
    }
}

/// Reads the uninvited AI's reply: a guess at the party or a question.
pub fn parse_uninvited_turn(reply: &str) -> (r: UninvitedAction)
    requires
        turn_reply_slices_ok(reply@),
    ensures
        r@ == parse_turn_spec(reply@),
{
    let t = string_from_chars(&trim_ws(&chars_of(reply)));
    let lower = to_lowercase(t.as_str());
    match read_turn(t.as_str(), lower.as_str()) {
        Some(a) => a,
        None => {
            assert(false);
            UninvitedAction::Ask(String::new())
        },
    }
}

/// Reads the uninvited AI's reply, or gives `None` for a reply on which
/// `parse_uninvited_turn` would have to slice inside a character.
pub fn try_parse_uninvited_turn(reply: &str) -> (r: Option<UninvitedAction>)
    ensures
        r is Some <==> turn_reply_slices_ok(reply@),
        r matches Some(a) ==> a@ == parse_turn_spec(reply@),
{
    let t = string_from_chars(&trim_ws(&chars_of(reply)));
    let lower = to_lowercase(t.as_str());
    match read_turn(t.as_str(), lower.as_str()) {
        Some(_) => Some(parse_uninvited_turn(reply)),
        None => None,
    }
}

// -- prompts ------------------------------------------------------------------------

/// The briefing of an invited guest, around the occasion, venue and party role.
pub const INVITED_BRIEF_START: &'static str = "You are playing a party deduction game. You and the others were all invited to an upcoming party and are chatting BEFORE it happens \u{2014} nobody is there yet. The party: the occasion is ";
pub const INVITED_BRIEF_VENUE: &'static str = " and the venue is ";
pub const INVITED_BRIEF_ROLE: &'static str = ". Your role among the guests: ";
pub const INVITED_BRIEF_END: &'static str = ". Everyone here was invited and knows the plan \u{2014} except ONE impostor who wasn't invited and does NOT know what the party is. Your goal is to spot the impostor from how people talk. The party is still in the FUTURE: talk about getting ready and looking forward to it, never as if you are already there or it already happened. Do NOT give the party away: never state its name, the occasion, who or what it is for, or the venue \u{2014} the impostor is listening and any of those hands them the answer. Drop only subtle, oblique hints. Keep every reply to ONE short, natural sentence.";
/// The briefing of the uninvited player.
pub const UNINVITED_BRIEF: &'static str = "You are playing a party deduction game. Everyone is chatting BEFORE an upcoming party that hasn't happened yet. You were NOT invited and do NOT know what the party is; everyone else was invited and knows. Your goal is to blend in so nobody suspects you, while quietly figuring out what the party is from what people say. The party is still in the FUTURE \u{2014} speak about it as something coming up, never as if you are already there. Stay vague and agreeable, never admit you don't know, and never get caught. Keep every reply to ONE short, natural sentence.";
pub const NO_QUESTIONS_YET: &'static str = "No questions have been asked yet.";
pub const CONVERSATION_HEADER: &'static str = "Conversation so far:\n";
pub const TASK_BREAK: &'static str = "\n\n";
pub const ASK_TASK_START: &'static str = "It is your turn to ask. Ask ";
pub const ASK_TASK_END: &'static str = " ONE short, specific question about the upcoming party that a real invited guest could answer but an impostor would fumble \u{2014} without giving the party away yourself. Reply with ONLY the question.";
pub const ANSWER_TASK_ASKED: &'static str = " just asked you: \"";
pub const ANSWER_TASK_INVITED: &'static str = "\". Answer in ONE short sentence, in character as ";
pub const ANSWER_TASK_INVITED_END: &'static str = ", as if the party is still coming up. Sound like you were invited, but don't reveal the party \u{2014} no name, occasion, who/what it's for, or venue; a subtle hint at most.";
pub const ANSWER_TASK_UNINVITED: &'static str = "\". You don't actually know this party, so give ONE short, vague but plausible answer that avoids specifics. Never admit you weren't invited.";
pub const VOTE_TASK_INVITED: &'static str = "Questioning is over. Based on the whole conversation, who is the impostor that wasn't really invited? Reply with ONLY one name from: ";
pub const VOTE_TASK_UNINVITED: &'static str = "Voting time \u{2014} to avoid suspicion you must accuse someone. Pick the real guest who seems most suspicious to the others. Reply with ONLY one name from: ";
pub const FULL_STOP: &'static str = ".";
pub const TURN_TASK_START: &'static str = "It's your turn and you still aren't certain what this party is. Choose ONE:\n- If you are confident you know the party, reply exactly: GUESS: <the party>\n- Otherwise, reply exactly: ASK: <a short, casual question to ";
pub const TURN_TASK_END: &'static str = " that helps you learn the party without exposing yourself>\nReply with a single line starting with GUESS: or ASK:.";
pub const NAME_SEPARATOR: &'static str = ", ";

/// The two lines one turn adds to the transcript block.
pub open spec fn turn_text(ps: Seq<Player>, asker: u8, target: u8, question: Seq<char>, answer: Seq<char>) -> Seq<char> {
    "- "@ + ps[asker as int].name@ + " asked "@ + ps[target as int].name@ + ": "@ + question + "\n"@
        + "  "@ + ps[target as int].name@ + " replied: "@ + answer + "\n"@
}

/// The transcript lines of the first `k` turns.
pub open spec fn turns_text(s: GameSession, k: int) -> Seq<char>
    decreases k,
{
    if k <= 0 {
        Seq::empty()
    } else {
        let t = s.transcript@[k - 1];
        turns_text(s, k - 1) + turn_text(s.players@, t.asker, t.target, t.question@, t.answer@)
    }
}

/// The public questions and answers so far, as prose the model can read.
pub open spec fn transcript_block_spec(s: GameSession) -> Seq<char> {
    if s.transcript@.len() == 0 {
        NO_QUESTIONS_YET@
    } else {
        CONVERSATION_HEADER@ + turns_text(s, s.transcript@.len() as int)
    }
}

/// The names of every player whose id is not `except`, in seat order.
pub open spec fn other_names(ps: Seq<Player>, except: u8) -> Seq<Seq<char>> {
    ps.filter(|p: Player| p.id != except).map_values(|p: Player| p.name@)
}

/// The briefing (system string) of a player, from their secret role.
pub open spec fn system_spec(s: GameSession, p: Player) -> Seq<char> {
    match p.role {
        Role::Invited { party_role } => INVITED_BRIEF_START@ + s.scenario.occasion@
            + INVITED_BRIEF_VENUE@ + s.scenario.location@ + INVITED_BRIEF_ROLE@ + party_role@
            + INVITED_BRIEF_END@,
        Role::Uninvited => UNINVITED_BRIEF@,
    }
}

fn turn_text_exec(session: &GameSession, k: usize) -> (r: String)
    requires
        k < session.transcript@.len(),
        session.turns_in_range(),
    ensures
        r@ == turn_text(
            session.players@,
            session.transcript@[k as int].asker,
            session.transcript@[k as int].target,
            session.transcript@[k as int].question@,
            session.transcript@[k as int].answer@,
        ),
{
    let t = &session.transcript[k];
    let asker = &session.player(t.asker).name;
    let target = &session.player(t.target).name;
    let mut out = String::from_str("- ");
    out.append(asker.as_str());
    out.append(" asked ");
    out.append(target.as_str());
    out.append(": ");
    out.append(t.question.as_str());
    out.append("\n");
    out.append("  ");
    out.append(target.as_str());
    out.append(" replied: ");
    out.append(t.answer.as_str());
    out.append("\n");
    out
}

fn transcript_block(session: &GameSession) -> (r: String)
    requires
        session.turns_in_range(),
    ensures
        r@ == transcript_block_spec(*session),
{
    let m = session.transcript.len();
    if m == 0 {
        return String::from_str(NO_QUESTIONS_YET);
    }
    let mut out = String::from_str(CONVERSATION_HEADER);
    let mut k: usize = 0;
    while k < m
        invariant
            0 <= k <= m,
            m == session.transcript@.len(),
            session.turns_in_range(),
            out@ == CONVERSATION_HEADER@ + turns_text(*session, k as int),
        decreases m - k,
    {
        let line = turn_text_exec(session, k);
        let ghost before = out@;
        out.append(line.as_str());
        assert(out@ =~= CONVERSATION_HEADER@ + turns_text(*session, k + 1)) by {
            assert(turns_text(*session, k + 1) == turns_text(*session, k as int) + line@);
        }
        k += 1;
    }
    out
}

fn names_csv(session: &GameSession, except: u8) -> (r: String)
    ensures
        r@ == join(other_names(session.players@, except), NAME_SEPARATOR@),
{
    let n = session.players.len();
    let ghost ps = session.players@;
    let ghost pred = |p: Player| p.id != except;
    let ghost name_of = |p: Player| p.name@;
    let mut out = String::new();
    let mut any = false;
    let mut i: usize = 0;
    assert(ps.take(0).filter(pred) =~= Seq::<Player>::empty()) by {
        reveal_with_fuel(Seq::<_>::filter, 1);
    }
    assert(ps.take(0).filter(pred).map_values(name_of) =~= Seq::<Seq<char>>::empty());
    while i < n
        invariant
            0 <= i <= n,
            n == ps.len(),
            ps == session.players@,
            pred == (|p: Player| p.id != except),
            name_of == (|p: Player| p.name@),
            any == (ps.take(i as int).filter(pred).len() > 0),
            out@ == join(ps.take(i as int).filter(pred).map_values(name_of), NAME_SEPARATOR@),
        decreases n - i,
    {
        let ghost kept = ps.take(i as int).filter(pred);
        assert(ps.take(i + 1).drop_last() =~= ps.take(i as int));
        reveal_with_fuel(Seq::<_>::filter, 1);
        let p = &session.players[i];
        if p.id != except {
            assert(ps.take(i + 1).filter(pred) == kept.push(ps[i as int]));
            let ghost names = kept.push(ps[i as int]).map_values(name_of);
            assert(names.drop_last() =~= kept.map_values(name_of));
            if any {
                out.append(NAME_SEPARATOR);
            }
            out.append(p.name.as_str());
            any = true;
            assert(out@ =~= join(names, NAME_SEPARATOR@));
        } else {
            assert(ps.take(i + 1).filter(pred) == kept);
        }
        i += 1;
    }
    assert(ps.take(n as int) =~= ps);
    out
}

/// The briefing of an invited player: the party, and their role at it.
fn invited_system(occasion: &str, location: &str, party_role: &str) -> (r: String)
    ensures
        r@ == INVITED_BRIEF_START@ + occasion@ + INVITED_BRIEF_VENUE@ + location@
            + INVITED_BRIEF_ROLE@ + party_role@ + INVITED_BRIEF_END@,
{
    let mut out = String::from_str(INVITED_BRIEF_START);
    out.append(occasion);
    out.append(INVITED_BRIEF_VENUE);
    out.append(location);
    out.append(INVITED_BRIEF_ROLE);
    out.append(party_role);
    out.append(INVITED_BRIEF_END);
    out
}

/// The briefing of the uninvited player, who knows nothing of the party.
fn uninvited_system() -> (r: String)
    ensures
        r@ == UNINVITED_BRIEF@,
{
    String::from_str(UNINVITED_BRIEF)
}

/// The briefing of `player`, from their secret role.
fn system_for(session: &GameSession, player: &Player) -> (r: String)
    ensures
        r@ == system_spec(*session, *player),
{
    match &player.role {
        Role::Invited { party_role } => invited_system(
            session.scenario.occasion.as_str(),
            session.scenario.location.as_str(),
            party_role.as_str(),
        ),
        Role::Uninvited => uninvited_system(),
    }
}

/// The user prompt of an invited AI asking `target_id` a question.
pub open spec fn ask_user_spec(s: GameSession, target_id: u8) -> Seq<char> {
    transcript_block_spec(s) + TASK_BREAK@ + ASK_TASK_START@ + s.players@[target_id as int].name@
        + ASK_TASK_END@
}

/// An AI asks `target_id` a question: the (system, user) pair.
pub fn ask_prompt(session: &GameSession, asker: &Player, target_id: u8) -> (r: (String, String))
    requires
        target_id < session.players@.len(),
        session.turns_in_range(),
    ensures
        r.0@ == system_spec(*session, *asker),
        r.1@ == ask_user_spec(*session, target_id),
{
    let target = &session.player(target_id).name;
    let mut user = transcript_block(session);
    user.append(TASK_BREAK);
    user.append(ASK_TASK_START);
    user.append(target.as_str());
    user.append(ASK_TASK_END);
    (system_for(session, asker), user)
}

/// The task of an AI answering `question` from `asker_name`.
pub open spec fn answer_task_spec(answerer: Player, asker_name: Seq<char>, question: Seq<char>) -> Seq<char> {
    match answerer.role {
        Role::Invited { party_role } => asker_name + ANSWER_TASK_ASKED@ + question
            + ANSWER_TASK_INVITED@ + party_role@ + ANSWER_TASK_INVITED_END@,
        Role::Uninvited => asker_name + ANSWER_TASK_ASKED@ + question + ANSWER_TASK_UNINVITED@,
    }
}

/// The user prompt of an AI answering the `question` that `asker_id` put to it.
pub open spec fn answer_user_spec(s: GameSession, answerer: Player, asker_id: u8, question: Seq<char>) -> Seq<char> {
    transcript_block_spec(s) + TASK_BREAK@ + answer_task_spec(
        answerer,
        s.players@[asker_id as int].name@,
        question,
    )
}

/// An AI answers the question `asker_id` put to it: the (system, user) pair.
pub fn answer_prompt(session: &GameSession, answerer: &Player, asker_id: u8, question: &str) -> (r: (
    String,
    String,
))
    requires
        asker_id < session.players@.len(),
        session.turns_in_range(),
    ensures
        r.0@ == system_spec(*session, *answerer),
        r.1@ == answer_user_spec(*session, *answerer, asker_id, question@),
{
    let asker = &session.player(asker_id).name;
    let mut user = transcript_block(session);
    user.append(TASK_BREAK);
    user.append(asker.as_str());
    user.append(ANSWER_TASK_ASKED);
    user.append(question);
    match &answerer.role {
        Role::Invited { party_role } => {
            user.append(ANSWER_TASK_INVITED);
            user.append(party_role.as_str());
            user.append(ANSWER_TASK_INVITED_END);
        },
        Role::Uninvited => {
            user.append(ANSWER_TASK_UNINVITED);
        },
    }
    (system_for(session, answerer), user)
}

/// The user prompt of an AI voting: the names it may choose from are everyone else's.
pub open spec fn vote_user_spec(s: GameSession, voter: Player) -> Seq<char> {
    transcript_block_spec(s) + TASK_BREAK@ + (match voter.role {
        Role::Invited { .. } => VOTE_TASK_INVITED@,
        Role::Uninvited => VOTE_TASK_UNINVITED@,
    }) + join(other_names(s.players@, voter.id), NAME_SEPARATOR@) + FULL_STOP@
}

/// Voting: an AI names who it thinks the impostor is. The (system, user) pair.
pub fn vote_prompt(session: &GameSession, voter: &Player) -> (r: (String, String))
    requires
        session.turns_in_range(),
    ensures
        r.0@ == system_spec(*session, *voter),
        r.1@ == vote_user_spec(*session, *voter),
{
    let names = names_csv(session, voter.id);
    let mut user = transcript_block(session);
    user.append(TASK_BREAK);
    match &voter.role {
        Role::Invited { .. } => user.append(VOTE_TASK_INVITED),
        Role::Uninvited => user.append(VOTE_TASK_UNINVITED),
    }
    user.append(names.as_str());
    user.append(FULL_STOP);
    (system_for(session, voter), user)
}

/// The user prompt of the uninvited AI's own turn, facing `target_id`.
pub open spec fn turn_user_spec(s: GameSession, target_id: u8) -> Seq<char> {
    transcript_block_spec(s) + TASK_BREAK@ + TURN_TASK_START@ + s.players@[target_id as int].name@
        + TURN_TASK_END@
}

/// The uninvited AI's own turn: keep blending in by asking `target_id`, or
/// gamble a guess at the party. The (system, user) pair.
pub fn uninvited_turn_prompt(session: &GameSession, asker: &Player, target_id: u8) -> (r: (
    String,
    String,
))
    requires
        target_id < session.players@.len(),
        session.turns_in_range(),
    ensures
        r.0@ == system_spec(*session, *asker),
        r.1@ == turn_user_spec(*session, target_id),
{
    let target = &session.player(target_id).name;
    let mut user = transcript_block(session);
    user.append(TASK_BREAK);
    user.append(TURN_TASK_START);
    user.append(target.as_str());
    user.append(TURN_TASK_END);
    (system_for(session, asker), user)
}

// -- reading a vote -----------------------------------------------------------------

/// The byte position at which `name_lower` first occurs in `lower`.
pub open spec fn name_position_in(lower: Seq<char>, name_lower: Seq<char>) -> Option<int> {
    match find(lower, name_lower) {
        Some(k) => Some(utf8_len(lower.take(k)) as int),
        None => None,
    }
}

/// Among the seats `ps` other than `voter`, the one whose name occurs first in
/// `lower` (the earlier seat on a tie), with the position of its name:
/// `(position, id)`. `names[i]` is the name searched for for seat `i`.
pub open spec fn best_named_in(ps: Seq<Player>, voter: u8, lower: Seq<char>, names: Seq<Seq<char>>) -> Option<(int, u8)>
    decreases ps.len(),
{
    if ps.len() == 0 {
        None
    } else {
        let best = best_named_in(ps.drop_last(), voter, lower, names);
        let p = ps.last();
        if p.id == voter {
            best
        } else {
            match name_position_in(lower, names[ps.len() - 1]) {
                Some(pos) => match best {
                    Some((b, _)) => if pos < b {
                        Some((pos, p.id))
                    } else {
                        best
                    },
                    None => Some((pos, p.id)),
                },
                None => best,
            }
        }
    }
}

/// The players' names, lowercased.
pub open spec fn lowered_names(ps: Seq<Player>) -> Seq<Seq<char>> {
    ps.map_values(|p: Player| lowercase(p.name@))
}

/// The earliest-named player other than `voter` among `ps`, in the reply
/// and the names both lowercased (the earlier seat on a tie), with the
/// position of the name: `(position, id)`.
pub open spec fn best_named(ps: Seq<Player>, voter: u8, reply: Seq<char>) -> Option<(int, u8)> {
    best_named_in(ps, voter, lowercase(reply), lowered_names(ps))
}

/// The player other than `voter_id` whose name occurs first in `lower` (the
/// lowercased reply), the earlier seat on a tie; `names[i]` is the lowercased
/// name of seat `i`. `None` when no such name occurs.
pub fn earliest_named(session: &GameSession, voter_id: u8, lower: &str, names: &Vec<String>) -> (r: Option<u8>)
    requires
        names@.len() == session.players@.len(),
    ensures
        r == (match best_named_in(
            session.players@,
            voter_id,
            lower@,
            names@.map_values(|n: String| n@),
        ) {
            Some((_, id)) => Some(id),
            None => None,
        }),
{
    let lower = chars_of(lower);
    let ghost ps = session.players@;
    let ghost nv = names@.map_values(|n: String| n@);
    let n = session.players.len();
    let mut best: Option<(usize, u8)> = None;
    let mut i: usize = 0;
    assert(ps.take(0) =~= Seq::<Player>::empty());
    while i < n
        invariant
            0 <= i <= n,
            n == ps.len(),
            n == names@.len(),
            ps == session.players@,
            nv == names@.map_values(|n: String| n@),
            match best {
                Some((b, id)) => best_named_in(ps.take(i as int), voter_id, lower@, nv) == Some(
                    (utf8_len(lower@.take(b as int)) as int, id),
                ) && b <= lower@.len(),
                None => best_named_in(ps.take(i as int), voter_id, lower@, nv) is None,
            },
        decreases n - i,
    {
        assert(ps.take(i + 1).drop_last() =~= ps.take(i as int));
        assert(ps.take(i + 1).last() == ps[i as int]);
        let p = &session.players[i];
        if p.id != voter_id {
            let needle = chars_of(names[i].as_str());
            assert(needle@ == nv[i as int]);
            if let Some(pos) = find_exec(&lower, &needle) {
                proof {
                    lemma_find_from(lower@, needle@, 0);
                }
                let better = match best {
                    Some((b, _)) => {
                        proof {
                            if pos < b {
                                lemma_utf8_len_prefix_strict(lower@, pos as int, b as int);
                            } else if b < pos {
                                lemma_utf8_len_prefix_strict(lower@, b as int, pos as int);
                            }
                        }
                        pos < b
                    },
                    None => true,
                };
                if better {
                    best = Some((pos, p.id));
                }
            }
        }
        i += 1;
    }
    assert(ps.take(n as int) =~= ps);
    match best {
        Some((_, id)) => Some(id),
        None => None,
    }
}

/// Resolves a vote reply to a player id by the earliest name it mentions; when
/// it names nobody recognizable, a random other player.
pub fn parse_vote(session: &GameSession, voter_id: u8, reply: &str) -> (r: u8)
    requires
        exists|i: int| 0 <= i < session.players@.len() && session.players@[i].id != voter_id,
    ensures
        best_named(session.players@, voter_id, reply@) matches Some((_, id)) ==> r == id,
        best_named(session.players@, voter_id, reply@) is None ==> session.other_ids_spec(
            voter_id,
        ).contains(r),
{
    let lower = to_lowercase(reply);
    let ghost ps = session.players@;
    let n = session.players.len();
    let mut names: Vec<String> = Vec::new();
    let mut i: usize = 0;
    while i < n
        invariant
            0 <= i <= n,
            n == ps.len(),
            ps == session.players@,
            names@.len() == i,
            forall|k: int| 0 <= k < i ==> (#[trigger] names@[k])@ == lowercase(ps[k].name@),
        decreases n - i,
    {
        names.push(to_lowercase(session.players[i].name.as_str()));
        i += 1;
    }
    assert(names@.map_values(|n: String| n@) =~= lowered_names(ps));
    if let Some(id) = earliest_named(session, voter_id, lower.as_str(), &names) {
        return id;
    }
    let others = session.other_ids(voter_id);
    proof {
        let w = choose|w: int| 0 <= w < ps.len() && ps[w].id != voter_id;
        session.lemma_other_ids_contains(voter_id, w);
    }
    match pick_one(&others) {
        Some(id) => id,
        None => {
            assert(false);
            0
        },
    }
}

/// A player named by `best_named` is a player of `ps`, and not the voter.
pub proof fn lemma_best_named_is_player(ps: Seq<Player>, voter: u8, reply: Seq<char>)
    ensures
        best_named(ps, voter, reply) matches Some((_, id)) ==> id != voter && exists|j: int|
            0 <= j < ps.len() && (#[trigger] ps[j]).id == id,
{
    lemma_best_named_in_is_player(ps, voter, lowercase(reply), lowered_names(ps));
}

proof fn lemma_best_named_in_is_player(ps: Seq<Player>, voter: u8, lower: Seq<char>, names: Seq<Seq<char>>)
    ensures
        best_named_in(ps, voter, lower, names) matches Some((_, id)) ==> id != voter && exists|j: int|
            0 <= j < ps.len() && (#[trigger] ps[j]).id == id,
    decreases ps.len(),
{
    if ps.len() > 0 {
        lemma_best_named_in_is_player(ps.drop_last(), voter, lower, names);
        if let Some((_, id)) = best_named_in(ps.drop_last(), voter, lower, names) {
            let j = choose|j: int| 0 <= j < ps.drop_last().len() && (#[trigger] ps.drop_last()[j]).id == id;
            assert(ps[j] == ps.drop_last()[j]);
        }
        assert(ps[ps.len() - 1] == ps.last());
    }
}

} // verus!

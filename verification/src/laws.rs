//! Properties of the game rules that span several functions or every input.
use vstd::prelude::*;
use crate::game::{
    dealt_players, dealt_role, has_party_role, has_uninvited, invited_rank, is_first_uninvited,
    sole_leader, vote_result, votes_for, Player, Role, Side,
};
use crate::scenarios::{
    is_filler, keep_or_space, normalized, normalized_ascii, normalized_lower, overlaps, Scenario,
};
use crate::agents::{
    best_named, best_named_in, clean_line_spec, first_nonblank, lowered_names, other_names,
    strip_label, strip_labels, transcript_block_spec, vote_user_spec, FULL_STOP, NAME_SEPARATOR,
    TASK_BREAK, VOTE_TASK_INVITED, VOTE_TASK_UNINVITED,
};
use crate::game::GameSession;
use crate::orchestrator::human_target;
use crate::text::lowercase;
use crate::text::{
    contains, find, find_from, first_in_class, is_part, lemma_first_in_class_bound,
    lemma_part_refl, lemma_part_trans, lemma_trim_by, lines, matches_at, strip_cr, trim,
    is_whitespace, join, lemma_join_chars, lemma_split_ws_join, lemma_split_ws_words,
    lemma_trim_by_keeps_first, no_ws, split_ws, trim_by, utf8_len, all_ascii, ascii_lower,
    CharClass,
};

verus! {

/// A freshly dealt game has exactly one uninvited player: the seat `u`, which
/// is also the first uninvited seat.
pub proof fn lemma_deal_has_one_outsider(ps: Seq<Player>, n: int, u: int, dealt: Seq<String>)
    requires
        dealt_players(ps, n, u, dealt),
        0 <= u < n,
    ensures
        has_uninvited(ps),
        is_first_uninvited(ps, u),
        forall|i: int| 0 <= i < n && i != u ==> (#[trigger] ps[i]).role is Invited,
{
    assert(ps[u].role is Uninvited);
    assert forall|i: int| 0 <= i < n && i != u implies (#[trigger] ps[i]).role is Invited by {
        assert(has_party_role(ps[i].role, dealt_role(dealt, invited_rank(i, u))));
    }
}

/// When the scenario's roles are pairwise different and there are enough of
/// them for every invited seat, a fresh deal gives the invited players
/// pairwise different party roles.
pub proof fn lemma_deal_roles_unique(
    ps: Seq<Player>,
    n: int,
    u: int,
    dealt: Seq<String>,
    roles: Seq<String>,
)
    requires
        dealt_players(ps, n, u, dealt),
        0 <= u < n,
        dealt.to_multiset() == roles.to_multiset(),
        roles.len() >= n - 1,
        forall|a: int, b: int| 0 <= a < b < roles.len() ==> roles[a]@ != roles[b]@,
    ensures
        forall|i: int, j: int|
            0 <= i < j < n && i != u && j != u ==> (#[trigger] ps[i]).role != (#[trigger] ps[j]).role,
{
    broadcast use vstd::seq_lib::to_multiset_contains;
    assert(dealt.len() == roles.len()) by {
        dealt.to_multiset_ensures();
        roles.to_multiset_ensures();
    }
    assert(roles.no_duplicates()) by {
        assert forall|a: int, b: int|
            0 <= a < roles.len() && 0 <= b < roles.len() && a != b implies roles[a] != roles[b] by {
            if a < b {
                assert(roles[a]@ != roles[b]@);
            } else {
                assert(roles[b]@ != roles[a]@);
            }
        }
    }
    roles.lemma_multiset_has_no_duplicates();
    dealt.lemma_multiset_has_no_duplicates_conv();
    assert forall|i: int, j: int|
        0 <= i < j < n && i != u && j != u implies (#[trigger] ps[i]).role != (#[trigger] ps[j]).role by {
        let ri = invited_rank(i, u);
        let rj = invited_rank(j, u);
        assert(ri < rj);
        assert(rj < dealt.len());
        assert(has_party_role(ps[i].role, dealt_role(dealt, ri)));
        assert(has_party_role(ps[j].role, dealt_role(dealt, rj)));
        assert(dealt[ri] != dealt[rj]);
        assert(dealt.contains(dealt[ri]));
        assert(dealt.contains(dealt[rj]));
        assert(dealt.to_multiset().count(dealt[ri]) > 0);
        assert(dealt.to_multiset().count(dealt[rj]) > 0);
        assert(roles.contains(dealt[ri]));
        assert(roles.contains(dealt[rj]));
        let a = choose|a: int| 0 <= a < roles.len() && roles[a] == dealt[ri];
        let b = choose|b: int| 0 <= b < roles.len() && roles[b] == dealt[rj];
        if a < b {
        } else if b < a {
        }
        assert(dealt[ri]@ != dealt[rj]@);
    }
}

/// The votes for `t` when every player votes for `t`: one per player; no votes for anyone else.
proof fn lemma_unanimous_votes(ps: Seq<Player>, t: u8)
    requires
        forall|i: int| 0 <= i < ps.len() ==> (#[trigger] ps[i]).vote_for == Some(t),
    ensures
        votes_for(ps, t as int) == ps.len(),
        forall|j: int| j != t ==> votes_for(ps, j) == 0,
    decreases ps.len(),
{
    if ps.len() > 0 {
        lemma_unanimous_votes(ps.drop_last(), t);
        assert(ps.last() == ps[ps.len() - 1]);
        assert forall|j: int| j != t implies votes_for(ps, j) == 0 by {
            assert(votes_for(ps.drop_last(), j) == 0);
        }
    }
}

/// When every player votes for the first uninvited player, whose id is their
/// seat, the invited side wins.
pub proof fn lemma_unanimous_vote_catches_outsider(ps: Seq<Player>, u: int)
    requires
        is_first_uninvited(ps, u),
        ps[u].id == u,
        u < 256,
        forall|i: int| 0 <= i < ps.len() ==> (#[trigger] ps[i]).vote_for == Some(u as u8),
    ensures
        vote_result(ps) == Side::Invited,
{
    lemma_unanimous_votes(ps, u as u8);
    assert(sole_leader(ps, u));
    assert(u % 256 == ps[u].id as int);
}

/// Two different players with the most votes (a tie): the uninvited side wins.
pub proof fn lemma_tie_lets_outsider_survive(ps: Seq<Player>, a: int, b: int)
    requires
        0 <= a < ps.len(),
        0 <= b < ps.len(),
        a != b,
        votes_for(ps, a) == votes_for(ps, b),
        forall|j: int| 0 <= j < ps.len() ==> votes_for(ps, j) <= votes_for(ps, a),
    ensures
        vote_result(ps) == Side::Uninvited,
{
    assert forall|l: int| !sole_leader(ps, l) by {
        if sole_leader(ps, l) {
            if l != a {
                assert(votes_for(ps, a) < votes_for(ps, l));
            } else {
                assert(votes_for(ps, b) < votes_for(ps, l));
            }
        }
    }
}

/// The votes when only seat `v` has voted, for `t`.
proof fn lemma_single_vote(ps: Seq<Player>, v: int, t: u8)
    requires
        0 <= v < ps.len(),
        ps[v].vote_for == Some(t),
        forall|i: int| 0 <= i < ps.len() && i != v ==> (#[trigger] ps[i]).vote_for is None,
    ensures
        votes_for(ps, t as int) == 1,
        forall|j: int| j != t ==> votes_for(ps, j) == 0,
    decreases ps.len(),
{
    if v < ps.len() - 1 {
        lemma_single_vote(ps.drop_last(), v, t);
        assert(ps.last() == ps[ps.len() - 1]);
        assert forall|j: int| j != t implies votes_for(ps, j) == 0 by {
            assert(votes_for(ps.drop_last(), j) == 0);
        }
    } else {
        assert(ps.last() == ps[v]);
        lemma_no_votes(ps.drop_last());
        assert(votes_for(ps.drop_last(), t as int) == 0);
        assert forall|j: int| j != t implies votes_for(ps, j) == 0 by {
            assert(votes_for(ps.drop_last(), j) == 0);
        }
    }
}

/// Nobody has voted: nobody has a vote.
proof fn lemma_no_votes(ps: Seq<Player>)
    requires
        forall|i: int| 0 <= i < ps.len() ==> (#[trigger] ps[i]).vote_for is None,
    ensures
        forall|j: int| votes_for(ps, j) == 0,
    decreases ps.len(),
{
    if ps.len() > 0 {
        lemma_no_votes(ps.drop_last());
        assert(ps.last() == ps[ps.len() - 1]);
        assert forall|j: int| votes_for(ps, j) == 0 by {
            assert(votes_for(ps.drop_last(), j) == 0);
        }
    }
}

/// A lone vote decides: when only one player has voted, for seat `t`, the
/// invited side wins exactly when `t` is the first uninvited player (ids being seats).
pub proof fn lemma_lone_vote_decides(ps: Seq<Player>, v: int, t: u8)
    requires
        0 <= v < ps.len(),
        t < ps.len(),
        ps.len() <= 256,
        ps[v].vote_for == Some(t),
        forall|i: int| 0 <= i < ps.len() && i != v ==> (#[trigger] ps[i]).vote_for is None,
        forall|i: int| 0 <= i < ps.len() ==> (#[trigger] ps[i]).id == i,
    ensures
        vote_result(ps) == (if is_first_uninvited(ps, t as int) {
            Side::Invited
        } else {
            Side::Uninvited
        }),
{
    lemma_single_vote(ps, v, t);
    assert(sole_leader(ps, t as int));
    crate::game::lemma_sole_leader_unique(ps);
    crate::game::lemma_first_uninvited_unique(ps);
    if is_first_uninvited(ps, t as int) {
        assert((t as int) % 256 == ps[t as int].id as int);
    } else {
        assert forall|l: int, i: int|
            sole_leader(ps, l) && is_first_uninvited(ps, i) implies l % 256 != ps[i].id as int by {
            assert(l == t);
            assert(ps[i].id == i);
            assert(i != t);
        }
    }
}

/// Guessing the occasion itself wins, when it normalizes to at least three bytes.
pub proof fn lemma_occasion_guess_wins(s: Scenario)
    requires
        utf8_len(normalized(s.occasion@)) >= 3,
    ensures
        s.spec_guess_matches(s.occasion@),
{
    let g = normalized(s.occasion@);
    assert(matches_at(g, g, 0));
    assert(find(g, g) == Some(0int));
    assert(s.candidates()[0] == s.occasion@);
    assert(g.len() > 0);
    assert(overlaps(g, normalized(s.candidates()[0])));
}


/// No line feed in `a`.
spec fn no_newline(a: Seq<char>) -> bool {
    forall|i: int| 0 <= i < a.len() ==> a[i] != '\n'
}

proof fn lemma_part_no_newline(a: Seq<char>, b: Seq<char>)
    requires
        is_part(a, b),
        no_newline(b),
    ensures
        no_newline(a),
{
    let (i, j) = choose|i: int, j: int| 0 <= i <= j <= b.len() && a == b.subrange(i, j);
    assert forall|m: int| 0 <= m < a.len() implies a[m] != '\n' by {
        assert(a[m] == b[i + m]);
    }
}

proof fn lemma_lines_are_parts(s: Seq<char>)
    ensures
        forall|m: int|
            0 <= m < lines(s).len() ==> is_part(#[trigger] lines(s)[m], s) && no_newline(
                lines(s)[m],
            ),
    decreases s.len(),
{
    if s.len() > 0 {
        let k = first_in_class(s, CharClass::Newline);
        lemma_first_in_class_bound(s, CharClass::Newline);
        if k >= s.len() {
            lemma_part_refl(s);
            assert(lines(s) == seq![s]);
        } else {
            let rest = s.skip(k + 1 as int);
            lemma_lines_are_parts(rest);
            let l0 = strip_cr(s.take(k as int));
            assert(is_part(l0, s)) by {
                if k > 0 && s.take(k as int).last() == '\r' {
                    assert(l0 =~= s.subrange(0, k - 1));
                } else {
                    assert(l0 =~= s.subrange(0, k as int));
                }
            }
            assert(is_part(rest, s)) by {
                assert(rest =~= s.subrange(k + 1 as int, s.len() as int));
            }
            assert(lines(s) == seq![l0] + lines(rest));
            assert forall|m: int|
                0 <= m < lines(s).len() implies is_part(#[trigger] lines(s)[m], s) && no_newline(
                lines(s)[m],
            ) by {
                if m == 0 {
                    assert forall|i: int| 0 <= i < l0.len() implies l0[i] != '\n' by {
                        assert(l0[i] == s[i]);
                    }
                } else {
                    assert(lines(s)[m] == lines(rest)[m - 1]);
                    lemma_part_trans(lines(rest)[m - 1], rest, s);
                }
            }
        }
    }
}

proof fn lemma_first_nonblank(ls: Seq<Seq<char>>)
    ensures
        first_nonblank(ls) matches Some(l) ==> exists|m: int| 0 <= m < ls.len() && ls[m] == l,
    decreases ls.len(),
{
    if ls.len() > 0 && trim(ls[0]).len() == 0 {
        lemma_first_nonblank(ls.drop_first());
        if let Some(l) = first_nonblank(ls.drop_first()) {
            let m = choose|m: int| 0 <= m < ls.drop_first().len() && ls.drop_first()[m] == l;
            assert(ls[m + 1] == l);
        }
    }
}

/// A trimmed text that is not empty has a first line that is not blank.
proof fn lemma_trimmed_has_nonblank_line(t: Seq<char>)
    requires
        t.len() > 0,
        !is_whitespace(t[0]),
    ensures
        first_nonblank(lines(t)) is Some,
{
    let k = first_in_class(t, CharClass::Newline);
    lemma_first_in_class_bound(t, CharClass::Newline);
    let c = t[0];
    assert(c != '\n');
    assert(k > 0);
    let l0 = if k >= t.len() {
        t
    } else {
        strip_cr(t.take(k as int))
    };
    assert(lines(t)[0] == l0);
    assert(l0.len() > 0 && l0[0] == c) by {
        if k < t.len() {
            assert(t.take(k as int)[0] == c);
            if k == 1 {
                assert(c != '\r');
                assert(t.take(1).last() == c);
            }
        }
    }
    lemma_trim_by_keeps_first(l0, CharClass::Whitespace);
}

/// Stripping a label from a trimmed text leaves a trimmed part of it.
proof fn lemma_strip_label(x: Seq<char>, label: Seq<char>)
    requires
        trim(x) == x,
    ensures
        is_part(strip_label(x, label), x),
        trim(strip_label(x, label)) == strip_label(x, label),
{
    if label.len() <= x.len() && x.take(label.len() as int) == label {
        let rest = x.skip(label.len() as int);
        lemma_trim_by(rest, CharClass::Whitespace);
        assert(rest =~= x.subrange(label.len() as int, x.len() as int));
        lemma_part_trans(trim(rest), rest, x);
    } else {
        lemma_part_refl(x);
    }
}

/// A cleaned reply is a single line: it holds no line feed, has no
/// whitespace at either end, is a contiguous part of the reply, and is empty
/// when the reply is blank.
pub proof fn lemma_clean_line_is_one_trimmed_part(s: Seq<char>)
    ensures
        forall|i: int| 0 <= i < clean_line_spec(s).len() ==> clean_line_spec(s)[i] != '\n',
        trim(clean_line_spec(s)) == clean_line_spec(s),
        is_part(clean_line_spec(s), s),
        trim(s).len() == 0 ==> clean_line_spec(s).len() == 0,
{
    let s0 = trim(s);
    lemma_trim_by(s, CharClass::Whitespace);
    let s1 = strip_label(s0, "Question:"@);
    lemma_strip_label(s0, "Question:"@);
    let s2 = strip_label(s1, "Answer:"@);
    lemma_strip_label(s1, "Answer:"@);
    let s3 = strip_label(s2, "Q:"@);
    lemma_strip_label(s2, "Q:"@);
    let t = strip_label(s3, "A:"@);
    lemma_strip_label(s3, "A:"@);
    assert(t == strip_labels(s0));
    lemma_part_trans(s2, s1, s0);
    lemma_part_trans(s3, s2, s0);
    lemma_part_trans(t, s3, s0);
    lemma_part_trans(t, s0, s);
    lemma_lines_are_parts(t);
    lemma_first_nonblank(lines(t));
    let line = match first_nonblank(lines(t)) {
        Some(l) => l,
        None => t,
    };
    if first_nonblank(lines(t)) is None {
        if t.len() > 0 {
            lemma_trim_by(t, CharClass::Whitespace);
            lemma_trimmed_has_nonblank_line(t);
        }
        assert(t.len() == 0);
        lemma_part_refl(t);
    } else {
        let m = choose|m: int| 0 <= m < lines(t).len() && lines(t)[m] == line;
        assert(is_part(lines(t)[m], t) && no_newline(lines(t)[m]));
    }
    assert(no_newline(line));
    assert(is_part(line, t));
    let first = trim(line);
    lemma_trim_by(line, CharClass::Whitespace);
    let q = trim_by(first, CharClass::QuoteMark);
    lemma_trim_by(first, CharClass::QuoteMark);
    let r = trim(q);
    lemma_trim_by(q, CharClass::Whitespace);
    assert(r == clean_line_spec(s));
    lemma_part_trans(r, q, first);
    lemma_part_trans(r, first, line);
    lemma_part_trans(r, line, t);
    lemma_part_trans(r, t, s);
    lemma_part_no_newline(r, line);
    if s0.len() == 0 {
        assert(s1 == s0);
        assert(s2 == s0);
        assert(s3 == s0);
        assert(t == s0);
        assert(lines(t) == Seq::<Seq<char>>::empty());
        assert(line.len() == 0);
        assert(first.len() == 0);
        assert(q.len() == 0);
    }
}


proof fn lemma_filter_keeps_all(ws: Seq<Seq<char>>, p: spec_fn(Seq<char>) -> bool)
    requires
        forall|m: int| 0 <= m < ws.len() ==> p(#[trigger] ws[m]),
    ensures
        ws.filter(p) == ws,
    decreases ws.len(),
{
    reveal(Seq::filter);
    if ws.len() > 0 {
        let rest = ws.drop_last();
        assert forall|m: int| 0 <= m < rest.len() implies p(#[trigger] rest[m]) by {
            assert(rest[m] == ws[m]);
        }
        lemma_filter_keeps_all(rest, p);
        assert(p(ws[ws.len() - 1]));
        assert(rest.push(ws.last()) =~= ws);
    }
}

/// Reducing already lowercased text a second time changes nothing: the result
/// holds only alphanumeric characters and single spaces between words, none
/// of them a filler word.
pub proof fn lemma_normalized_lower_idempotent(x: Seq<char>)
    ensures
        normalized_lower(normalized_lower(x)) == normalized_lower(x),
{
    let keep = |c: char| keep_or_space(c);
    let pred = |w: Seq<char>| !is_filler(w);
    let mapped = x.map_values(keep);
    let words = split_ws(mapped);
    let kept = words.filter(pred);
    let out = join(kept, seq![' ']);
    assert(out == normalized_lower(x));
    let fixed = |c: char| keep_or_space(c) == c;
    assert(is_whitespace(' '));
    assert forall|i: int| 0 <= i < mapped.len() implies fixed(#[trigger] mapped[i]) by {}
    lemma_split_ws_words(mapped);
    broadcast use vstd::seq_lib::group_filter_ensures;
    assert forall|m: int| 0 <= m < kept.len() implies (#[trigger] kept[m]).len() > 0 && no_ws(
        kept[m],
    ) && pred(kept[m]) && forall|i: int| 0 <= i < kept[m].len() ==> fixed(kept[m][i]) by {
        assert(pred(kept[m]));
        assert(kept.contains(kept[m]));
        words.lemma_filter_contains_rev(pred, kept[m]);
        let j = choose|j: int| 0 <= j < words.len() && words[j] == kept[m];
        assert(words[j].len() > 0 && no_ws(words[j]));
        assert forall|i: int| 0 <= i < kept[m].len() implies fixed(kept[m][i]) by {
            assert(mapped.contains(words[j][i]));
        }
    }
    assert forall|m: int, i: int| 0 <= m < kept.len() && 0 <= i < kept[m].len() implies fixed(
        #[trigger] kept[m][i],
    ) by {
        assert(kept[m].len() > 0);
    }
    assert forall|i: int| 0 <= i < seq![' '].len() implies fixed(#[trigger] seq![' '][i]) by {}
    lemma_join_chars(kept, seq![' '], fixed);
    assert(out.map_values(keep) =~= out);
    lemma_split_ws_join(kept);
    lemma_filter_keeps_all(kept, pred);
}


/// The reduced text is its words, none of them a filler word, joined by single
/// spaces; each of its characters is a space or a character of the text as
/// `keep_or_space` leaves it.
proof fn lemma_normalized_lower_words(x: Seq<char>)
    ensures
        join(split_ws(normalized_lower(x)), seq![' ']) == normalized_lower(x),
        forall|m: int|
            0 <= m < split_ws(normalized_lower(x)).len() ==> !is_filler(
                #[trigger] split_ws(normalized_lower(x))[m],
            ),
        forall|i: int|
            0 <= i < normalized_lower(x).len() ==> #[trigger] normalized_lower(x)[i] == ' '
                || exists|j: int| 0 <= j < x.len() && normalized_lower(x)[i] == keep_or_space(x[j]),
{
    let keep = |c: char| keep_or_space(c);
    let pred = |w: Seq<char>| !is_filler(w);
    let mapped = x.map_values(keep);
    let words = split_ws(mapped);
    let kept = words.filter(pred);
    let out = join(kept, seq![' ']);
    assert(out == normalized_lower(x));
    let from_x = |c: char| c == ' ' || exists|j: int| 0 <= j < x.len() && c == keep_or_space(x[j]);
    lemma_split_ws_words(mapped);
    broadcast use vstd::seq_lib::group_filter_ensures;
    assert forall|m: int| 0 <= m < kept.len() implies (#[trigger] kept[m]).len() > 0 && no_ws(
        kept[m],
    ) && pred(kept[m]) && forall|i: int| 0 <= i < kept[m].len() ==> from_x(kept[m][i]) by {
        assert(kept.contains(kept[m]));
        words.lemma_filter_contains_rev(pred, kept[m]);
        let j = choose|j: int| 0 <= j < words.len() && words[j] == kept[m];
        assert(words[j].len() > 0 && no_ws(words[j]));
        assert forall|i: int| 0 <= i < kept[m].len() implies from_x(kept[m][i]) by {
            assert(mapped.contains(words[j][i]));
            let q = choose|q: int| 0 <= q < mapped.len() && mapped[q] == words[j][i];
            assert(mapped[q] == keep_or_space(x[q]));
        }
    }
    assert forall|m: int, i: int| 0 <= m < kept.len() && 0 <= i < kept[m].len() implies from_x(
        #[trigger] kept[m][i],
    ) by {
        assert(kept[m].len() > 0);
    }
    assert forall|i: int| 0 <= i < seq![' '].len() implies from_x(#[trigger] seq![' '][i]) by {}
    lemma_join_chars(kept, seq![' '], from_x);
    lemma_split_ws_join(kept);
    assert forall|i: int| 0 <= i < out.len() implies #[trigger] out[i] == ' ' || exists|j: int|
        0 <= j < x.len() && out[i] == keep_or_space(x[j]) by {
        assert(from_x(out[i]));
    }
}

/// For ASCII text, normalizing twice changes nothing. The result is ASCII
/// without uppercase letters, made of characters that `keep_or_space` keeps
/// (alphanumeric ones and spaces): its words, none a filler word, joined by
/// single spaces.
pub proof fn lemma_normalize_ascii_idempotent(s: Seq<char>)
    requires
        all_ascii(s),
    ensures
        all_ascii(normalized_ascii(s)),
        forall|i: int|
            0 <= i < normalized_ascii(s).len() ==> !(65 <= (#[trigger] normalized_ascii(s)[i] as u32)
                <= 90) && keep_or_space(normalized_ascii(s)[i]) == normalized_ascii(s)[i],
        join(split_ws(normalized_ascii(s)), seq![' ']) == normalized_ascii(s),
        forall|m: int|
            0 <= m < split_ws(normalized_ascii(s)).len() ==> !is_filler(
                #[trigger] split_ws(normalized_ascii(s))[m],
            ),
        normalized_ascii(normalized_ascii(s)) == normalized_ascii(s),
{
    let low = s.map_values(|c: char| ascii_lower(c));
    let r = normalized_ascii(s);
    assert(r == normalized_lower(low));
    assert forall|j: int| 0 <= j < low.len() implies (#[trigger] low[j] as u32) < 128 && !(65 <= (
    low[j] as u32) <= 90) by {
        assert(low[j] == ascii_lower(s[j]));
        assert((s[j] as u32) < 128);
    }
    assert(crate::text::is_whitespace(' '));
    lemma_normalized_lower_words(low);
    assert forall|i: int| 0 <= i < r.len() implies (#[trigger] r[i] as u32) < 128 && !(65 <= (
    r[i] as u32) <= 90) && keep_or_space(r[i]) == r[i] by {
        if r[i] != ' ' {
            let j = choose|j: int| 0 <= j < low.len() && r[i] == keep_or_space(low[j]);
            assert((low[j] as u32) < 128);
        }
    }
    assert(r.map_values(|c: char| ascii_lower(c)) =~= r);
    lemma_normalized_lower_idempotent(low);
}


// -- guesses, votes, prompts --------------------------------------------------------

/// A guess wins exactly when its normalized form takes at least three bytes
/// and, for the occasion or one of the aliases whose normalized form is not
/// empty, one of the two normalized forms contains the other: a guess that
/// adds words around a candidate wins as much as one that is part of it.
pub proof fn lemma_guess_matches_either_containment(s: Scenario, g: Seq<char>)
    ensures
        s.spec_guess_matches(g) <==> utf8_len(normalized(g)) >= 3 && ((normalized(s.occasion@).len()
            > 0 && (contains(normalized(g), normalized(s.occasion@)) || contains(
            normalized(s.occasion@),
            normalized(g),
        ))) || exists|i: int|
            0 <= i < s.aliases@.len() && normalized(#[trigger] s.aliases@[i]@).len() > 0 && (
            contains(normalized(g), normalized(s.aliases@[i]@)) || contains(
                normalized(s.aliases@[i]@),
                normalized(g),
            ))),
{
    let ng = normalized(g);
    let cands = s.candidates();
    assert(cands[0] == s.occasion@);
    assert forall|i: int| 0 <= i < s.aliases@.len() implies cands[i + 1] == #[trigger] s.aliases@[i]@ by {}
    if s.spec_guess_matches(g) {
        let i = choose|i: int| 0 <= i < cands.len() && overlaps(ng, normalized(#[trigger] cands[i]));
        if i > 0 {
            assert(cands[i] == s.aliases@[i - 1]@);
        }
    }
    if utf8_len(ng) >= 3 && normalized(s.occasion@).len() > 0 && (contains(
        ng,
        normalized(s.occasion@),
    ) || contains(normalized(s.occasion@), ng)) {
        assert(overlaps(ng, normalized(cands[0])));
    }
    if utf8_len(ng) >= 3 && exists|i: int|
        0 <= i < s.aliases@.len() && normalized(#[trigger] s.aliases@[i]@).len() > 0 && (contains(
            ng,
            normalized(s.aliases@[i]@),
        ) || contains(normalized(s.aliases@[i]@), ng)) {
        let i = choose|i: int|
            0 <= i < s.aliases@.len() && normalized(#[trigger] s.aliases@[i]@).len() > 0 && (
            contains(ng, normalized(s.aliases@[i]@)) || contains(normalized(s.aliases@[i]@), ng));
        assert(overlaps(ng, normalized(cands[i + 1])));
    }
}

proof fn lemma_best_named_in_earliest(ps: Seq<Player>, voter: u8, lower: Seq<char>, names: Seq<Seq<char>>)
    requires
        ps.len() <= names.len(),
    ensures
        (exists|j: int| 0 <= j < ps.len() && ps[j].id != voter && #[trigger] find(lower, names[j]) is Some)
            ==> best_named_in(ps, voter, lower, names) is Some,
        best_named_in(ps, voter, lower, names) matches Some((pos, id)) ==> exists|j: int|
            0 <= j < ps.len() && ps[j].id == id && id != voter && (#[trigger] find(lower, names[j]) matches Some(k)
                && pos == utf8_len(lower.take(k))),
        best_named_in(ps, voter, lower, names) matches Some((pos, id)) ==> forall|j: int|
            0 <= j < ps.len() && ps[j].id != voter && (#[trigger] find(lower, names[j]) is Some)
                ==> pos <= utf8_len(lower.take(find(lower, names[j])->0)),
    decreases ps.len(),
{
    if ps.len() > 0 {
        let rest = ps.drop_last();
        lemma_best_named_in_earliest(rest, voter, lower, names);
        assert forall|j: int| 0 <= j < rest.len() implies rest[j] == ps[j] by {}
        let n = ps.len() - 1;
        assert(ps.last() == ps[n]);
        if exists|j: int| 0 <= j < ps.len() && ps[j].id != voter && #[trigger] find(lower, names[j]) is Some {
            let j = choose|j: int| 0 <= j < ps.len() && ps[j].id != voter && #[trigger] find(lower, names[j]) is Some;
            if j < n {
                assert(rest[j] == ps[j]);
            }
        }
        if let Some((pos, id)) = best_named_in(rest, voter, lower, names) {
            let j = choose|j: int|
                0 <= j < rest.len() && rest[j].id == id && id != voter && (#[trigger] find(lower, names[j]) matches Some(k)
                    && pos == utf8_len(lower.take(k)));
            assert(ps[j] == rest[j]);
        }
        if let Some((pos, id)) = best_named_in(ps, voter, lower, names) {
            assert forall|j: int|
                0 <= j < ps.len() && ps[j].id != voter && (#[trigger] find(lower, names[j]) is Some)
                    implies pos <= utf8_len(lower.take(find(lower, names[j])->0)) by {
                if j < n {
                    assert(rest[j] == ps[j]);
                }
            }
        }
    }
}

/// Reading a vote: when the lowercased reply holds the lowercased name of some
/// player other than the voter (the human included), the reply names a player;
/// the one named is such a player whose name occurs at the position given, and
/// no other such name occurs earlier.
pub proof fn lemma_vote_reads_the_earliest_name(ps: Seq<Player>, voter: u8, reply: Seq<char>)
    ensures
        (exists|j: int|
            0 <= j < ps.len() && ps[j].id != voter && #[trigger] find(
                lowercase(reply),
                lowercase(ps[j].name@),
            ) is Some) ==> best_named(ps, voter, reply) is Some,
        best_named(ps, voter, reply) matches Some((pos, id)) ==> exists|j: int|
            0 <= j < ps.len() && ps[j].id == id && id != voter && (#[trigger] find(
                lowercase(reply),
                lowercase(ps[j].name@),
            ) matches Some(k) && pos == utf8_len(lowercase(reply).take(k))),
        best_named(ps, voter, reply) matches Some((pos, id)) ==> forall|j: int|
            0 <= j < ps.len() && ps[j].id != voter && (#[trigger] find(
                lowercase(reply),
                lowercase(ps[j].name@),
            ) is Some) ==> pos <= utf8_len(
                lowercase(reply).take(find(lowercase(reply), lowercase(ps[j].name@))->0),
            ),
{
    let names = lowered_names(ps);
    let lower = lowercase(reply);
    lemma_best_named_in_earliest(ps, voter, lower, names);
    assert forall|j: int| 0 <= j < ps.len() implies names[j] == lowercase(#[trigger] ps[j].name@) by {}
    if exists|j: int|
        0 <= j < ps.len() && ps[j].id != voter && #[trigger] find(lower, lowercase(ps[j].name@)) is Some {
        let j = choose|j: int|
            0 <= j < ps.len() && ps[j].id != voter && #[trigger] find(lower, lowercase(ps[j].name@)) is Some;
        assert(find(lower, names[j]) is Some);
    }
    if let Some((pos, id)) = best_named(ps, voter, reply) {
        let j = choose|j: int|
            0 <= j < ps.len() && ps[j].id == id && id != voter && (#[trigger] find(lower, names[j]) matches Some(k)
                && pos == utf8_len(lower.take(k)));
        assert(names[j] == lowercase(ps[j].name@));
        assert forall|j: int|
            0 <= j < ps.len() && ps[j].id != voter && (#[trigger] find(lower, lowercase(ps[j].name@))
                is Some) implies pos <= utf8_len(lower.take(find(lower, lowercase(ps[j].name@))->0)) by {
            assert(names[j] == lowercase(ps[j].name@));
            assert(find(lower, names[j]) is Some);
        }
    }
}

/// A question the human puts to another existing seat goes to that seat.
pub proof fn lemma_human_names_the_target(picked: u8, asker: u8, named: u8, seats: int)
    requires
        named != asker,
        named < seats,
    ensures
        human_target(picked, asker, named, seats) == named,
{
}

/// A strict plurality on the first uninvited player (whose id is their seat)
/// catches them, however the other votes fall.
pub proof fn lemma_plurality_on_outsider_wins(ps: Seq<Player>, u: int)
    requires
        ps.len() >= 2,
        is_first_uninvited(ps, u),
        ps[u].id == u,
        forall|j: int| 0 <= j < ps.len() && j != u ==> votes_for(ps, j) < votes_for(ps, u),
    ensures
        vote_result(ps) == Side::Invited,
{
    let j: int = if u == 0 {
        1
    } else {
        0
    };
    assert(votes_for(ps, j) < votes_for(ps, u));
    assert(sole_leader(ps, u));
    assert(u % 256 == ps[u].id as int);
}

/// The vote prompt lists, after its task, the names of every player other than
/// the voter (the human included), each of them a player's, separated by commas.
pub proof fn lemma_vote_prompt_lists_every_other_player(s: GameSession, voter: Player)
    ensures
        exists|names: Seq<Seq<char>>|
            {
                &&& vote_user_spec(s, voter) == transcript_block_spec(s) + TASK_BREAK@ + (match voter.role {
                    crate::game::Role::Invited { .. } => VOTE_TASK_INVITED@,
                    crate::game::Role::Uninvited => VOTE_TASK_UNINVITED@,
                }) + join(names, NAME_SEPARATOR@) + FULL_STOP@
                &&& forall|j: int|
                    0 <= j < s.players@.len() && s.players@[j].id != voter.id ==> names.contains(
                        #[trigger] s.players@[j].name@,
                    )
                &&& forall|m: int|
                    0 <= m < names.len() ==> exists|j: int|
                        0 <= j < s.players@.len() && s.players@[j].id != voter.id
                            && #[trigger] names[m] == s.players@[j].name@
            },
{
    let ps = s.players@;
    let pred = |p: Player| p.id != voter.id;
    let kept = ps.filter(pred);
    let names = other_names(ps, voter.id);
    assert(names == kept.map_values(|p: Player| p.name@));
    broadcast use vstd::seq_lib::group_filter_ensures;
    assert forall|j: int| 0 <= j < ps.len() && ps[j].id != voter.id implies names.contains(
        #[trigger] ps[j].name@,
    ) by {
        assert(pred(ps[j]));
        assert(kept.contains(ps[j]));
        let k = choose|k: int| 0 <= k < kept.len() && kept[k] == ps[j];
        assert(names[k] == ps[j].name@);
    }
    assert forall|m: int| 0 <= m < names.len() implies exists|j: int|
        0 <= j < ps.len() && ps[j].id != voter.id && #[trigger] names[m] == ps[j].name@ by {
        assert(names[m] == kept[m].name@);
        assert(pred(kept[m]));
        assert(kept.contains(kept[m]));
        ps.lemma_filter_contains_rev(pred, kept[m]);
        let j = choose|j: int| 0 <= j < ps.len() && ps[j] == kept[m];
    }
    assert(vote_user_spec(s, voter) == transcript_block_spec(s) + TASK_BREAK@ + (match voter.role {
        crate::game::Role::Invited { .. } => VOTE_TASK_INVITED@,
        crate::game::Role::Uninvited => VOTE_TASK_UNINVITED@,
    }) + join(names, NAME_SEPARATOR@) + FULL_STOP@);
}

} // verus!

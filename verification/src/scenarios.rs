//! The party deck: each scenario is a hidden party (an occasion at a venue),
//! the aliases that judge a guess at it, and the roles dealt to invited guests.
use vstd::prelude::*;
use crate::random::pick_one;
use crate::text::{
    alphanumeric, append_chars, chars_eq, chars_lt, chars_lt_exec, chars_of, contains, find_exec,
    is_alphanumeric, is_whitespace, join, lemma_chars_lt_asymmetric, lemma_chars_lt_irreflexive,
    lemma_chars_lt_total, lemma_chars_lt_transitive, lowercase, split_ws, split_ws_exec, subvec,
    all_ascii, ascii_lower, string_from_chars, to_lowercase, utf8_len, utf8_len_below, views, CharClass,
};

verus! {

/// One hidden party of the deck.
pub struct Scenario {
    pub id: String,
    pub occasion: String,
    pub location: String,
    pub aliases: Vec<String>,
    pub roles: Vec<String>,
}

/// The public face of a party (occasion and venue), as the board lists it.
pub struct Party {
    pub occasion: String,
    pub location: String,
}

/// The character sequences held by a sequence of strings.
pub open spec fn strings_view(v: Seq<String>) -> Seq<Seq<char>> {
    v.map_values(|s: String| s@)
}

/// A character kept by `normalized`: alphanumeric or whitespace characters stay,
/// every other character becomes a space.
pub open spec fn keep_or_space(c: char) -> char {
    if alphanumeric(c) || is_whitespace(c) {
        c
    } else {
        ' '
    }
}

/// The filler words that `normalized` drops.
pub open spec fn is_filler(w: Seq<char>) -> bool {
    ||| w == "a"@
    ||| w == "an"@
    ||| w == "the"@
    ||| w == "at"@
    ||| w == "in"@
    ||| w == "on"@
    ||| w == "of"@
    ||| w == "party"@
}

/// A guess or a candidate reduced for comparison: lowercased, punctuation
/// turned into spaces, split into words, filler words dropped, joined by single spaces.
pub open spec fn normalized(s: Seq<char>) -> Seq<char> {
    normalized_lower(lowercase(s))
}

/// `normalized` of ASCII text, whose lowercase is its ASCII lowercase.
pub open spec fn normalized_ascii(s: Seq<char>) -> Seq<char> {
    normalized_lower(s.map_values(|c: char| ascii_lower(c)))
}

/// The reduction of already lowercased text: punctuation turned into spaces,
/// split into words, filler words dropped, joined by single spaces.
pub open spec fn normalized_lower(lower: Seq<char>) -> Seq<char> {
    let mapped = lower.map_values(|c: char| keep_or_space(c));
    join(split_ws(mapped).filter(|w: Seq<char>| !is_filler(w)), seq![' '])
}

/// A normalized guess `g` and a normalized candidate `c` overlap: `c` is not
/// empty and one contains the other.
pub open spec fn overlaps(g: Seq<char>, c: Seq<char>) -> bool {
    c.len() > 0 && (contains(g, c) || contains(c, g))
}

/// The board order: by venue, then by occasion, comparing characters by code point.
pub open spec fn party_lt(a: Party, b: Party) -> bool {
    chars_lt(a.location@, b.location@) || (a.location@ == b.location@ && chars_lt(
        a.occasion@,
        b.occasion@,
    ))
}

/// The board entry of a scenario.
pub open spec fn party_of(s: Scenario) -> Party {
    Party { occasion: s.occasion, location: s.location }
}

impl Scenario {
    /// The strings a guess is judged against: the occasion, then the aliases.
    pub open spec fn candidates(&self) -> Seq<Seq<char>> {
        seq![self.occasion@] + strings_view(self.aliases@)
    }

    /// A guess wins when its normalized form takes at least three bytes and
    /// overlaps the normalized form of the occasion or of an alias.
    pub open spec fn spec_guess_matches(&self, guess: Seq<char>) -> bool {
        let g = normalized(guess);
        &&& utf8_len(g) >= 3
        &&& exists|i: int|
            0 <= i < self.candidates().len() && overlaps(g, normalized(#[trigger] self.candidates()[i]))
    }

    /// Lenient check of an uninvited player's party guess. The venue is not a
    /// candidate: it is generic and shared across parties.
    pub fn guess_matches(&self, guess: &str) -> (r: bool)
        ensures
            r == self.spec_guess_matches(guess@),
    {
        let g = chars_of(normalize(guess).as_str());
        if utf8_len_below(&g, 3) {
            return false;
        }
        let ghost cands = self.candidates();
        let n = self.aliases.len();
        let c0 = chars_of(normalize(self.occasion.as_str()).as_str());
        if c0.len() > 0 && (find_exec(&g, &c0).is_some() || find_exec(&c0, &g).is_some()) {
            assert(cands[0] == self.occasion@);
            assert(overlaps(g@, normalized(cands[0])));
            return true;
        }
        let mut i: usize = 0;
        while i < n
            invariant
                0 <= i <= n,
                n == self.aliases@.len(),
                cands == self.candidates(),
                g@ == normalized(guess@),
                utf8_len(g@) >= 3,
                forall|j: int| 0 <= j < i + 1 ==> !overlaps(g@, normalized(#[trigger] cands[j])),
            decreases n - i,
        {
            let c = chars_of(normalize(self.aliases[i].as_str()).as_str());
            assert(cands[i + 1] == self.aliases@[i as int]@);
            if c.len() > 0 && (find_exec(&g, &c).is_some() || find_exec(&c, &g).is_some()) {
                assert(overlaps(g@, normalized(cands[i + 1])));
                return true;
            }
            i += 1;
        }
        assert forall|j: int| 0 <= j < cands.len() implies !overlaps(
            g@,
            normalized(#[trigger] cands[j]),
        ) by {}
        false
    }
}

/// Whether `w` is one of the filler words.
fn is_filler_exec(w: &Vec<char>) -> (r: bool)
    ensures
        r == is_filler(w@),
{
    chars_eq(w, &chars_of("a")) || chars_eq(w, &chars_of("an")) || chars_eq(w, &chars_of("the"))
        || chars_eq(w, &chars_of("at")) || chars_eq(w, &chars_of("in")) || chars_eq(
        w,
        &chars_of("on"),
    ) || chars_eq(w, &chars_of("of")) || chars_eq(w, &chars_of("party"))
}

/// `s` lowercased, with every character that is neither alphanumeric nor
/// whitespace made a space, split into words, the filler words dropped, and
/// joined with single spaces.
pub fn normalize(s: &str) -> (r: String)
    ensures
        r@ == normalized(s@),
        all_ascii(s@) ==> r@ == normalized_ascii(s@),
{
    let lower = to_lowercase(s);
    normalize_lowercased(lower.as_str())
}

/// The second half of `normalize`, on text that is already lowercased.
pub fn normalize_lowercased(lower: &str) -> (r: String)
    ensures
        r@ == normalized_lower(lower@),
{
    string_from_chars(&normalize_chars(&chars_of(lower)))
}

/// `normalized_lower` of the characters `lower`.
fn normalize_chars(lower: &Vec<char>) -> (r: Vec<char>)
    ensures
        r@ == normalized_lower(lower@),
{
    let n = lower.len();
    let mut mapped: Vec<char> = Vec::new();
    let mut i: usize = 0;
    while i < n
        invariant
            0 <= i <= n,
            n == lower@.len(),
            mapped@ == lower@.take(i as int).map_values(|c: char| keep_or_space(c)),
        decreases n - i,
    {
        let c = lower[i];
        let kept = if is_alphanumeric(c) || CharClass::Whitespace.test(c) {
            c
        } else {
            ' '
        };
        mapped.push(kept);
        i += 1;
        assert(mapped@ =~= lower@.take(i as int).map_values(|c: char| keep_or_space(c)));
    }
    assert(lower@.take(n as int) =~= lower@);
    let words = split_ws_exec(&mapped);
    let ghost all = views(words@);
    let ghost pred = |w: Seq<char>| !is_filler(w);
    let m = words.len();
    let mut out: Vec<char> = Vec::new();
    let mut any = false;
    let mut j: usize = 0;
    assert(all.take(0).filter(pred) =~= Seq::<Seq<char>>::empty()) by {
        reveal_with_fuel(Seq::<_>::filter, 1);
    }
    while j < m
        invariant
            0 <= j <= m,
            m == words@.len(),
            all == views(words@),
            pred == (|w: Seq<char>| !is_filler(w)),
            any == (all.take(j as int).filter(pred).len() > 0),
            out@ == join(all.take(j as int).filter(pred), seq![' ']),
        decreases m - j,
    {
        let ghost kept = all.take(j as int).filter(pred);
        assert(all.take(j + 1).drop_last() =~= all.take(j as int));
        assert(all.take(j + 1).last() == words@[j as int]@);
        reveal_with_fuel(Seq::<_>::filter, 1);
        if !is_filler_exec(&words[j]) {
            assert(all.take(j + 1).filter(pred) == kept.push(words@[j as int]@));
            if any {
                out.push(' ');
                append_chars(&mut out, &words[j]);
                assert(kept.push(words@[j as int]@).drop_last() =~= kept);
            } else {
                out = subvec(&words[j], 0, words[j].len());
                assert(words@[j as int]@.subrange(0, words@[j as int]@.len() as int) =~= words@[j
                    as int]@);
            }
            any = true;
        } else {
            assert(all.take(j + 1).filter(pred) == kept);
        }
        j += 1;
    }
    assert(all.take(m as int) =~= all);
    out
}

/// Every party of `deck`, sorted by venue then occasion for a stable board.
pub fn all_parties(deck: &Vec<Scenario>) -> (r: Vec<Party>)
    ensures
        r@.to_multiset() == deck@.map_values(|s: Scenario| party_of(s)).to_multiset(),
        forall|i: int, j: int| 0 <= i < j < r@.len() ==> !party_lt(r@[j], r@[i]),
{
    let n = deck.len();
    let ghost all = deck@.map_values(|s: Scenario| party_of(s));
    let mut r: Vec<Party> = Vec::new();
    let mut i: usize = 0;
    broadcast use vstd::seq_lib::to_multiset_insert;
    assert(all.take(0).to_multiset() =~= r@.to_multiset()) by {
        assert(all.take(0) =~= Seq::<Party>::empty());
        assert(r@ =~= Seq::<Party>::empty());
    }
    while i < n
        invariant
            0 <= i <= n,
            n == deck@.len(),
            all == deck@.map_values(|s: Scenario| party_of(s)),
            r@.to_multiset() == all.take(i as int).to_multiset(),
            forall|a: int, b: int| 0 <= a < b < r@.len() ==> !party_lt(r@[b], r@[a]),
        decreases n - i,
    {
        let p = Party { occasion: deck[i].occasion.clone(), location: deck[i].location.clone() };
        assert(p == all[i as int]);
        let pos = insertion_point(&r, &p);
        proof {
            lemma_party_order();
        }
        let ghost before = r@;
        r.insert(pos, p);
        proof {
            assert(all.take(i + 1) =~= all.take(i as int).push(all[i as int]));
            vstd::seq_lib::to_multiset_build(all.take(i as int), all[i as int]);
            vstd::seq_lib::to_multiset_insert(before, pos as int, all[i as int]);
            assert forall|a: int, b: int| 0 <= a < b < r@.len() implies !party_lt(
                r@[b],
                r@[a],
            ) by {
                if b < pos {
                } else if a < pos && b == pos {
                } else if a < pos {
                    assert(r@[b] == before[b - 1]);
                } else if a == pos {
                    assert(r@[b] == before[b - 1]);
                } else {
                    assert(r@[a] == before[a - 1]);
                    assert(r@[b] == before[b - 1]);
                }
            }
        }
        i += 1;
    }
    assert(all.take(n as int) =~= all);
    r
}

/// The index at which `p` goes into the sorted `r`: after every entry not above it.
fn insertion_point(r: &Vec<Party>, p: &Party) -> (pos: usize)
    requires
        forall|a: int, b: int| 0 <= a < b < r@.len() ==> !party_lt(r@[b], r@[a]),
    ensures
        pos <= r@.len(),
        forall|a: int| 0 <= a < pos ==> !party_lt(*p, #[trigger] r@[a]),
        forall|a: int| pos <= a < r@.len() ==> party_lt(*p, #[trigger] r@[a]),
{
    let n = r.len();
    let mut pos: usize = 0;
    while pos < n && !party_lt_exec(p, &r[pos])
        invariant
            0 <= pos <= n,
            n == r@.len(),
            forall|a: int| 0 <= a < pos ==> !party_lt(*p, #[trigger] r@[a]),
        decreases n - pos,
    {
        pos += 1;
    }
    proof {
        lemma_party_order();
        assert forall|a: int| pos <= a < r@.len() implies party_lt(*p, #[trigger] r@[a]) by {
            if a > pos {
                assert(!party_lt(r@[a], r@[pos as int]));
            }
        }
    }
    pos
}

/// `party_lt` computed.
fn party_lt_exec(a: &Party, b: &Party) -> (r: bool)
    ensures
        r == party_lt(*a, *b),
{
    let al = chars_of(a.location.as_str());
    let bl = chars_of(b.location.as_str());
    if chars_lt_exec(&al, &bl) {
        return true;
    }
    if !chars_eq(&al, &bl) {
        return false;
    }
    let ao = chars_of(a.occasion.as_str());
    let bo = chars_of(b.occasion.as_str());
    chars_lt_exec(&ao, &bo)
}

/// `party_lt` is a strict total order on the (venue, occasion) pairs.
proof fn lemma_party_order()
    ensures
        forall|a: Party, b: Party, c: Party|
            #[trigger] party_lt(a, b) && #[trigger] party_lt(b, c) ==> party_lt(a, c),
        forall|a: Party, b: Party|
            !party_lt(a, b) && !party_lt(b, a) ==> a.location@ == b.location@ && a.occasion@
                == b.occasion@,
        forall|a: Party| !party_lt(a, a),
{
    assert forall|a: Party, b: Party, c: Party|
        #[trigger] party_lt(a, b) && #[trigger] party_lt(b, c) implies party_lt(a, c) by {
        lemma_chars_lt_transitive(a.location@, b.location@, c.location@);
        lemma_chars_lt_transitive(a.occasion@, b.occasion@, c.occasion@);
        lemma_chars_lt_irreflexive(a.location@);
        lemma_chars_lt_irreflexive(b.location@);
        lemma_chars_lt_asymmetric(a.location@, b.location@);
        lemma_chars_lt_asymmetric(b.location@, c.location@);
    }
    assert forall|a: Party, b: Party|
        !party_lt(a, b) && !party_lt(b, a) implies a.location@ == b.location@ && a.occasion@
            == b.occasion@ by {
        lemma_chars_lt_total(a.location@, b.location@);
        lemma_chars_lt_total(a.occasion@, b.occasion@);
    }
    assert forall|a: Party| !party_lt(a, a) by {
        lemma_chars_lt_irreflexive(a.location@);
        lemma_chars_lt_irreflexive(a.occasion@);
    }
}

/// Draws a random scenario from a non-empty deck.
pub fn draw(deck: Vec<Scenario>) -> (r: Scenario)
    requires
        deck@.len() > 0,
    ensures
        exists|i: int| 0 <= i < deck@.len() && r == deck@[i],
{
    let n = deck.len();
    let mut indices: Vec<usize> = Vec::new();
    let mut i: usize = 0;
    while i < n
        invariant
            0 <= i <= n,
            indices@.len() == i,
            forall|k: int| 0 <= k < i ==> indices@[k] == k,
        decreases n - i,
    {
        indices.push(i);
        i += 1;
    }
    let idx = match pick_one(&indices) {
        Some(k) => k,
        None => 0,
    };
    let mut d = deck;
    let ghost before = d@;
    let r = d.swap_remove(idx);
    assert(r == before[idx as int]);
    r
}

} // verus!

//! Character-level text routines over `Seq<char>`: trimming, line splitting,
//! substring search, word splitting and joining, UTF-8 byte lengths.
//! Exec code works on `Vec<char>`; every routine states its result through the
//! spec functions defined here.
use vstd::prelude::*;

verus! {

/// `char::is_whitespace`: the Unicode `White_Space` property.
pub open spec fn is_whitespace(c: char) -> bool {
    let u = c as u32;
    ||| 0x9 <= u <= 0xd
    ||| u == 0x20
    ||| u == 0x85
    ||| u == 0xa0
    ||| u == 0x1680
    ||| 0x2000 <= u <= 0x200a
    ||| u == 0x2028
    ||| u == 0x2029
    ||| u == 0x202f
    ||| u == 0x205f
    ||| u == 0x3000
}

/// The classes of characters that the text routines trim at or split on.
#[derive(Clone, Copy, PartialEq, Eq)]
pub enum CharClass {
    /// Unicode whitespace, as `char::is_whitespace` decides it.
    Whitespace,
    /// The line feed `'\n'`.
    Newline,
    /// A double quote, a single quote or an asterisk.
    QuoteMark,
}

impl CharClass {
    pub open spec fn holds(self, c: char) -> bool {
        match self {
            CharClass::Whitespace => is_whitespace(c),
            CharClass::Newline => c == '\n',
            CharClass::QuoteMark => c == '"' || c == '\'' || c == '*',
        }
    }

    pub fn test(&self, c: char) -> (r: bool)
        ensures
            r == self.holds(c),
    {
        match self {
            CharClass::Whitespace => {
                let u = c as u32;
                (0x9 <= u && u <= 0xd) || u == 0x20 || u == 0x85 || u == 0xa0 || u == 0x1680 || (
                0x2000 <= u && u <= 0x200a) || u == 0x2028 || u == 0x2029 || u == 0x202f || u
                    == 0x205f || u == 0x3000
            },
            CharClass::Newline => c == '\n',
            CharClass::QuoteMark => c == '"' || c == '\'' || c == '*',
        }
    }
}

/// `s` with every leading character of class `k` removed.
pub open spec fn trim_start_by(s: Seq<char>, k: CharClass) -> Seq<char>
    decreases s.len(),
{
    if s.len() > 0 && k.holds(s[0]) {
        trim_start_by(s.drop_first(), k)
    } else {
        s
    }
}

/// `s` with every trailing character of class `k` removed.
pub open spec fn trim_end_by(s: Seq<char>, k: CharClass) -> Seq<char>
    decreases s.len(),
{
    if s.len() > 0 && k.holds(s.last()) {
        trim_end_by(s.drop_last(), k)
    } else {
        s
    }
}

/// `str::trim_matches` with the class `k` as the pattern.
pub open spec fn trim_by(s: Seq<char>, k: CharClass) -> Seq<char> {
    trim_end_by(trim_start_by(s, k), k)
}

/// `str::trim`.
pub open spec fn trim(s: Seq<char>) -> Seq<char> {
    trim_by(s, CharClass::Whitespace)
}

/// The index of the first character of class `k` in `s`, or `s.len()` when there is none.
pub open spec fn first_in_class(s: Seq<char>, k: CharClass) -> nat
    decreases s.len(),
{
    if s.len() == 0 {
        0
    } else if k.holds(s[0]) {
        0
    } else {
        1 + first_in_class(s.drop_first(), k)
    }
}

pub proof fn lemma_first_in_class_bound(s: Seq<char>, k: CharClass)
    ensures
        first_in_class(s, k) <= s.len(),
        first_in_class(s, k) < s.len() ==> k.holds(s[first_in_class(s, k) as int]),
        forall|i: int| 0 <= i < first_in_class(s, k) ==> !k.holds(#[trigger] s[i]),
    decreases s.len(),
{
    if s.len() > 0 && !k.holds(s[0]) {
        lemma_first_in_class_bound(s.drop_first(), k);
        assert forall|i: int| 0 <= i < first_in_class(s, k) implies !k.holds(#[trigger] s[i]) by {
            if i > 0 {
                assert(s[i] == s.drop_first()[i - 1]);
            }
        }
    }
}

/// `first_in_class` of a prefix free of class `k` followed by a rest that starts
/// with a character of class `k` (or is empty) is the length of the prefix.
pub proof fn lemma_first_in_class_append(a: Seq<char>, b: Seq<char>, k: CharClass)
    requires
        forall|i: int| 0 <= i < a.len() ==> !k.holds(#[trigger] a[i]),
        b.len() == 0 || k.holds(b[0]),
    ensures
        first_in_class(a + b, k) == a.len(),
    decreases a.len(),
{
    if a.len() > 0 {
        assert((a + b).drop_first() =~= a.drop_first() + b);
        lemma_first_in_class_append(a.drop_first(), b, k);
    } else {
        assert(a + b =~= b);
    }
}

/// The lines of `s`, as `str::lines` gives them: split at `'\n'`, a `'\r'`
/// right before the `'\n'` removed, and no empty last line after a final `'\n'`.
pub open spec fn lines(s: Seq<char>) -> Seq<Seq<char>>
    decreases s.len(),
{
    if s.len() == 0 {
        Seq::empty()
    } else {
        let k = first_in_class(s, CharClass::Newline);
        if k >= s.len() {
            seq![s]
        } else {
            seq![strip_cr(s.take(k as int))] + lines(s.skip(k + 1 as int))
        }
    }
}

/// A line with a trailing carriage return removed.
pub open spec fn strip_cr(l: Seq<char>) -> Seq<char> {
    if l.len() > 0 && l.last() == '\r' {
        l.drop_last()
    } else {
        l
    }
}

/// The character sequences held by a sequence of character vectors.
pub open spec fn views(v: Seq<Vec<char>>) -> Seq<Seq<char>> {
    v.map_values(|l: Vec<char>| l@)
}

/// `s[i..j]` as a new vector.
pub fn subvec(s: &Vec<char>, i: usize, j: usize) -> (r: Vec<char>)
    requires
        i <= j <= s.len(),
    ensures
        r@ == s@.subrange(i as int, j as int),
{
    let mut r: Vec<char> = Vec::new();
    let mut k = i;
    while k < j
        invariant
            i <= k <= j <= s.len(),
            r@ == s@.subrange(i as int, k as int),
        decreases j - k,
    {
        r.push(s[k]);
        k += 1;
        assert(r@ =~= s@.subrange(i as int, k as int));
    }
    r
}

/// The characters of `s`, in order.
pub fn chars_of(s: &str) -> (res: Vec<char>)
    ensures
        res@ == s@,
{
    let mut res: Vec<char> = Vec::new();
    for c in it: s.chars()
        invariant
            res@ == it.seq().take(it.index() as int),
            it.seq() == s@,
    {
        res.push(c);
    }
    res
}

/// `s` with the characters of class `k` trimmed from both ends.
pub fn trim_class(s: &Vec<char>, k: CharClass) -> (r: Vec<char>)
    ensures
        r@ == trim_by(s@, k),
{
    let n = s.len();
    let mut i: usize = 0;
    assert(s@.skip(0) =~= s@);
    while i < n && k.test(s[i])
        invariant
            0 <= i <= n,
            n == s@.len(),
            trim_start_by(s@, k) == trim_start_by(s@.skip(i as int), k),
        decreases n - i,
    {
        assert(s@.skip(i as int).drop_first() =~= s@.skip(i + 1));
        i += 1;
    }
    if i == n {
        assert(s@.skip(i as int) =~= Seq::<char>::empty());
    }
    assert(trim_start_by(s@, k) == s@.subrange(i as int, n as int));
    let mut j: usize = n;
    while j > i && k.test(s[j - 1])
        invariant
            i <= j <= n,
            n == s@.len(),
            trim_end_by(s@.subrange(i as int, n as int), k) == trim_end_by(
                s@.subrange(i as int, j as int),
                k,
            ),
        decreases j,
    {
        assert(s@.subrange(i as int, j as int).drop_last() =~= s@.subrange(i as int, j - 1));
        j -= 1;
    }
    subvec(s, i, j)
}

/// `str::trim`.
pub fn trim_ws(s: &Vec<char>) -> (r: Vec<char>)
    ensures
        r@ == trim(s@),
{
    trim_class(s, CharClass::Whitespace)
}

/// The lines of `s` (see `lines`).
pub fn lines_of(s: &Vec<char>) -> (r: Vec<Vec<char>>)
    ensures
        views(r@) == lines(s@),
{
    let n = s.len();
    let mut done: Vec<Vec<char>> = Vec::new();
    let mut cur: Vec<char> = Vec::new();
    let mut i: usize = 0;
    assert(views(done@) + lines(cur@ + s@.skip(0)) =~= lines(s@)) by {
        assert(cur@ + s@.skip(0) =~= s@);
    }
    while i < n
        invariant
            0 <= i <= n,
            n == s@.len(),
            forall|j: int| 0 <= j < cur@.len() ==> cur@[j] != '\n',
            lines(s@) == views(done@) + lines(cur@ + s@.skip(i as int)),
        decreases n - i,
    {
        let c = s[i];
        let ghost rest = cur@ + s@.skip(i as int);
        if c == '\n' {
            proof {
                assert(s@.skip(i as int) =~= seq![c] + s@.skip(i + 1));
                lemma_first_in_class_append(cur@, s@.skip(i as int), CharClass::Newline);
                assert(rest.take(cur@.len() as int) =~= cur@);
                assert(rest.skip(cur@.len() + 1 as int) =~= s@.skip(i + 1));
                assert(Seq::<char>::empty() + s@.skip(i + 1) =~= s@.skip(i + 1));
            }
            let line = if cur.len() > 0 && cur[cur.len() - 1] == '\r' {
                let l = cur.len() - 1;
                subvec(&cur, 0, l)
            } else {
                subvec(&cur, 0, cur.len())
            };
            assert(line@ == strip_cr(cur@)) by {
                assert(cur@.subrange(0, cur@.len() as int) =~= cur@);
                if cur@.len() > 0 {
                    assert(cur@.subrange(0, cur@.len() - 1) =~= cur@.drop_last());
                }
            }
            let ghost before = views(done@);
            done.push(line);
            assert(views(done@) =~= before.push(line@));
            assert(views(done@) + lines(s@.skip(i + 1)) =~= before + lines(rest));
            cur = Vec::new();
            assert(cur@ + s@.skip(i + 1) =~= s@.skip(i + 1));
        } else {
            cur.push(c);
            assert(cur@ + s@.skip(i + 1) =~= rest);
        }
        i += 1;
    }
    proof {
        assert(cur@ + s@.skip(n as int) =~= cur@);
        if cur@.len() > 0 {
            lemma_first_in_class_append(cur@, Seq::<char>::empty(), CharClass::Newline);
            assert(cur@ + Seq::<char>::empty() =~= cur@);
        }
    }
    if cur.len() > 0 {
        let ghost before = views(done@);
        let ghost last = cur@;
        done.push(cur);
        assert(views(done@) =~= before.push(last));
        assert(lines(last) =~= seq![last]);
    } else {
        assert(cur@ + s@.skip(n as int) =~= Seq::<char>::empty());
        assert(views(done@) =~= views(done@) + lines(Seq::<char>::empty()));
    }
    done
}


// ---- substring search --------------------------------------------------

/// `needle` occurs in `hay` starting at index `i`.
pub open spec fn matches_at(hay: Seq<char>, needle: Seq<char>, i: int) -> bool {
    &&& 0 <= i
    &&& i + needle.len() <= hay.len()
    &&& forall|j: int| 0 <= j < needle.len() ==> hay[i + j] == #[trigger] needle[j]
}

/// The first index at or after `i` where `needle` occurs in `hay`.
pub open spec fn find_from(hay: Seq<char>, needle: Seq<char>, i: int) -> Option<int>
    decreases hay.len() - i,
{
    if i < 0 || i + needle.len() > hay.len() {
        None
    } else if matches_at(hay, needle, i) {
        Some(i)
    } else {
        find_from(hay, needle, i + 1)
    }
}

/// `str::find`, counted in characters: the first index where `needle` occurs in `hay`.
pub open spec fn find(hay: Seq<char>, needle: Seq<char>) -> Option<int> {
    find_from(hay, needle, 0)
}

/// `str::contains`.
pub open spec fn contains(hay: Seq<char>, needle: Seq<char>) -> bool {
    find(hay, needle) is Some
}

/// What `find_from` returns is the least match at or after `i`.
pub proof fn lemma_find_from(hay: Seq<char>, needle: Seq<char>, i: int)
    requires
        0 <= i,
    ensures
        find_from(hay, needle, i) matches Some(k) ==> i <= k && matches_at(hay, needle, k) && (
        forall|m: int| i <= m < k ==> !matches_at(hay, needle, m)),
        find_from(hay, needle, i) is None ==> forall|m: int| i <= m ==> !matches_at(
            hay,
            needle,
            m,
        ),
    decreases hay.len() - i,
{
    if i + needle.len() > hay.len() {
    } else if matches_at(hay, needle, i) {
    } else {
        lemma_find_from(hay, needle, i + 1);
    }
}

/// Whether `needle` occurs in `hay` at index `i`.
pub fn matches_at_exec(hay: &Vec<char>, needle: &Vec<char>, i: usize) -> (r: bool)
    requires
        i + needle.len() <= hay.len(),
    ensures
        r == matches_at(hay@, needle@, i as int),
{
    let m = needle.len();
    let mut j: usize = 0;
    while j < m
        invariant
            0 <= j <= m,
            m == needle@.len(),
            i + m <= hay@.len(),
            forall|k: int| 0 <= k < j ==> hay@[i + k] == #[trigger] needle@[k],
        decreases m - j,
    {
        assert(i + j < hay.len());
        if hay[i + j] != needle[j] {
            return false;
        }
        j += 1;
    }
    true
}

/// `str::find`, counted in characters.
pub fn find_exec(hay: &Vec<char>, needle: &Vec<char>) -> (r: Option<usize>)
    ensures
        r matches Some(k) ==> find(hay@, needle@) == Some(k as int),
        r is None ==> find(hay@, needle@) is None,
{
    let n = hay.len();
    let m = needle.len();
    if m > n {
        return None;
    }
    let mut i: usize = 0;
    while i <= n - m
        invariant
            0 <= i <= n,
            n == hay@.len(),
            m == needle@.len(),
            m <= n,
            find(hay@, needle@) == find_from(hay@, needle@, i as int),
        decreases n - i,
    {
        if matches_at_exec(hay, needle, i) {
            return Some(i);
        }
        i += 1;
    }
    None
}

// ---- UTF-8 byte lengths -------------------------------------------------

/// `char::len_utf8`.
pub open spec fn utf8_width(c: char) -> nat {
    let u = c as u32;
    if u <= 0x7f {
        1
    } else if u <= 0x7ff {
        2
    } else if u <= 0xffff {
        3
    } else {
        4
    }
}

/// The number of bytes of the UTF-8 encoding of `s` (`str::len`).
pub open spec fn utf8_len(s: Seq<char>) -> nat
    decreases s.len(),
{
    if s.len() == 0 {
        0
    } else {
        utf8_len(s.drop_last()) + utf8_width(s.last())
    }
}

pub proof fn lemma_utf8_len_bounds(s: Seq<char>)
    ensures
        s.len() <= utf8_len(s) <= 4 * s.len(),
    decreases s.len(),
{
    if s.len() > 0 {
        lemma_utf8_len_bounds(s.drop_last());
    }
}

/// Longer prefixes have strictly more bytes.
pub proof fn lemma_utf8_len_prefix_strict(s: Seq<char>, i: int, j: int)
    requires
        0 <= i < j <= s.len(),
    ensures
        utf8_len(s.take(i)) < utf8_len(s.take(j)),
    decreases j - i,
{
    assert(s.take(j).drop_last() =~= s.take(j - 1));
    if i < j - 1 {
        lemma_utf8_len_prefix_strict(s, i, j - 1);
    }
}

/// `c.len_utf8()`.
pub fn utf8_width_exec(c: char) -> (r: usize)
    ensures
        r == utf8_width(c),
{
    let u = c as u32;
    if u <= 0x7f {
        1
    } else if u <= 0x7ff {
        2
    } else if u <= 0xffff {
        3
    } else {
        4
    }
}

/// `utf8_len` of a one-step longer prefix.
pub proof fn lemma_utf8_len_take_step(s: Seq<char>, i: int)
    requires
        0 <= i < s.len(),
    ensures
        utf8_len(s.take(i + 1)) == utf8_len(s.take(i)) + utf8_width(s[i]),
{
    assert(s.take(i + 1).drop_last() =~= s.take(i));
}

/// `utf8_len` adds up over concatenation.
pub proof fn lemma_utf8_len_concat(a: Seq<char>, b: Seq<char>)
    ensures
        utf8_len(a + b) == utf8_len(a) + utf8_len(b),
    decreases b.len(),
{
    if b.len() > 0 {
        assert((a + b).drop_last() =~= a + b.drop_last());
        lemma_utf8_len_concat(a, b.drop_last());
    } else {
        assert(a + b =~= a);
    }
}

/// Whether `s` takes fewer than `limit` bytes in UTF-8 (`s.len() < limit` on a `str`).
pub fn utf8_len_below(s: &Vec<char>, limit: usize) -> (r: bool)
    ensures
        r == (utf8_len(s@) < limit),
{
    if limit == 0 {
        return false;
    }
    let n = s.len();
    let mut rem = limit;
    let mut i: usize = 0;
    assert(s@.take(0) =~= Seq::<char>::empty());
    while i < n
        invariant
            0 <= i <= n,
            n == s@.len(),
            rem > 0,
            utf8_len(s@.take(i as int)) + rem == limit,
        decreases n - i,
    {
        proof {
            lemma_utf8_len_take_step(s@, i as int);
        }
        let w = utf8_width_exec(s[i]);
        if w >= rem {
            proof {
                if i + 1 < n {
                    lemma_utf8_len_prefix_strict(s@, i + 1, n as int);
                }
                assert(s@.take(n as int) =~= s@);
            }
            return false;
        }
        rem = rem - w;
        i += 1;
    }
    assert(s@.take(n as int) =~= s@);
    true
}

/// `j` is the character index at which byte offset `b` of `s` falls between characters.
pub open spec fn is_boundary_index(s: Seq<char>, j: int, b: int) -> bool {
    0 <= j <= s.len() && utf8_len(s.take(j)) == b
}

/// `&s[b..]` for a byte offset `b`: `None` where that slice panics because `b`
/// is past the end or inside a character.
pub open spec fn suffix_from_byte(s: Seq<char>, b: int) -> Option<Seq<char>> {
    if exists|j: int| is_boundary_index(s, j, b) {
        Some(s.skip(choose|j: int| is_boundary_index(s, j, b)))
    } else {
        None
    }
}

/// `&t[b..]` where `b` is the number of UTF-8 bytes of the first `k` characters of `u`.
pub fn suffix_at_byte_of_prefix(t: &Vec<char>, u: &Vec<char>, k: usize) -> (r: Option<Vec<char>>)
    requires
        k <= u.len(),
    ensures
        r matches Some(v) ==> suffix_from_byte(t@, utf8_len(u@.take(k as int)) as int) == Some(
            v@,
        ),
        r is None ==> suffix_from_byte(t@, utf8_len(u@.take(k as int)) as int) is None,
{
    let n = t.len();
    let ghost target = utf8_len(u@.take(k as int)) as int;
    let mut i: usize = 0;
    let mut j: usize = 0;
    let mut diff: i64 = 0;
    assert(t@.take(0) =~= Seq::<char>::empty());
    assert(u@.take(0) =~= Seq::<char>::empty());
    while i < k
        invariant
            0 <= i <= k <= u@.len(),
            0 <= j <= n,
            n == t@.len(),
            target == utf8_len(u@.take(k as int)),
            diff == utf8_len(t@.take(j as int)) - utf8_len(u@.take(i as int)),
            0 <= diff <= 3,
            j > 0 ==> utf8_len(t@.take(j - 1)) < utf8_len(u@.take(i as int)),
            j == 0 ==> diff == 0,
        decreases k - i,
    {
        proof {
            lemma_utf8_len_take_step(u@, i as int);
        }
        let w = utf8_width_exec(u[i]);
        diff = diff - (w as i64);
        i += 1;
        while diff < 0 && j < n
            invariant
                0 <= i <= k <= u@.len(),
                0 <= j <= n,
                n == t@.len(),
                diff == utf8_len(t@.take(j as int)) - utf8_len(u@.take(i as int)),
                -4 <= diff <= 3,
                j > 0 ==> utf8_len(t@.take(j - 1)) < utf8_len(u@.take(i as int)),
            decreases n - j,
        {
            proof {
                lemma_utf8_len_take_step(t@, j as int);
            }
            let w = utf8_width_exec(t[j]);
            diff = diff + (w as i64);
            j += 1;
        }
        if diff < 0 {
            proof {
                if i < k {
                    lemma_utf8_len_prefix_strict(u@, i as int, k as int);
                }
                assert forall|m: int| !is_boundary_index(t@, m, target) by {
                    if 0 <= m < n {
                        lemma_utf8_len_prefix_strict(t@, m, n as int);
                    }
                    assert(t@.take(n as int) =~= t@.take(j as int));
                }
            }
            return None;
        }
    }
    if diff == 0 {
        proof {
            assert(is_boundary_index(t@, j as int, target));
            let m = choose|m: int| is_boundary_index(t@, m, target);
            if m < j {
                lemma_utf8_len_prefix_strict(t@, m, j as int);
            } else if m > j {
                lemma_utf8_len_prefix_strict(t@, j as int, m);
            }
        }
        Some(subvec(t, j, n))
    } else {
        proof {
            assert forall|m: int| !is_boundary_index(t@, m, target) by {
                if 0 <= m <= n {
                    if m < j - 1 {
                        lemma_utf8_len_prefix_strict(t@, m, j - 1);
                    } else if m > j {
                        lemma_utf8_len_prefix_strict(t@, j as int, m);
                    }
                }
            }
        }
        None
    }
}

// ---- words ------------------------------------------------------------------

/// `str::split_whitespace`: the maximal runs of non-whitespace characters.
pub open spec fn split_ws(s: Seq<char>) -> Seq<Seq<char>>
    decreases s.len(),
{
    if s.len() == 0 {
        Seq::empty()
    } else if is_whitespace(s[0]) {
        split_ws(s.drop_first())
    } else {
        let k = first_in_class(s, CharClass::Whitespace);
        proof {
            lemma_first_in_class_bound(s, CharClass::Whitespace);
        }
        seq![s.take(k as int)] + split_ws(s.skip(k as int))
    }
}

/// `words.join(sep)`.
pub open spec fn join(words: Seq<Seq<char>>, sep: Seq<char>) -> Seq<char>
    decreases words.len(),
{
    if words.len() == 0 {
        Seq::empty()
    } else if words.len() == 1 {
        words[0]
    } else {
        join(words.drop_last(), sep) + sep + words.last()
    }
}

/// The whitespace-separated words of `s`.
pub fn split_ws_exec(s: &Vec<char>) -> (r: Vec<Vec<char>>)
    ensures
        views(r@) == split_ws(s@),
{
    let n = s.len();
    let mut done: Vec<Vec<char>> = Vec::new();
    let mut cur: Vec<char> = Vec::new();
    let mut i: usize = 0;
    assert(views(done@) + split_ws(cur@ + s@.skip(0)) =~= split_ws(s@)) by {
        assert(cur@ + s@.skip(0) =~= s@);
    }
    while i < n
        invariant
            0 <= i <= n,
            n == s@.len(),
            forall|j: int| 0 <= j < cur@.len() ==> !is_whitespace(#[trigger] cur@[j]),
            split_ws(s@) == views(done@) + split_ws(cur@ + s@.skip(i as int)),
        decreases n - i,
    {
        let c = s[i];
        let ghost rest = cur@ + s@.skip(i as int);
        if CharClass::Whitespace.test(c) {
            assert(s@.skip(i as int) =~= seq![c] + s@.skip(i + 1));
            if cur.len() > 0 {
                proof {
                    lemma_first_in_class_append(
                        cur@,
                        s@.skip(i as int),
                        CharClass::Whitespace,
                    );
                    assert(rest.take(cur@.len() as int) =~= cur@);
                    assert(rest.skip(cur@.len() as int) =~= s@.skip(i as int));
                    assert(s@.skip(i as int).drop_first() =~= s@.skip(i + 1));
                }
                assert(rest[0] == cur@[0]);
                assert(split_ws(rest) == seq![cur@] + split_ws(s@.skip(i as int)));
                assert(split_ws(s@.skip(i as int)) == split_ws(s@.skip(i + 1)));
                let ghost before = views(done@);
                let ghost word = cur@;
                done.push(cur);
                assert(views(done@) =~= before.push(word));
                cur = Vec::new();
                assert(cur@ + s@.skip(i + 1) =~= s@.skip(i + 1));
                assert(views(done@) + split_ws(s@.skip(i + 1)) =~= before + split_ws(rest));
            } else {
                assert(rest =~= s@.skip(i as int));
                assert(s@.skip(i as int).drop_first() =~= s@.skip(i + 1));
                assert(cur@ + s@.skip(i + 1) =~= s@.skip(i + 1));
            }
        } else {
            cur.push(c);
            assert(cur@ + s@.skip(i + 1) =~= rest);
        }
        i += 1;
    }
    assert(cur@ + s@.skip(n as int) =~= cur@);
    if cur.len() > 0 {
        proof {
            lemma_first_in_class_append(cur@, Seq::<char>::empty(), CharClass::Whitespace);
            assert(cur@ + Seq::<char>::empty() =~= cur@);
            assert(cur@.take(cur@.len() as int) =~= cur@);
            assert(cur@.skip(cur@.len() as int) =~= Seq::<char>::empty());
        }
        let ghost before = views(done@);
        let ghost last = cur@;
        done.push(cur);
        assert(views(done@) =~= before.push(last));
        assert(split_ws(last.skip(last.len() as int)) =~= Seq::<Seq<char>>::empty());
        assert(split_ws(last) =~= seq![last]);
    } else {
        assert(views(done@) =~= views(done@) + split_ws(Seq::<char>::empty()));
    }
    done
}

/// Appends `src` to `dst`.
pub fn append_chars(dst: &mut Vec<char>, src: &Vec<char>)
    ensures
        final(dst)@ == old(dst)@ + src@,
{
    let n = src.len();
    let mut i: usize = 0;
    while i < n
        invariant
            0 <= i <= n,
            n == src@.len(),
            dst@ == old(dst)@ + src@.take(i as int),
        decreases n - i,
    {
        dst.push(src[i]);
        i += 1;
        assert(dst@ =~= old(dst)@ + src@.take(i as int));
    }
    assert(src@.take(n as int) =~= src@);
}

/// Whether two character vectors are equal.
pub fn chars_eq(a: &Vec<char>, b: &Vec<char>) -> (r: bool)
    ensures
        r == (a@ == b@),
{
    if a.len() != b.len() {
        return false;
    }
    let n = a.len();
    let mut i: usize = 0;
    while i < n
        invariant
            0 <= i <= n,
            n == a@.len(),
            n == b@.len(),
            forall|k: int| 0 <= k < i ==> a@[k] == b@[k],
        decreases n - i,
    {
        if a[i] != b[i] {
            return false;
        }
        i += 1;
    }
    assert(a@ =~= b@);
    true
}

// ---- ordering -------------------------------------------------------------

/// `str` ordering: lexicographic by code point (which is the byte order of UTF-8).
pub open spec fn chars_lt(a: Seq<char>, b: Seq<char>) -> bool
    decreases a.len(),
{
    if a.len() == 0 {
        b.len() > 0
    } else if b.len() == 0 {
        false
    } else if a[0] != b[0] {
        (a[0] as u32) < (b[0] as u32)
    } else {
        chars_lt(a.drop_first(), b.drop_first())
    }
}

pub proof fn lemma_chars_lt_irreflexive(a: Seq<char>)
    ensures
        !chars_lt(a, a),
    decreases a.len(),
{
    if a.len() > 0 {
        lemma_chars_lt_irreflexive(a.drop_first());
    }
}

pub proof fn lemma_chars_lt_asymmetric(a: Seq<char>, b: Seq<char>)
    ensures
        !(chars_lt(a, b) && chars_lt(b, a)),
    decreases a.len(),
{
    if a.len() > 0 && b.len() > 0 && a[0] == b[0] {
        lemma_chars_lt_asymmetric(a.drop_first(), b.drop_first());
    }
}

pub proof fn lemma_chars_lt_transitive(a: Seq<char>, b: Seq<char>, c: Seq<char>)
    ensures
        chars_lt(a, b) && chars_lt(b, c) ==> chars_lt(a, c),
    decreases a.len(),
{
    if a.len() > 0 && b.len() > 0 && c.len() > 0 {
        lemma_chars_lt_transitive(a.drop_first(), b.drop_first(), c.drop_first());
        if a[0] != b[0] && b[0] != c[0] && a[0] == c[0] {
            assert((a[0] as u32) == (c[0] as u32));
        }
        if a[0] == b[0] && b[0] != c[0] {
        }
    }
}

pub proof fn lemma_chars_lt_total(a: Seq<char>, b: Seq<char>)
    ensures
        chars_lt(a, b) || chars_lt(b, a) || a == b,
    decreases a.len(),
{
    if a.len() == 0 && b.len() == 0 {
        assert(a =~= b);
    } else if a.len() > 0 && b.len() > 0 {
        if a[0] == b[0] {
            lemma_chars_lt_total(a.drop_first(), b.drop_first());
            if a.drop_first() == b.drop_first() {
                assert(a =~= seq![a[0]] + a.drop_first());
                assert(b =~= seq![b[0]] + b.drop_first());
            }
        } else {
            vstd::utf8::char_u32_cast(a[0], a[0] as u32);
            vstd::utf8::char_u32_cast(b[0], b[0] as u32);
        }
    }
}

/// `a < b` on strings.
pub fn chars_lt_exec(a: &Vec<char>, b: &Vec<char>) -> (r: bool)
    ensures
        r == chars_lt(a@, b@),
{
    let n = a.len();
    let m = b.len();
    let mut i: usize = 0;
    assert(a@.skip(0) =~= a@);
    assert(b@.skip(0) =~= b@);
    while i < n && i < m && a[i] == b[i]
        invariant
            0 <= i <= n,
            i <= m,
            n == a@.len(),
            m == b@.len(),
            chars_lt(a@, b@) == chars_lt(a@.skip(i as int), b@.skip(i as int)),
        decreases n - i,
    {
        assert(a@.skip(i as int).drop_first() =~= a@.skip(i + 1));
        assert(b@.skip(i as int).drop_first() =~= b@.skip(i + 1));
        i += 1;
    }
    if i == n {
        i < m
    } else if i == m {
        false
    } else {
        (a[i] as u32) < (b[i] as u32)
    }
}

// ---- numbers ----------------------------------------------------------------

/// An ASCII decimal digit.
pub open spec fn is_digit(c: char) -> bool {
    48 <= (c as u32) <= 57
}

/// The value of a string of decimal digits.
pub open spec fn digits_value(d: Seq<char>) -> nat
    decreases d.len(),
{
    if d.len() == 0 {
        0
    } else {
        digits_value(d.drop_last()) * 10 + ((d.last() as u32) - 48) as nat
    }
}

/// `str::parse::<u8>`: an optional `+`, then one or more ASCII digits whose
/// value is at most 255.
pub open spec fn parse_u8_spec(s: Seq<char>) -> Option<u8> {
    if all_digits(sign_stripped(s)) && digits_value(sign_stripped(s)) <= 255 {
        Some(digits_value(sign_stripped(s)) as u8)
    } else {
        None
    }
}

/// `s` without one leading `+`.
pub open spec fn sign_stripped(s: Seq<char>) -> Seq<char> {
    if s.len() > 0 && s[0] == '+' {
        s.drop_first()
    } else {
        s
    }
}

/// `d` is one or more ASCII digits.
pub open spec fn all_digits(d: Seq<char>) -> bool {
    d.len() > 0 && forall|i: int| 0 <= i < d.len() ==> is_digit(#[trigger] d[i])
}

/// `s.parse::<u8>().ok()`.
pub fn parse_u8(s: &str) -> (r: Option<u8>)
    ensures
        r == parse_u8_spec(s@),
{
    let all = chars_of(s);
    let digits = if all.len() > 0 && all[0] == '+' {
        assert(all@.subrange(1, all@.len() as int) =~= all@.drop_first());
        subvec(&all, 1, all.len())
    } else {
        assert(all@.subrange(0, all@.len() as int) =~= all@);
        subvec(&all, 0, all.len())
    };
    let n = digits.len();
    if n == 0 {
        return None;
    }
    let mut acc: u32 = 0;
    let mut over = false;
    let mut i: usize = 0;
    assert(digits@.take(0) =~= Seq::<char>::empty());
    while i < n
        invariant
            0 <= i <= n,
            n == digits@.len(),
            digits@ == sign_stripped(s@),
            forall|k: int| 0 <= k < i ==> is_digit(#[trigger] digits@[k]),
            !over ==> acc == digits_value(digits@.take(i as int)) && acc <= 255,
            over ==> digits_value(digits@.take(i as int)) > 255,
        decreases n - i,
    {
        let c = digits[i];
        let u = c as u32;
        if u < 48 || u > 57 {
            assert(!is_digit(digits@[i as int]));
            return None;
        }
        assert(digits@.take(i + 1).drop_last() =~= digits@.take(i as int));
        if !over {
            let next = acc * 10 + (u - 48);
            if next > 255 {
                over = true;
            } else {
                acc = next;
            }
        }
        i += 1;
    }
    assert(digits@.take(n as int) =~= digits@);
    if over {
        None
    } else {
        Some(acc as u8)
    }
}

// ---- calls into std -----------------------------------------------------------

/// Names what `str::to_lowercase` returns for a string with the given characters.
pub uninterp spec fn lowercase(s: Seq<char>) -> Seq<char>;

/// Names what `char::is_alphanumeric` returns for a character.
pub uninterp spec fn alphanumeric(c: char) -> bool;

/// Every character of `s` is ASCII.
pub open spec fn all_ascii(s: Seq<char>) -> bool {
    forall|i: int| 0 <= i < s.len() ==> (#[trigger] s[i] as u32) < 128
}

/// The lowercase of an ASCII character: `A` to `Z` become `a` to `z`, the rest stay.
pub open spec fn ascii_lower(c: char) -> char {
    if 65 <= (c as u32) <= 90 {
        ((c as u32) + 32) as char
    } else {
        c
    }
}

/// Calls `str::to_lowercase`; its result is named `lowercase` of the
/// argument's characters. Lowercase is as the Unicode property defines it,
/// which on ASCII text maps `A` to `Z` to `a` to `z` and keeps the rest.
#[verifier::external_body]
pub(crate) fn to_lowercase(s: &str) -> (r: String)
    ensures
        r@ == lowercase(s@),
        all_ascii(s@) ==> r@ == s@.map_values(|c: char| ascii_lower(c)),
{
    s.to_lowercase()
}

/// Calls `char::is_alphanumeric`; its result is named `alphanumeric` of the character.
#[verifier::external_body]
pub(crate) fn is_alphanumeric(c: char) -> (r: bool)
    ensures
        r == alphanumeric(c),
{
    c.is_alphanumeric()
}

/// Collects characters into a `String` (`FromIterator<char>`), which holds them in order.
#[verifier::external_body]
pub(crate) fn string_from_chars(v: &Vec<char>) -> (r: String)
    ensures
        r@ == v@,
{
    v.iter().collect()
}


// -- facts about trimming ------------------------------------------------------

/// `a` is a contiguous part of `b`.
pub open spec fn is_part(a: Seq<char>, b: Seq<char>) -> bool {
    exists|i: int, j: int| 0 <= i <= j <= b.len() && a == b.subrange(i, j)
}

pub proof fn lemma_part_refl(a: Seq<char>)
    ensures
        is_part(a, a),
{
    assert(a =~= a.subrange(0, a.len() as int));
}

pub proof fn lemma_part_trans(a: Seq<char>, b: Seq<char>, c: Seq<char>)
    requires
        is_part(a, b),
        is_part(b, c),
    ensures
        is_part(a, c),
{
    let (i, j) = choose|i: int, j: int| 0 <= i <= j <= b.len() && a == b.subrange(i, j);
    let (k, l) = choose|k: int, l: int| 0 <= k <= l <= c.len() && b == c.subrange(k, l);
    assert(a =~= c.subrange(k + i, k + j));
}

proof fn lemma_trim_start_by(s: Seq<char>, k: CharClass)
    ensures
        exists|i: int| 0 <= i <= s.len() && trim_start_by(s, k) == s.skip(i),
        trim_start_by(s, k).len() > 0 ==> !k.holds(trim_start_by(s, k)[0]),
    decreases s.len(),
{
    if s.len() > 0 && k.holds(s[0]) {
        lemma_trim_start_by(s.drop_first(), k);
        let i = choose|i: int|
            0 <= i <= s.drop_first().len() && trim_start_by(s.drop_first(), k) == s.drop_first().skip(i);
        assert(s.drop_first().skip(i) =~= s.skip(i + 1));
    } else {
        assert(s.skip(0) =~= s);
    }
}

proof fn lemma_trim_end_by(s: Seq<char>, k: CharClass)
    ensures
        exists|j: int| 0 <= j <= s.len() && trim_end_by(s, k) == s.take(j),
        trim_end_by(s, k).len() > 0 ==> !k.holds(trim_end_by(s, k).last()),
        s.len() > 0 && !k.holds(s[0]) ==> trim_end_by(s, k).len() > 0 && trim_end_by(s, k)[0]
            == s[0],
    decreases s.len(),
{
    if s.len() > 0 && k.holds(s.last()) {
        lemma_trim_end_by(s.drop_last(), k);
        let j = choose|j: int|
            0 <= j <= s.drop_last().len() && trim_end_by(s.drop_last(), k) == s.drop_last().take(j);
        assert(s.drop_last().take(j) =~= s.take(j));
        if s.len() > 0 && !k.holds(s[0]) {
            assert(s.len() >= 2);
            assert(s.drop_last()[0] == s[0]);
        }
    } else {
        assert(s.take(s.len() as int) =~= s);
    }
}

/// `trim_by` gives a part of its input that neither starts nor ends with a
/// character of the class, keeps a first character outside the class, and
/// leaves its own result unchanged.
pub proof fn lemma_trim_by(s: Seq<char>, k: CharClass)
    ensures
        is_part(trim_by(s, k), s),
        trim_by(s, k).len() > 0 ==> !k.holds(trim_by(s, k)[0]) && !k.holds(trim_by(s, k).last()),
        trim_by(trim_by(s, k), k) == trim_by(s, k),
        s.len() > 0 && !k.holds(s[0]) ==> trim_by(s, k).len() > 0,
{
    let y = trim_start_by(s, k);
    lemma_trim_start_by(s, k);
    lemma_trim_end_by(y, k);
    let z = trim_end_by(y, k);
    let i = choose|i: int| 0 <= i <= s.len() && y == s.skip(i);
    let j = choose|j: int| 0 <= j <= y.len() && z == y.take(j);
    assert(z =~= s.subrange(i, i + j));
    lemma_trim_end_by(z, k);
    assert(trim_start_by(z, k) == z);
    assert(trim_end_by(z, k) == z);
    if s.len() > 0 && !k.holds(s[0]) {
        assert(y == s);
    }
}


/// A text that starts with a character outside a class keeps it when trimmed by the class.
pub proof fn lemma_trim_by_keeps_first(s: Seq<char>, k: CharClass)
    requires
        s.len() > 0,
        !k.holds(s[0]),
    ensures
        trim_by(s, k).len() > 0,
{
    assert(trim_start_by(s, k) == s);
    lemma_trim_end_by(s, k);
}


// -- facts about words ---------------------------------------------------------

/// No character of `w` is whitespace.
pub open spec fn no_ws(w: Seq<char>) -> bool {
    forall|i: int| 0 <= i < w.len() ==> !is_whitespace(#[trigger] w[i])
}

/// Every word of `split_ws(s)` is non-empty, free of whitespace and made of characters of `s`.
pub proof fn lemma_split_ws_words(s: Seq<char>)
    ensures
        forall|m: int|
            0 <= m < split_ws(s).len() ==> (#[trigger] split_ws(s)[m]).len() > 0 && no_ws(
                split_ws(s)[m],
            ) && forall|i: int| 0 <= i < split_ws(s)[m].len() ==> s.contains(split_ws(s)[m][i]),
    decreases s.len(),
{
    if s.len() == 0 {
    } else if is_whitespace(s[0]) {
        let r = s.drop_first();
        lemma_split_ws_words(r);
        assert forall|m: int| 0 <= m < split_ws(s).len() implies (#[trigger] split_ws(s)[m]).len()
            > 0 && no_ws(split_ws(s)[m]) && forall|i: int|
            0 <= i < split_ws(s)[m].len() ==> s.contains(split_ws(s)[m][i]) by {
            assert forall|i: int| 0 <= i < split_ws(s)[m].len() implies s.contains(split_ws(s)[m][i]) by {
                let j = choose|j: int| 0 <= j < r.len() && r[j] == split_ws(r)[m][i];
                assert(s[j + 1] == r[j]);
            }
        }
    } else {
        let k = first_in_class(s, CharClass::Whitespace);
        lemma_first_in_class_bound(s, CharClass::Whitespace);
        let w = s.take(k as int);
        let r = s.skip(k as int);
        assert(k > 0);
        lemma_split_ws_words(r);
        assert(split_ws(s) == seq![w] + split_ws(r));
        assert forall|m: int| 0 <= m < split_ws(s).len() implies (#[trigger] split_ws(s)[m]).len()
            > 0 && no_ws(split_ws(s)[m]) && forall|i: int|
            0 <= i < split_ws(s)[m].len() ==> s.contains(split_ws(s)[m][i]) by {
            if m == 0 {
                assert(split_ws(s)[0] == w);
                assert forall|i: int| 0 <= i < w.len() implies !is_whitespace(#[trigger] w[i]) by {
                    assert(w[i] == s[i]);
                    assert(!CharClass::Whitespace.holds(s[i]));
                }
                assert forall|i: int| 0 <= i < w.len() implies s.contains(w[i]) by {
                    assert(w[i] == s[i]);
                }
            } else {
                assert(split_ws(s)[m] == split_ws(r)[m - 1]);
                assert forall|i: int| 0 <= i < split_ws(s)[m].len() implies s.contains(
                    split_ws(s)[m][i],
                ) by {
                    let j = choose|j: int| 0 <= j < r.len() && r[j] == split_ws(r)[m - 1][i];
                    assert(s[j + k] == r[j]);
                }
            }
        }
    }
}

proof fn lemma_split_ws_single(w: Seq<char>)
    requires
        w.len() > 0,
        no_ws(w),
    ensures
        split_ws(w) == seq![w],
{
    assert(!is_whitespace(w[0]));
    assert forall|i: int| 0 <= i < w.len() implies !CharClass::Whitespace.holds(#[trigger] w[i]) by {}
    lemma_first_in_class_append(w, Seq::empty(), CharClass::Whitespace);
    assert(w + Seq::<char>::empty() =~= w);
    assert(first_in_class(w, CharClass::Whitespace) == w.len());
    assert(w.take(w.len() as int) =~= w);
    assert(w.skip(w.len() as int) =~= Seq::<char>::empty());
    assert(split_ws(Seq::<char>::empty()) == Seq::<Seq<char>>::empty());
    assert(split_ws(w) == seq![w.take(w.len() as int)] + split_ws(w.skip(w.len() as int)));
    assert(seq![w] + Seq::<Seq<char>>::empty() =~= seq![w]);
}

proof fn lemma_split_ws_append_word(a: Seq<char>, w: Seq<char>)
    requires
        w.len() > 0,
        no_ws(w),
    ensures
        split_ws(a + seq![' '] + w) == split_ws(a).push(w),
    decreases a.len(),
{
    let s = a + seq![' '] + w;
    assert(is_whitespace(' '));
    if a.len() == 0 {
        assert(s.drop_first() =~= w);
        lemma_split_ws_single(w);
        assert(split_ws(a) == Seq::<Seq<char>>::empty());
        assert(split_ws(a).push(w) =~= seq![w]);
    } else if is_whitespace(a[0]) {
        assert(s.drop_first() =~= a.drop_first() + seq![' '] + w);
        lemma_split_ws_append_word(a.drop_first(), w);
    } else {
        let ka = first_in_class(a, CharClass::Whitespace);
        lemma_first_in_class_bound(a, CharClass::Whitespace);
        if ka < a.len() {
            assert(a =~= a.take(ka as int) + a.skip(ka as int));
            assert(s =~= a.take(ka as int) + (a.skip(ka as int) + seq![' '] + w));
            lemma_first_in_class_append(a.take(ka as int), a.skip(ka as int) + seq![' '] + w, CharClass::Whitespace);
            lemma_first_in_class_append(a.take(ka as int), a.skip(ka as int), CharClass::Whitespace);
            assert(s.take(ka as int) =~= a.take(ka as int));
            assert(s.skip(ka as int) =~= a.skip(ka as int) + seq![' '] + w);
            lemma_split_ws_append_word(a.skip(ka as int), w);
            assert(split_ws(s) == seq![a.take(ka as int)] + split_ws(a.skip(ka as int)).push(w));
            assert(split_ws(a) == seq![a.take(ka as int)] + split_ws(a.skip(ka as int)));
            assert(split_ws(s) =~= split_ws(a).push(w));
        } else {
            assert(s =~= a + (seq![' '] + w));
            assert forall|i: int| 0 <= i < a.len() implies !CharClass::Whitespace.holds(#[trigger] a[i]) by {}
            lemma_first_in_class_append(a, seq![' '] + w, CharClass::Whitespace);
            assert(s.take(a.len() as int) =~= a);
            assert(s.skip(a.len() as int) =~= seq![' '] + w);
            lemma_split_ws_append_word(Seq::empty(), w);
            assert(Seq::<char>::empty() + seq![' '] + w =~= seq![' '] + w);
            assert(a.take(ka as int) =~= a);
            assert(a.skip(ka as int) =~= Seq::<char>::empty());
            assert(split_ws(a) == seq![a] + split_ws(Seq::<char>::empty()));
            assert(split_ws(s) =~= split_ws(a).push(w));
        }
    }
}

/// Splitting words joined by single spaces gives the words back, when each is
/// non-empty and free of whitespace.
pub proof fn lemma_split_ws_join(ws: Seq<Seq<char>>)
    requires
        forall|m: int| 0 <= m < ws.len() ==> (#[trigger] ws[m]).len() > 0 && no_ws(ws[m]),
    ensures
        split_ws(join(ws, seq![' '])) == ws,
    decreases ws.len(),
{
    if ws.len() == 0 {
        assert(split_ws(Seq::<char>::empty()) == Seq::<Seq<char>>::empty());
    } else if ws.len() == 1 {
        lemma_split_ws_single(ws[0]);
        assert(ws =~= seq![ws[0]]);
    } else {
        let rest = ws.drop_last();
        assert(ws[ws.len() - 1] == ws.last());
        lemma_split_ws_join(rest);
        lemma_split_ws_append_word(join(rest, seq![' ']), ws.last());
        assert(rest.push(ws.last()) =~= ws);
    }
}

/// Each character of `words.join(sep)` comes from a word or from `sep`.
pub proof fn lemma_join_chars(ws: Seq<Seq<char>>, sep: Seq<char>, p: spec_fn(char) -> bool)
    requires
        forall|m: int, i: int| 0 <= m < ws.len() && 0 <= i < ws[m].len() ==> p(#[trigger] ws[m][i]),
        forall|i: int| 0 <= i < sep.len() ==> p(#[trigger] sep[i]),
    ensures
        forall|i: int| 0 <= i < join(ws, sep).len() ==> p(#[trigger] join(ws, sep)[i]),
    decreases ws.len(),
{
    if ws.len() > 1 {
        let rest = ws.drop_last();
        assert forall|m: int, i: int| 0 <= m < rest.len() && 0 <= i < rest[m].len() implies p(
            #[trigger] rest[m][i],
        ) by {
            assert(rest[m] == ws[m]);
        }
        lemma_join_chars(rest, sep, p);
        let a = join(rest, sep);
        let w = ws.last();
        assert(w == ws[ws.len() - 1]);
        assert forall|i: int| 0 <= i < join(ws, sep).len() implies p(#[trigger] join(ws, sep)[i]) by {
            if i < a.len() {
                assert(join(ws, sep)[i] == a[i]);
            } else if i < a.len() + sep.len() {
                assert(join(ws, sep)[i] == sep[i - a.len()]);
            } else {
                assert(join(ws, sep)[i] == w[i - a.len() - sep.len()]);
            }
        }
    } else if ws.len() == 1 {
        assert forall|i: int| 0 <= i < join(ws, sep).len() implies p(#[trigger] join(ws, sep)[i]) by {
            assert(join(ws, sep)[i] == ws[0][i]);
        }
    }
}

} // verus!

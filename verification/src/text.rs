//! Character-level primitives shared by all the parsers: decimal numerals,
//! finding and splitting on separators, substring search, and the few
//! conversions between `String` values and character vectors.
//!
//! Text is modelled as `Seq<char>`, the view vstd gives to `str` and
//! `String`; the executable code works on `Vec<char>` and `&[char]`.
use vstd::prelude::*;

verus! {

// ---------------------------------------------------------------------------
// Decimal numerals
// ---------------------------------------------------------------------------
/// True of the ten decimal digit characters.
pub open spec fn is_digit(c: char) -> bool {
    '0' <= c && c <= '9'
}

/// The value of one decimal digit character.
pub open spec fn digit_val(c: char) -> int {
    c as u32 - '0' as u32
}

/// True when every character of `s` is a decimal digit.
pub open spec fn all_digits(s: Seq<char>) -> bool {
    forall|i: int| 0 <= i < s.len() ==> is_digit(#[trigger] s[i])
}

/// The value of `s` read as a decimal numeral (0 for the empty sequence).
pub open spec fn dec_val(s: Seq<char>) -> int
    decreases s.len(),
{
    if s.len() == 0 {
        0
    } else {
        dec_val(s.drop_last()) * 10 + digit_val(s.last())
    }
}

/// A numeral that denotes a port: nonempty, all digits, value at most 65535.
pub open spec fn is_u16_numeral(s: Seq<char>) -> bool {
    s.len() > 0 && all_digits(s) && dec_val(s) <= 65535
}

/// A numeral that fits one byte: nonempty, all digits, value at most 255.
pub open spec fn is_u8_numeral(s: Seq<char>) -> bool {
    s.len() > 0 && all_digits(s) && dec_val(s) <= 255
}

pub proof fn lemma_dec_val_nonneg(s: Seq<char>)
    requires
        all_digits(s),
    ensures
        dec_val(s) >= 0,
    decreases s.len(),
{
    if s.len() > 0 {
        assert(all_digits(s.drop_last()));
        lemma_dec_val_nonneg(s.drop_last());
    }
}

/// Extending a numeral by one digit multiplies its value by ten and adds the
/// digit.
pub proof fn lemma_dec_val_step(s: Seq<char>, i: int)
    requires
        0 <= i < s.len(),
    ensures
        dec_val(s.take(i + 1)) == dec_val(s.take(i)) * 10 + digit_val(s[i]),
{
    assert(s.take(i + 1).drop_last() =~= s.take(i));
    assert(s.take(i + 1).last() == s[i]);
}

/// Why a token failed to read as a number.
pub enum NumeralError {
    /// Empty, or holding a character that is not a decimal digit.
    NotNumeric,
    /// All digits, but denoting a value above the admitted bound.
    TooLarge,
}

/// Reads `s` as a decimal numeral denoting a 16-bit value.  Succeeds exactly
/// on nonempty digit strings whose value fits, and names the reason
/// otherwise.
pub fn parse_u16_chars(s: &[char]) -> (r: Result<u16, NumeralError>)
    ensures
        r is Ok <==> is_u16_numeral(s@),
        r matches Ok(n) ==> n == dec_val(s@),
        r matches Err(e) ==> (e is NotNumeric <==> (s@.len() == 0 || !all_digits(s@))),
{
    if s.len() == 0 {
        return Err(NumeralError::NotNumeric);
    }
    let ghost sq = s@;
    let mut acc: u32 = 0;
    let mut big: bool = false;
    let mut i: usize = 0;
    while i < s.len()
        invariant
            0 <= i <= sq.len(),
            sq == s@,
            all_digits(sq.take(i as int)),
            !big ==> acc == dec_val(sq.take(i as int)) && acc <= 65535,
            big ==> dec_val(sq.take(i as int)) > 65535,
        decreases sq.len() - i,
    {
        let c = s[i];
        if !('0' <= c && c <= '9') {
            assert(!all_digits(sq)) by {
                assert(sq[i as int] == c);
            }
            return Err(NumeralError::NotNumeric);
        }
        let d: u32 = (c as u32) - ('0' as u32);
        proof {
            lemma_dec_val_step(sq, i as int);
            assert(all_digits(sq.take(i as int + 1)));
        }
        if big {
            proof {
                lemma_dec_val_nonneg(sq.take(i as int));
            }
        } else if acc > 6553 || (acc == 6553 && d > 5) {
            big = true;
        } else {
            acc = acc * 10 + d;
        }
        i += 1;
    }
    proof {
        assert(sq.take(sq.len() as int) =~= sq);
    }
    if big {
        Err(NumeralError::TooLarge)
    } else {
        Ok(acc as u16)
    }
}

// ---------------------------------------------------------------------------
// Finding a separator
// ---------------------------------------------------------------------------
/// The index of the first occurrence of `c` in `s`, if any.
pub open spec fn find_first(s: Seq<char>, c: char) -> Option<int>
    decreases s.len(),
{
    if s.len() == 0 {
        None
    } else if s[0] == c {
        Some(0)
    } else {
        match find_first(s.drop_first(), c) {
            None => None,
            Some(i) => Some(i + 1),
        }
    }
}

pub proof fn lemma_find_first(s: Seq<char>, c: char)
    ensures
        match find_first(s, c) {
            Some(i) => 0 <= i < s.len() && s[i] == c && forall|j: int| 0 <= j < i ==> s[j] != c,
            None => forall|j: int| 0 <= j < s.len() ==> s[j] != c,
        },
    decreases s.len(),
{
    if s.len() > 0 && s[0] != c {
        lemma_find_first(s.drop_first(), c);
        match find_first(s, c) {
            Some(i) => {
                assert(s.drop_first()[i - 1] == s[i]);
                assert forall|j: int| 0 <= j < i implies s[j] != c by {
                    if j > 0 {
                        assert(s.drop_first()[j - 1] == s[j]);
                    }
                }
            },
            None => {
                assert forall|j: int| 0 <= j < s.len() implies s[j] != c by {
                    if j > 0 {
                        assert(s.drop_first()[j - 1] == s[j]);
                    }
                }
            },
        }
    }
}

/// A position holding `c` with none before it is the first occurrence.
pub proof fn lemma_find_first_at(s: Seq<char>, c: char, i: int)
    requires
        0 <= i < s.len(),
        s[i] == c,
        forall|j: int| 0 <= j < i ==> s[j] != c,
    ensures
        find_first(s, c) == Some(i),
{
    lemma_find_first(s, c);
    match find_first(s, c) {
        Some(k) => {
            assert(!(k < i));
            assert(!(k > i));
        },
        None => {
            assert(s[i] == c);
        },
    }
}

/// The index of the last occurrence of `c` in `s`, if any.
pub open spec fn find_last(s: Seq<char>, c: char) -> Option<int>
    decreases s.len(),
{
    if s.len() == 0 {
        None
    } else if s.last() == c {
        Some(s.len() - 1)
    } else {
        find_last(s.drop_last(), c)
    }
}

pub proof fn lemma_find_last(s: Seq<char>, c: char)
    ensures
        match find_last(s, c) {
            Some(i) => 0 <= i < s.len() && s[i] == c && forall|j: int|
                i < j < s.len() ==> s[j] != c,
            None => forall|j: int| 0 <= j < s.len() ==> s[j] != c,
        },
    decreases s.len(),
{
    if s.len() > 0 && s.last() != c {
        lemma_find_last(s.drop_last(), c);
        match find_last(s, c) {
            Some(i) => {
                assert(s.drop_last()[i] == s[i]);
                assert forall|j: int| i < j < s.len() implies s[j] != c by {
                    if j < s.len() - 1 {
                        assert(s.drop_last()[j] == s[j]);
                    }
                }
            },
            None => {
                assert forall|j: int| 0 <= j < s.len() implies s[j] != c by {
                    if j < s.len() - 1 {
                        assert(s.drop_last()[j] == s[j]);
                    }
                }
            },
        }
    }
}

/// Finds the first occurrence of `c` in `s`, scanning left to right.
pub fn find_char(s: &[char], c: char) -> (r: Option<usize>)
    ensures
        match r {
            Some(i) => find_first(s@, c) == Some(i as int),
            None => find_first(s@, c) is None,
        },
{
    proof {
        lemma_find_first(s@, c);
    }
    let mut i: usize = 0;
    while i < s.len()
        invariant
            0 <= i <= s@.len(),
            forall|j: int| 0 <= j < i ==> s@[j] != c,
            match find_first(s@, c) {
                Some(k) => 0 <= k < s@.len() && s@[k] == c && forall|j: int|
                    0 <= j < k ==> s@[j] != c,
                None => forall|j: int| 0 <= j < s@.len() ==> s@[j] != c,
            },
        decreases s@.len() - i,
    {
        if s[i] == c {
            proof {
                let k = find_first(s@, c);
                if k is Some {
                    // the first occurrence can be neither before nor after i
                    assert(!(k->0 < i as int));
                    assert(!(k->0 > i as int));
                }
            }
            return Some(i);
        }
        i += 1;
    }
    None
}

/// Finds the last occurrence of `c` in `s`, scanning right to left.
pub fn find_char_last(s: &[char], c: char) -> (r: Option<usize>)
    ensures
        match r {
            Some(i) => find_last(s@, c) == Some(i as int),
            None => find_last(s@, c) is None,
        },
{
    proof {
        lemma_find_last(s@, c);
    }
    let mut i: usize = s.len();
    while i > 0
        invariant
            0 <= i <= s@.len(),
            forall|j: int| i <= j < s@.len() ==> s@[j] != c,
            match find_last(s@, c) {
                Some(k) => 0 <= k < s@.len() && s@[k] == c && forall|j: int|
                    k < j < s@.len() ==> s@[j] != c,
                None => forall|j: int| 0 <= j < s@.len() ==> s@[j] != c,
            },
        decreases i,
    {
        i -= 1;
        if s[i] == c {
            return Some(i);
        }
    }
    None
}

// ---------------------------------------------------------------------------
// Splitting
// ---------------------------------------------------------------------------
/// The chunks of `s` between occurrences of the separator `c`.  Always at
/// least one chunk; separators are not part of any chunk; empty chunks are
/// kept, as the splitters of the standard library keep them.
pub open spec fn split_on(s: Seq<char>, c: char) -> Seq<Seq<char>>
    decreases s.len(),
{
    if s.len() == 0 {
        seq![Seq::<char>::empty()]
    } else {
        let r = split_on(s.drop_last(), c);
        if s.last() == c {
            r + seq![Seq::<char>::empty()]
        } else {
            r.update(r.len() - 1, r.last().push(s.last()))
        }
    }
}

pub proof fn lemma_split_on_len(s: Seq<char>, c: char)
    ensures
        split_on(s, c).len() >= 1,
    decreases s.len(),
{
    if s.len() > 0 {
        lemma_split_on_len(s.drop_last(), c);
    }
}

/// Splits `s` on the separator `c`.
pub fn split_char(s: &[char], c: char) -> (r: Vec<Vec<char>>)
    ensures
        r.deep_view() =~~= split_on(s@, c),
        r.len() >= 1,
{
    let ghost sq = s@;
    let mut r: Vec<Vec<char>> = Vec::new();
    let mut cur: Vec<char> = Vec::new();
    let mut i: usize = 0;
    while i < s.len()
        invariant
            0 <= i <= sq.len(),
            sq == s@,
            r.deep_view() + seq![cur@] =~~= split_on(sq.take(i as int), c),
        decreases sq.len() - i,
    {
        proof {
            assert(sq.take(i as int + 1).drop_last() =~= sq.take(i as int));
            lemma_split_on_len(sq.take(i as int), c);
        }
        if s[i] == c {
            r.push(cur);
            cur = Vec::new();
            proof {
                assert(r.deep_view() + seq![cur@] =~~= split_on(sq.take(i as int + 1), c));
            }
        } else {
            cur.push(s[i]);
            proof {
                let pre = split_on(sq.take(i as int), c);
                assert(pre.update(pre.len() - 1, pre.last().push(sq[i as int])) =~~= r.deep_view()
                    + seq![cur@]);
            }
        }
        i += 1;
    }
    proof {
        assert(sq.take(sq.len() as int) =~= sq);
    }
    r.push(cur);
    r
}

/// The space-separated words of `s`: the nonempty chunks between spaces.
pub open spec fn words(s: Seq<char>) -> Seq<Seq<char>> {
    split_on(s, ' ').filter(|t: Seq<char>| t.len() > 0)
}

/// Splits `s` into its space-separated words.
pub fn split_words(s: &[char]) -> (r: Vec<Vec<char>>)
    ensures
        r.deep_view() =~~= words(s@),
{
    let chunks = split_char(s, ' ');
    let mut r: Vec<Vec<char>> = Vec::new();
    let mut i: usize = 0;
    proof {
        assert(chunks.deep_view().take(0) =~~= Seq::<Seq<char>>::empty());
        assert(Seq::<Seq<char>>::empty().filter(|t: Seq<char>| t.len() > 0)
            =~~= Seq::<Seq<char>>::empty());
    }
    while i < chunks.len()
        invariant
            0 <= i <= chunks.len(),
            chunks.deep_view() =~~= split_on(s@, ' '),
            r.deep_view() =~~= chunks.deep_view().take(i as int).filter(
                |t: Seq<char>| t.len() > 0,
            ),
        decreases chunks.len() - i,
    {
        let ghost pre = chunks.deep_view().take(i as int);
        let ghost post = chunks.deep_view().take(i as int + 1);
        proof {
            assert(post.drop_last() =~~= pre);
            assert(post =~~= pre + seq![chunks.deep_view()[i as int]]);
            Seq::filter_distributes_over_add(
                pre,
                seq![chunks.deep_view()[i as int]],
                |t: Seq<char>| t.len() > 0,
            );
            reveal_with_fuel(Seq::filter, 2);
            assert(seq![chunks.deep_view()[i as int]].drop_last()
                =~~= Seq::<Seq<char>>::empty());
        }
        if chunks[i].len() > 0 {
            let w = chunks[i].clone();
            assert(w@ == chunks.deep_view()[i as int]);
            r.push(w);
        }
        i += 1;
    }
    proof {
        assert(chunks.deep_view().take(chunks.len() as int) =~~= chunks.deep_view());
    }
    r
}

// ---------------------------------------------------------------------------
// Comparison and substring search
// ---------------------------------------------------------------------------
/// Compares two character slices for equality.
pub fn chars_eq(a: &[char], b: &[char]) -> (r: bool)
    ensures
        r == (a@ == b@),
{
    if a.len() != b.len() {
        return false;
    }
    let mut i: usize = 0;
    while i < a.len()
        invariant
            0 <= i <= a@.len(),
            a@.len() == b@.len(),
            forall|j: int| 0 <= j < i ==> a@[j] == b@[j],
        decreases a@.len() - i,
    {
        if a[i] != b[i] {
            return false;
        }
        i += 1;
    }
    proof {
        assert(a@ =~= b@);
    }
    true
}

/// True when `pat` occurs in `s` starting at index `i`.
pub open spec fn matches_at(s: Seq<char>, i: int, pat: Seq<char>) -> bool {
    0 <= i && i + pat.len() <= s.len() && s.subrange(i, i + pat.len()) == pat
}

/// The first index at which `pat` occurs in `s`, if any.
pub open spec fn find_sub(s: Seq<char>, pat: Seq<char>) -> Option<int>
    decreases s.len(),
{
    if pat.len() > s.len() {
        None
    } else if s.subrange(0, pat.len() as int) == pat {
        Some(0)
    } else if s.len() == 0 {
        None
    } else {
        match find_sub(s.drop_first(), pat) {
            None => None,
            Some(i) => Some(i + 1),
        }
    }
}

pub proof fn lemma_find_sub(s: Seq<char>, pat: Seq<char>)
    ensures
        match find_sub(s, pat) {
            Some(i) => matches_at(s, i, pat) && forall|j: int| 0 <= j < i ==> !matches_at(s, j, pat),
            None => forall|j: int| !matches_at(s, j, pat),
        },
    decreases s.len(),
{
    if pat.len() > s.len() {
        assert forall|j: int| !matches_at(s, j, pat) by {}
    } else if s.subrange(0, pat.len() as int) == pat {
    } else if s.len() == 0 {
        assert(s.subrange(0, pat.len() as int) =~= pat);
    } else {
        lemma_find_sub(s.drop_first(), pat);
        assert forall|j: int| 1 <= j && matches_at(s, j, pat) implies matches_at(
            s.drop_first(),
            j - 1,
            pat,
        ) by {
            assert(s.drop_first().subrange(j - 1, j - 1 + pat.len()) =~= s.subrange(
                j,
                j + pat.len(),
            ));
        }
        assert forall|j: int| 0 <= j && matches_at(s.drop_first(), j, pat) implies matches_at(
            s,
            j + 1,
            pat,
        ) by {
            assert(s.subrange(j + 1, j + 1 + pat.len()) =~= s.drop_first().subrange(
                j,
                j + pat.len(),
            ));
        }
    }
}

/// Finds the first occurrence of `pat` in `s`.
pub fn find_pattern(s: &[char], pat: &[char]) -> (r: Option<usize>)
    ensures
        match r {
            Some(i) => find_sub(s@, pat@) == Some(i as int),
            None => find_sub(s@, pat@) is None,
        },
{
    proof {
        lemma_find_sub(s@, pat@);
    }
    if pat.len() > s.len() {
        return None;
    }
    if pat.len() == 0 {
        proof {
            assert(s@.subrange(0, 0) =~= pat@);
        }
        return Some(0);
    }
    let n = s.len();
    let plen = pat.len();
    let m = n - plen;
    let mut i: usize = 0;
    while i <= m
        invariant
            0 <= i <= m + 1,
            n == s@.len(),
            plen == pat@.len(),
            1 <= plen <= n,
            m == n - plen,
            forall|j: int| 0 <= j < i ==> !matches_at(s@, j, pat@),
            match find_sub(s@, pat@) {
                Some(k) => matches_at(s@, k, pat@) && forall|j: int|
                    0 <= j < k ==> !matches_at(s@, j, pat@),
                None => forall|j: int| !matches_at(s@, j, pat@),
            },
        decreases m + 1 - i,
    {
        let piece = &s[i..i + plen];
        if chars_eq(piece, pat) {
            proof {
                assert(matches_at(s@, i as int, pat@));
                let k = find_sub(s@, pat@);
                if k is Some {
                    assert(!(k->0 < i as int));
                    assert(!(k->0 > i as int));
                }
            }
            return Some(i);
        }
        i += 1;
    }
    proof {
        assert forall|j: int| !matches_at(s@, j, pat@) by {
            if 0 <= j < i as int {
            } else {
            }
        }
    }
    None
}

// ---------------------------------------------------------------------------
// Runs and searches
// ---------------------------------------------------------------------------
/// True of a space or a horizontal tab.
pub open spec fn is_space(c: char) -> bool {
    c == ' ' || c == '\t'
}

/// True of the characters a report word is made of: letters, digits and
/// the underscore.
pub open spec fn is_word_char(c: char) -> bool {
    is_digit(c) || ('a' <= c && c <= 'z') || ('A' <= c && c <= 'Z') || c == '_'
}

/// The length of the run of decimal digits starting at `j`.
pub open spec fn digits_run(s: Seq<char>, j: int) -> int
    decreases s.len() - j,
    when j >= 0
{
    if j < 0 || j >= s.len() || !is_digit(s[j]) {
        0
    } else {
        1 + digits_run(s, j + 1)
    }
}

pub proof fn lemma_digits_run(s: Seq<char>, j: int)
    requires
        0 <= j <= s.len(),
    ensures
        0 <= digits_run(s, j),
        j + digits_run(s, j) <= s.len(),
        forall|k: int| j <= k < j + digits_run(s, j) ==> is_digit(#[trigger] s[k]),
        j + digits_run(s, j) == s.len() || !is_digit(s[j + digits_run(s, j)]),
    decreases s.len() - j,
{
    if j < s.len() && is_digit(s[j]) {
        lemma_digits_run(s, j + 1);
    }
}

/// The length of the run of spaces and tabs starting at `j`.
pub open spec fn spaces_run(s: Seq<char>, j: int) -> int
    decreases s.len() - j,
    when j >= 0
{
    if j < 0 || j >= s.len() || !is_space(s[j]) {
        0
    } else {
        1 + spaces_run(s, j + 1)
    }
}

pub proof fn lemma_spaces_run(s: Seq<char>, j: int)
    requires
        0 <= j <= s.len(),
    ensures
        0 <= spaces_run(s, j),
        j + spaces_run(s, j) <= s.len(),
        forall|k: int| j <= k < j + spaces_run(s, j) ==> is_space(#[trigger] s[k]),
        j + spaces_run(s, j) == s.len() || !is_space(s[j + spaces_run(s, j)]),
    decreases s.len() - j,
{
    if j < s.len() && is_space(s[j]) {
        lemma_spaces_run(s, j + 1);
    }
}

/// The length of the run of word characters starting at `j`.
pub open spec fn word_run(s: Seq<char>, j: int) -> int
    decreases s.len() - j,
    when j >= 0
{
    if j < 0 || j >= s.len() || !is_word_char(s[j]) {
        0
    } else {
        1 + word_run(s, j + 1)
    }
}

pub proof fn lemma_word_run(s: Seq<char>, j: int)
    requires
        0 <= j <= s.len(),
    ensures
        0 <= word_run(s, j),
        j + word_run(s, j) <= s.len(),
        forall|k: int| j <= k < j + word_run(s, j) ==> is_word_char(#[trigger] s[k]),
        j + word_run(s, j) == s.len() || !is_word_char(s[j + word_run(s, j)]),
    decreases s.len() - j,
{
    if j < s.len() && is_word_char(s[j]) {
        lemma_word_run(s, j + 1);
    }
}

/// Measures the run of decimal digits starting at `p`.
pub fn digit_run_from(t: &[char], p: usize) -> (r: usize)
    requires
        p <= t@.len(),
    ensures
        r == digits_run(t@, p as int),
{
    proof {
        lemma_digits_run(t@, p as int);
    }
    let n = t.len();
    let mut q = p;
    while q < n && '0' <= t[q] && t[q] <= '9'
        invariant
            p <= q <= n,
            n == t@.len(),
            forall|k: int| p <= k < q ==> is_digit(#[trigger] t@[k]),
            q > p ==> digits_run(t@, p as int) >= q - p,
        decreases n - q,
    {
        proof {
            lemma_digits_run(t@, p as int);
            if (digits_run(t@, p as int) < q + 1 - p) {
                assert(!is_digit(t@[p + digits_run(t@, p as int)]));
            }
        }
        q += 1;
    }
    proof {
        lemma_digits_run(t@, p as int);
        if digits_run(t@, p as int) > q - p {
            assert(is_digit(t@[q as int]));
        }
    }
    q - p
}

/// Measures the run of spaces and tabs starting at `p`.
pub fn space_run_from(t: &[char], p: usize) -> (r: usize)
    requires
        p <= t@.len(),
    ensures
        r == spaces_run(t@, p as int),
{
    proof {
        lemma_spaces_run(t@, p as int);
    }
    let n = t.len();
    let mut q = p;
    while q < n && (t[q] == ' ' || t[q] == '\t')
        invariant
            p <= q <= n,
            n == t@.len(),
            forall|k: int| p <= k < q ==> is_space(#[trigger] t@[k]),
            q > p ==> spaces_run(t@, p as int) >= q - p,
        decreases n - q,
    {
        proof {
            lemma_spaces_run(t@, p as int);
            if (spaces_run(t@, p as int) < q + 1 - p) {
                assert(!is_space(t@[p + spaces_run(t@, p as int)]));
            }
        }
        q += 1;
    }
    proof {
        lemma_spaces_run(t@, p as int);
        if spaces_run(t@, p as int) > q - p {
            assert(is_space(t@[q as int]));
        }
    }
    q - p
}

/// Measures the run of word characters starting at `p`.
pub fn word_run_from(t: &[char], p: usize) -> (r: usize)
    requires
        p <= t@.len(),
    ensures
        r == word_run(t@, p as int),
{
    proof {
        lemma_word_run(t@, p as int);
    }
    let n = t.len();
    let mut q = p;
    while q < n && (('0' <= t[q] && t[q] <= '9') || ('a' <= t[q] && t[q] <= 'z') || ('A' <= t[q]
        && t[q] <= 'Z') || t[q] == '_')
        invariant
            p <= q <= n,
            n == t@.len(),
            forall|k: int| p <= k < q ==> is_word_char(#[trigger] t@[k]),
            q > p ==> word_run(t@, p as int) >= q - p,
        decreases n - q,
    {
        proof {
            lemma_word_run(t@, p as int);
            if (word_run(t@, p as int) < q + 1 - p) {
                assert(!is_word_char(t@[p + word_run(t@, p as int)]));
            }
        }
        q += 1;
    }
    proof {
        lemma_word_run(t@, p as int);
        if word_run(t@, p as int) > q - p {
            assert(is_word_char(t@[q as int]));
        }
    }
    q - p
}

/// The start of the last occurrence of `pat` in `s`, if any.
pub open spec fn find_sub_last(s: Seq<char>, pat: Seq<char>) -> Option<int>
    decreases s.len(),
{
    if pat.len() > s.len() {
        None
    } else if matches_at(s, s.len() - pat.len(), pat) {
        Some(s.len() - pat.len())
    } else if s.len() == pat.len() {
        None
    } else {
        find_sub_last(s.drop_last(), pat)
    }
}

pub proof fn lemma_find_sub_last(s: Seq<char>, pat: Seq<char>)
    ensures
        match find_sub_last(s, pat) {
            Some(i) => matches_at(s, i, pat) && forall|j: int| i < j ==> !matches_at(s, j, pat),
            None => forall|j: int| !matches_at(s, j, pat),
        },
    decreases s.len(),
{
    if pat.len() > s.len() {
    } else if matches_at(s, s.len() - pat.len(), pat) {
        assert forall|j: int| s.len() - pat.len() < j implies !matches_at(s, j, pat) by {}
    } else if s.len() == pat.len() {
        assert forall|j: int| !matches_at(s, j, pat) by {
            if 0 <= j && j + pat.len() <= s.len() {
                assert(j == s.len() - pat.len());
            }
        }
    } else {
        lemma_find_sub_last(s.drop_last(), pat);
        assert forall|j: int|
            0 <= j && j + pat.len() <= s.len() - 1 implies (matches_at(s, j, pat) <==> matches_at(
            s.drop_last(),
            j,
            pat,
        )) by {
            assert(s.drop_last().subrange(j, j + pat.len()) =~= s.subrange(j, j + pat.len()));
        }
        match find_sub_last(s, pat) {
            Some(i) => {
                assert forall|j: int| i < j implies !matches_at(s, j, pat) by {
                    if 0 <= j && j + pat.len() <= s.len() {
                        assert(j == s.len() - pat.len() || j + pat.len() <= s.len() - 1);
                    }
                }
            },
            None => {
                assert forall|j: int| !matches_at(s, j, pat) by {
                    if 0 <= j && j + pat.len() <= s.len() {
                        assert(j == s.len() - pat.len() || j + pat.len() <= s.len() - 1);
                    }
                }
            },
        }
    }
}

/// Finds the last occurrence of `pat` in `s`.
pub fn find_pattern_last(s: &[char], pat: &[char]) -> (r: Option<usize>)
    ensures
        match r {
            Some(i) => find_sub_last(s@, pat@) == Some(i as int),
            None => find_sub_last(s@, pat@) is None,
        },
{
    proof {
        lemma_find_sub_last(s@, pat@);
    }
    if pat.len() > s.len() {
        return None;
    }
    let n = s.len();
    let plen = pat.len();
    let mut i: usize = n - plen;
    loop
        invariant
            0 <= i <= n - plen,
            n == s@.len(),
            plen == pat@.len() <= s@.len(),
            forall|j: int| i < j ==> !matches_at(s@, j, pat@),
            match find_sub_last(s@, pat@) {
                Some(k) => matches_at(s@, k, pat@) && forall|j: int| k < j ==> !matches_at(
                    s@,
                    j,
                    pat@,
                ),
                None => forall|j: int| !matches_at(s@, j, pat@),
            },
        decreases i + 1,
    {
        let piece = &s[i..i + plen];
        if chars_eq(piece, pat) {
            proof {
                assert(matches_at(s@, i as int, pat@));
                let k = find_sub_last(s@, pat@);
                if k is Some {
                    assert(!(k->0 < i as int));
                    assert(!(k->0 > i as int));
                }
            }
            return Some(i);
        }
        if i == 0 {
            return None;
        }
        i -= 1;
    }
}

/// The chunks of `s` between occurrences of the separator `pat`, which
/// must be nonempty.  Always at least one chunk; empty chunks are kept.
pub open spec fn split_sub(s: Seq<char>, pat: Seq<char>) -> Seq<Seq<char>>
    decreases s.len(),
    when pat.len() >= 1
{
    match find_sub(s, pat) {
        None => seq![s],
        Some(i) => if 0 <= i && i + pat.len() <= s.len() {
            seq![s.take(i)] + split_sub(s.skip(i + pat.len()), pat)
        } else {
            seq![s]
        },
    }
}

/// Splits `s` on the separator `pat`.
pub fn split_pattern(s: &[char], pat: &[char]) -> (r: Vec<Vec<char>>)
    requires
        pat@.len() >= 1,
    ensures
        r.deep_view() =~~= split_sub(s@, pat@),
        r.len() >= 1,
{
    let mut r: Vec<Vec<char>> = Vec::new();
    let mut rest: &[char] = s;
    loop
        invariant
            pat@.len() >= 1,
            r.deep_view() + split_sub(rest@, pat@) =~~= split_sub(s@, pat@),
        decreases rest@.len(),
    {
        proof {
            lemma_find_sub(rest@, pat@);
        }
        match find_pattern(rest, pat) {
            None => {
                let mut chunk: Vec<char> = Vec::new();
                chunk.extend_from_slice(rest);
                r.push(chunk);
                proof {
                    assert(r.deep_view() =~~= split_sub(s@, pat@));
                }
                return r;
            },
            Some(i) => {
                let rn = rest.len();
                proof {
                    assert(matches_at(rest@, i as int, pat@));
                }
                let mut chunk: Vec<char> = Vec::new();
                chunk.extend_from_slice(&rest[0..i]);
                r.push(chunk);
                rest = &rest[i + pat.len()..rn];
            },
        }
    }
}

// ---------------------------------------------------------------------------
// Case folding
// ---------------------------------------------------------------------------
/// Folds one character of the basic latin alphabet to lower case.
pub open spec fn lower_char(c: char) -> char {
    if 'A' <= c && c <= 'Z' {
        ((c as u32) + 32) as char
    } else {
        c
    }
}

/// Folds a sequence to lower case, character by character.
pub open spec fn to_lower(s: Seq<char>) -> Seq<char> {
    s.map_values(|c: char| lower_char(c))
}

/// Folds a character slice to lower case.
pub fn lower_chars(s: &[char]) -> (r: Vec<char>)
    ensures
        r@ == to_lower(s@),
{
    let mut r: Vec<char> = Vec::new();
    let mut i: usize = 0;
    while i < s.len()
        invariant
            0 <= i <= s@.len(),
            r@ =~= to_lower(s@.take(i as int)),
        decreases s@.len() - i,
    {
        let c = s[i];
        if 'A' <= c && c <= 'Z' {
            r.push(((c as u8) + 32) as char);
        } else {
            r.push(c);
        }
        proof {
            assert(to_lower(s@.take(i as int + 1)) =~= to_lower(s@.take(i as int)).push(
                lower_char(s@[i as int]),
            ));
        }
        i += 1;
    }
    proof {
        assert(s@.take(s@.len() as int) =~= s@);
    }
    r
}

// ---------------------------------------------------------------------------
// Strings and character vectors
// ---------------------------------------------------------------------------
/// The characters of `s`, as a vector.
pub fn str_chars(s: &str) -> (r: Vec<char>)
    ensures
        r@ == s@,
{
    let n = s.unicode_len();
    let mut r: Vec<char> = Vec::new();
    let mut i: usize = 0;
    while i < n
        invariant
            0 <= i <= n,
            n == s@.len(),
            r@ == s@.take(i as int),
        decreases n - i,
    {
        r.push(s.get_char(i));
        proof {
            assert(s@.take(i as int + 1) =~= s@.take(i as int).push(s@[i as int]));
        }
        i += 1;
    }
    proof {
        assert(s@.take(n as int) =~= s@);
    }
    r
}

/// Relies on `String::push`: appends exactly the given character.
#[verifier::external_body]
pub fn push_char(s: &mut String, c: char)
    ensures
        final(s)@ == old(s)@.push(c),
{
    s.push(c);
}

/// A `String` holding exactly the characters of `v`.
pub fn chars_to_string(v: &[char]) -> (r: String)
    ensures
        r@ == v@,
{
    let mut r = String::new();
    let mut i: usize = 0;
    while i < v.len()
        invariant
            0 <= i <= v@.len(),
            r@ == v@.take(i as int),
        decreases v@.len() - i,
    {
        push_char(&mut r, v[i]);
        proof {
            assert(v@.take(i as int + 1) =~= v@.take(i as int).push(v@[i as int]));
        }
        i += 1;
    }
    proof {
        assert(v@.take(v@.len() as int) =~= v@);
    }
    r
}

/// The diagnostic `String::from_utf8` renders for input that is not valid
/// UTF-8: a function of the bytes alone.
pub uninterp spec fn utf8_diagnostic(b: Seq<u8>) -> Seq<char>;

/// Relies on `String::from_utf8`: succeeds exactly on valid UTF-8 input and
/// returns its decoding; failure carries the rendered diagnostic.
#[verifier::external_body]
pub fn utf8_to_string(v: &Vec<u8>) -> (r: Result<String, String>)
    ensures
        r is Ok <==> vstd::utf8::valid_utf8(v@),
        r matches Ok(s) ==> s@ == vstd::utf8::decode_utf8(v@),
        r matches Err(m) ==> m@ == utf8_diagnostic(v@),
{
    match String::from_utf8(v.clone()) {
        Ok(s) => Ok(s),
        Err(e) => Err(e.utf8_error().to_string()),
    }
}

// ---------------------------------------------------------------------------
// Rendering numerals
// ---------------------------------------------------------------------------
/// The decimal digit character for a value below ten.
pub open spec fn digit_char(d: int) -> char {
    (('0' as u32) + d as u32) as char
}

/// The canonical decimal numeral of a nonnegative number: no sign, no
/// leading zeros.
pub open spec fn dec_numeral(n: int) -> Seq<char>
    decreases n,
{
    if n <= 9 {
        seq![digit_char(n)]
    } else {
        dec_numeral(n / 10).push(digit_char(n % 10))
    }
}

/// Renders `n` as its decimal numeral.
pub fn u16_to_chars(n: u16) -> (v: Vec<char>)
    ensures
        v@ == dec_numeral(n as int),
    decreases n,
{
    if n <= 9 {
        let mut v: Vec<char> = Vec::new();
        v.push((48u8 + (n as u8)) as char);
        proof {
            assert(v@ =~= seq![digit_char(n as int)]);
        }
        v
    } else {
        let mut v = u16_to_chars(n / 10);
        v.push((48u8 + ((n % 10) as u8)) as char);
        proof {
            assert(v@ =~= dec_numeral(n as int / 10).push(digit_char(n as int % 10)));
        }
        v
    }
}

} // verus!

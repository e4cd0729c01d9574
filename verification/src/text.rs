//! Character-sequence utilities shared by the scanner and the micro-grammars.
//!
//! The document and every intermediate fragment are handled as `Vec<char>`,
//! whose view is a `Seq<char>`; conversion to and from `String` happens at the
//! edges.  Whitespace here means the Unicode `White_Space` set that
//! `char::is_whitespace` documents.

use vstd::prelude::*;
use vstd::std_specs::iter::IteratorSpec;
use vstd::string::StrSliceExecFns;
use vstd::string::StringExecFns;

verus! {

broadcast use vstd::string::group_string_axioms;

/// The Unicode `White_Space` characters, as `char::is_whitespace` lists them.
pub open spec fn is_ws_char(c: char) -> bool {
    let u = c as u32;
    (9 <= u && u <= 13) || u == 0x20 || u == 0x85 || u == 0xA0 || u == 0x1680 || (0x2000 <= u
        && u <= 0x200A) || u == 0x2028 || u == 0x2029 || u == 0x202F || u == 0x205F || u == 0x3000
}

/// Decides membership in the Unicode `White_Space` set.
pub fn is_ws(c: char) -> (r: bool)
    ensures
        r == is_ws_char(c),
{
    let u = c as u32;
    (9 <= u && u <= 13) || u == 0x20 || u == 0x85 || u == 0xA0 || u == 0x1680 || (0x2000 <= u
        && u <= 0x200A) || u == 0x2028 || u == 0x2029 || u == 0x202F || u == 0x205F || u == 0x3000
}

/// Relies on std's `String::push`: appends one character at the end.
#[verifier::external_body]
fn push_char(s: &mut String, c: char)
    ensures
        final(s)@ == old(s)@.push(c),
{
    s.push(c)
}

/// Collects the characters of a string slice, in order.
pub fn chars_of(s: &str) -> (r: Vec<char>)
    ensures
        r@ == s@,
{
    let mut r: Vec<char> = Vec::new();
    let mut it = s.chars();
    loop
        invariant
            it.obeys_prophetic_iter_laws(),
            it.decrease() is Some,
            s@ == r@ + it.remaining(),
        ensures
            r@ == s@,
        decreases it.decrease()->0,
    {
        match it.next() {
            Some(c) => {
                r.push(c);
            },
            None => {
                proof {
                    assert(s@ =~= r@);
                }
                break ;
            },
        }
    }
    r
}

/// Builds a `String` out of a character vector, keeping the order.
pub fn string_of(v: &Vec<char>) -> (r: String)
    ensures
        r@ == v@,
{
    let mut r = String::new();
    let mut i: usize = 0;
    while i < v.len()
        invariant
            i <= v.len(),
            r@ == v@.subrange(0, i as int),
        decreases v.len() - i,
    {
        push_char(&mut r, v[i]);
        proof {
            assert(r@ =~= v@.subrange(0, i + 1 as int));
        }
        i = i + 1;
    }
    proof {
        assert(r@ =~= v@);
    }
    r
}

/// Compares two character vectors element by element.
pub fn chars_eq(a: &Vec<char>, b: &Vec<char>) -> (r: bool)
    ensures
        r == (a@ == b@),
{
    if a.len() != b.len() {
        return false;
    }
    let mut i: usize = 0;
    while i < a.len()
        invariant
            i <= a.len(),
            a@.len() == b@.len(),
            forall|j: int| 0 <= j < i ==> a@[j] == b@[j],
        decreases a.len() - i,
    {
        if a[i] != b[i] {
            return false;
        }
        i = i + 1;
    }
    proof {
        assert(a@ =~= b@);
    }
    true
}

/// Copies the characters of `v` between `from` and `to`.
pub fn sub_chars(v: &Vec<char>, from: usize, to: usize) -> (r: Vec<char>)
    requires
        from <= to <= v@.len(),
    ensures
        r@ == v@.subrange(from as int, to as int),
{
    let mut r: Vec<char> = Vec::new();
    let mut i: usize = from;
    while i < to
        invariant
            from <= i <= to <= v@.len(),
            r@ == v@.subrange(from as int, i as int),
        decreases to - i,
    {
        r.push(v[i]);
        proof {
            assert(r@ =~= v@.subrange(from as int, i + 1 as int));
        }
        i = i + 1;
    }
    r
}

/// First position at or after `i` holding a character that is not whitespace.
pub open spec fn skip_ws_idx(s: Seq<char>, i: int) -> int
    decreases s.len() - i,
{
    if i < 0 || i >= s.len() {
        i
    } else if is_ws_char(s[i]) {
        skip_ws_idx(s, i + 1)
    } else {
        i
    }
}

pub proof fn lemma_skip_ws_idx(s: Seq<char>, i: int)
    requires
        0 <= i <= s.len(),
    ensures
        i <= skip_ws_idx(s, i) <= s.len(),
        forall|k: int| i <= k < skip_ws_idx(s, i) ==> is_ws_char(s[k]),
        skip_ws_idx(s, i) < s.len() ==> !is_ws_char(s[skip_ws_idx(s, i)]),
    decreases s.len() - i,
{
    if i < s.len() && is_ws_char(s[i]) {
        lemma_skip_ws_idx(s, i + 1);
    }
}

/// Position before `j` such that everything from it up to `j` is whitespace.
pub open spec fn rskip_ws_idx(s: Seq<char>, j: int) -> int
    decreases j,
{
    if j <= 0 || j > s.len() {
        j
    } else if is_ws_char(s[j - 1]) {
        rskip_ws_idx(s, j - 1)
    } else {
        j
    }
}

pub proof fn lemma_rskip_ws_idx(s: Seq<char>, j: int)
    requires
        0 <= j <= s.len(),
    ensures
        0 <= rskip_ws_idx(s, j) <= j,
        forall|k: int| rskip_ws_idx(s, j) <= k < j ==> is_ws_char(s[k]),
        rskip_ws_idx(s, j) > 0 ==> !is_ws_char(s[rskip_ws_idx(s, j) - 1]),
    decreases j,
{
    if j > 0 && is_ws_char(s[j - 1]) {
        lemma_rskip_ws_idx(s, j - 1);
    }
}

/// The sequence without leading or trailing whitespace.
pub open spec fn spec_trim(s: Seq<char>) -> Seq<char> {
    let a = skip_ws_idx(s, 0);
    let b = rskip_ws_idx(s, s.len() as int);
    if a <= b {
        s.subrange(a, b)
    } else {
        Seq::empty()
    }
}

/// Index of the first non-whitespace character, or the length when none.
pub fn find_non_ws(v: &Vec<char>, from: usize) -> (r: usize)
    requires
        from <= v@.len(),
    ensures
        r == skip_ws_idx(v@, from as int),
        from <= r <= v@.len(),
{
    let mut i: usize = from;
    while i < v.len() && is_ws(v[i])
        invariant
            from <= i <= v@.len(),
            skip_ws_idx(v@, from as int) == skip_ws_idx(v@, i as int),
        decreases v@.len() - i,
    {
        i = i + 1;
    }
    i
}

/// Removes leading and trailing whitespace.
pub fn trim_chars(v: &Vec<char>) -> (r: Vec<char>)
    ensures
        r@ == spec_trim(v@),
{
    let a = find_non_ws(v, 0);
    let mut b: usize = v.len();
    while b > 0 && is_ws(v[b - 1])
        invariant
            0 <= b <= v@.len(),
            rskip_ws_idx(v@, v@.len() as int) == rskip_ws_idx(v@, b as int),
        decreases b,
    {
        b = b - 1;
    }
    proof {
        lemma_skip_ws_idx(v@, 0);
        lemma_rskip_ws_idx(v@, v@.len() as int);
    }
    if a <= b {
        sub_chars(v, a, b)
    } else {
        Vec::new()
    }
}

/// True when `p` occurs in `s` starting at position `i`.
pub open spec fn matches_at(s: Seq<char>, i: int, p: Seq<char>) -> bool {
    0 <= i && i + p.len() <= s.len() && s.subrange(i, i + p.len()) == p
}

/// Decides whether `p` occurs in `v` at position `i`.
pub fn has_at(v: &Vec<char>, i: usize, p: &Vec<char>) -> (r: bool)
    requires
        i <= v@.len(),
    ensures
        r == matches_at(v@, i as int, p@),
{
    if v.len() - i < p.len() {
        return false;
    }
    let mut k: usize = 0;
    while k < p.len()
        invariant
            0 <= k <= p@.len(),
            i + p@.len() <= v@.len(),
            v@.len() <= usize::MAX,
            forall|j: int| 0 <= j < k ==> v@[i + j] == p@[j],
        decreases p@.len() - k,
    {
        if v[i + k] != p[k] {
            proof {
                assert(v@.subrange(i as int, i + p@.len())[k as int] == v@[i + k]);
            }
            return false;
        }
        k = k + 1;
    }
    proof {
        assert(v@.subrange(i as int, i + p@.len()) =~= p@);
    }
    true
}

/// A one-character pattern occurs at the front exactly when the first
/// character is it.
pub proof fn lemma_matches_single(s: Seq<char>, c: char)
    ensures
        matches_at(s, 0, seq![c]) == (s.len() > 0 && s[0] == c),
{
    if s.len() > 0 && s[0] == c {
        assert(s.subrange(0, 1) =~= seq![c]);
    }
    if matches_at(s, 0, seq![c]) {
        assert(s.subrange(0, 1)[0] == s[0]);
    }
}

/// First position at or after `from` where `p` occurs, or `None`.
pub open spec fn find_sub_idx(s: Seq<char>, p: Seq<char>, from: int) -> Option<int>
    decreases s.len() - from,
{
    if from < 0 || from > s.len() {
        None
    } else if matches_at(s, from, p) {
        Some(from)
    } else if from >= s.len() {
        None
    } else {
        find_sub_idx(s, p, from + 1)
    }
}

pub proof fn lemma_find_sub_idx(s: Seq<char>, p: Seq<char>, from: int)
    requires
        0 <= from <= s.len(),
    ensures
        match find_sub_idx(s, p, from) {
            Some(i) => from <= i && matches_at(s, i, p),
            None => true,
        },
    decreases s.len() - from,
{
    if !(from < 0 || from > s.len()) && !matches_at(s, from, p) && from < s.len() {
        lemma_find_sub_idx(s, p, from + 1);
    }
}

/// Finds the first occurrence of `p` in `v` at or after `from`.
pub fn find_sub(v: &Vec<char>, p: &Vec<char>, from: usize) -> (r: Option<usize>)
    requires
        from <= v@.len(),
    ensures
        match r {
            Some(i) => find_sub_idx(v@, p@, from as int) == Some(i as int) && from <= i
                && matches_at(v@, i as int, p@),
            None => find_sub_idx(v@, p@, from as int) is None,
        },
{
    let mut i: usize = from;
    loop
        invariant
            from <= i <= v@.len(),
            find_sub_idx(v@, p@, from as int) == find_sub_idx(v@, p@, i as int),
        ensures
            match find_sub_idx(v@, p@, from as int) {
                Some(k) => i == k && matches_at(v@, i as int, p@),
                None => i == v@.len() && !matches_at(v@, i as int, p@),
            },
        decreases v@.len() - i,
    {
        if has_at(v, i, p) {
            break ;
        }
        if i >= v.len() {
            break ;
        }
        i = i + 1;
    }
    if i < v.len() || has_at(v, i, p) {
        Some(i)
    } else {
        None
    }
}

/// `s` with every occurrence of `p` removed, scanning left to right.
pub open spec fn spec_remove_all(s: Seq<char>, p: Seq<char>) -> Seq<char>
    decreases s.len(),
{
    if p.len() == 0 || s.len() == 0 {
        s
    } else if matches_at(s, 0, p) {
        spec_remove_all(s.skip(p.len() as int), p)
    } else {
        seq![s[0]] + spec_remove_all(s.skip(1), p)
    }
}

/// Removes every occurrence of `p` from `v`, scanning left to right.
pub fn remove_all(v: &Vec<char>, p: &Vec<char>) -> (r: Vec<char>)
    ensures
        r@ == spec_remove_all(v@, p@),
{
    if p.len() == 0 {
        return sub_chars(v, 0, v.len());
    }
    let mut r: Vec<char> = Vec::new();
    let mut i: usize = 0;
    proof {
        assert(v@.skip(0) =~= v@);
        assert(Seq::<char>::empty() + spec_remove_all(v@, p@) =~= spec_remove_all(v@, p@));
    }
    while i < v.len()
        invariant
            0 <= i <= v@.len(),
            p@.len() > 0,
            spec_remove_all(v@, p@) == r@ + spec_remove_all(v@.skip(i as int), p@),
        decreases v@.len() - i,
    {
        let ghost s2 = v@.skip(i as int);
        if has_at(v, i, p) {
            proof {
                assert(s2.subrange(0, p@.len() as int) =~= v@.subrange(i as int, i + p@.len()));
                assert(matches_at(s2, 0, p@));
                assert(s2.skip(p@.len() as int) =~= v@.skip(i + p@.len()));
                assert(r@ + spec_remove_all(s2, p@) =~= r@ + spec_remove_all(
                    v@.skip(i + p@.len()),
                    p@,
                ));
            }
            i = i + p.len();
        } else {
            proof {
                if i + p@.len() <= v@.len() {
                    assert(s2.subrange(0, p@.len() as int) =~= v@.subrange(
                        i as int,
                        i + p@.len(),
                    ));
                }
                assert(!matches_at(s2, 0, p@));
                assert(s2.skip(1) =~= v@.skip(i + 1));
                assert(s2[0] == v@[i as int]);
                assert(r@ + spec_remove_all(s2, p@) =~= r@.push(v@[i as int]) + spec_remove_all(
                    v@.skip(i + 1),
                    p@,
                ));
            }
            r.push(v[i]);
            i = i + 1;
        }
    }
    proof {
        assert(v@.skip(i as int) =~= Seq::<char>::empty());
        assert(r@ + spec_remove_all(Seq::<char>::empty(), p@) =~= r@);
    }
    r
}

/// End of the run of non-whitespace characters that starts at `i`.
pub open spec fn word_end_idx(s: Seq<char>, i: int) -> int
    decreases s.len() - i,
{
    if i < 0 || i >= s.len() {
        i
    } else if is_ws_char(s[i]) {
        i
    } else {
        word_end_idx(s, i + 1)
    }
}

pub proof fn lemma_word_end_idx(s: Seq<char>, i: int)
    requires
        0 <= i <= s.len(),
    ensures
        i <= word_end_idx(s, i) <= s.len(),
        forall|k: int| i <= k < word_end_idx(s, i) ==> !is_ws_char(s[k]),
        word_end_idx(s, i) < s.len() ==> is_ws_char(s[word_end_idx(s, i)]),
        i < s.len() && !is_ws_char(s[i]) ==> word_end_idx(s, i) > i,
    decreases s.len() - i,
{
    if 0 <= i < s.len() && !is_ws_char(s[i]) {
        lemma_word_end_idx(s, i + 1);
    }
}

/// The whitespace-separated words of `s`, from position `i` on.
pub open spec fn words_from(s: Seq<char>, i: int) -> Seq<Seq<char>>
    decreases s.len() - i,
    when 0 <= i <= s.len()
    via words_from_dec
{
    if i >= s.len() {
        Seq::empty()
    } else if is_ws_char(s[i]) {
        words_from(s, i + 1)
    } else {
        seq![s.subrange(i, word_end_idx(s, i))] + words_from(s, word_end_idx(s, i))
    }
}

#[via_fn]
proof fn words_from_dec(s: Seq<char>, i: int) {
    if 0 <= i < s.len() && !is_ws_char(s[i]) {
        lemma_word_end_idx(s, i);
    }
}

/// The whitespace-separated words of `s`.
pub open spec fn spec_words(s: Seq<char>) -> Seq<Seq<char>> {
    words_from(s, 0)
}

/// Splits `v` into its whitespace-separated words.
pub fn split_ws(v: &Vec<char>) -> (r: Vec<Vec<char>>)
    ensures
        r.deep_view() == spec_words(v@),
{
    let mut r: Vec<Vec<char>> = Vec::new();
    let mut i: usize = 0;
    while i < v.len()
        invariant
            0 <= i <= v@.len(),
            spec_words(v@) == r.deep_view() + words_from(v@, i as int),
        decreases v@.len() - i,
    {
        if is_ws(v[i]) {
            i = i + 1;
        } else {
            let mut j: usize = i;
            while j < v.len() && !is_ws(v[j])
                invariant
                    i <= j <= v@.len(),
                    word_end_idx(v@, i as int) == word_end_idx(v@, j as int),
                decreases v@.len() - j,
            {
                j = j + 1;
            }
            proof {
                assert(word_end_idx(v@, j as int) == j as int);
                lemma_word_end_idx(v@, i as int);
            }
            let ghost prev = r.deep_view();
            let w = sub_chars(v, i, j);
            proof {
                assert(w.deep_view() =~= w@);
            }
            r.push(w);
            proof {
                assert(r.deep_view() =~= prev.push(w@));
                assert(prev.push(w@) + words_from(v@, j as int) =~= prev + (seq![w@]
                    + words_from(v@, j as int)));
            }
            i = j;
        }
    }
    r
}

/// The words of `s` joined with single spaces.
pub open spec fn join_spaced(ws: Seq<Seq<char>>) -> Seq<char>
    decreases ws.len(),
{
    if ws.len() == 0 {
        Seq::empty()
    } else if ws.len() == 1 {
        ws[0]
    } else {
        ws[0] + seq![' '] + join_spaced(ws.drop_first())
    }
}

/// Joins words with single spaces.
pub fn join_with_spaces(ws: &Vec<Vec<char>>) -> (r: Vec<char>)
    ensures
        r@ == join_spaced(ws.deep_view()),
{
    let mut r: Vec<char> = Vec::new();
    let mut i: usize = 0;
    while i < ws.len()
        invariant
            0 <= i <= ws@.len(),
            ws.deep_view().len() == ws@.len(),
            join_spaced(ws.deep_view()) == r@ + join_tail(ws.deep_view(), i as int),
        decreases ws@.len() - i,
    {
        proof {
            lemma_join_tail_step(ws.deep_view(), i as int);
        }
        if i > 0 {
            r.push(' ');
        }
        let mut k: usize = 0;
        let w = &ws[i];
        while k < w.len()
            invariant
                0 <= k <= w@.len(),
                w@ == ws.deep_view()[i as int],
                join_spaced(ws.deep_view()) == r@ + w@.skip(k as int) + join_tail(
                    ws.deep_view(),
                    i + 1,
                ),
            decreases w@.len() - k,
    {
            proof {
                assert(w@.skip(k as int) =~= seq![w@[k as int]] + w@.skip(k + 1 as int));
                assert(r@ + w@.skip(k as int) + join_tail(ws.deep_view(), i + 1) =~= r@.push(
                    w@[k as int],
                ) + w@.skip(k + 1 as int) + join_tail(ws.deep_view(), i + 1));
            }
            r.push(w[k]);
            k = k + 1;
        }
        proof {
            assert(w@.skip(w@.len() as int) =~= Seq::<char>::empty());
            assert(r@ + Seq::<char>::empty() + join_tail(ws.deep_view(), i + 1) =~= r@ + join_tail(
                ws.deep_view(),
                i + 1,
            ));
        }
        i = i + 1;
    }
    proof {
        assert(r@ + join_tail(ws.deep_view(), i as int) =~= r@);
    }
    r
}

/// What remains of the spaced join after the first `i` words.
pub open spec fn join_tail(ws: Seq<Seq<char>>, i: int) -> Seq<char>
    decreases ws.len() - i,
{
    if i < 0 || i >= ws.len() {
        Seq::empty()
    } else if i == 0 {
        join_spaced(ws)
    } else {
        seq![' '] + ws[i] + join_tail(ws, i + 1)
    }
}

proof fn lemma_join_tail_step(ws: Seq<Seq<char>>, i: int)
    requires
        0 <= i < ws.len(),
    ensures
        i == 0 ==> join_tail(ws, i) =~= ws[0] + join_tail(ws, 1),
        i > 0 ==> join_tail(ws, i) =~= seq![' '] + ws[i] + join_tail(ws, i + 1),
    decreases ws.len() - i,
{
    if i == 0 {
        if ws.len() == 1 {
            assert(join_tail(ws, 1) =~= Seq::<char>::empty());
            assert(join_spaced(ws) == ws[0]);
        } else {
            lemma_join_tail_unfold(ws);
        }
    }
}

proof fn lemma_join_tail_unfold(ws: Seq<Seq<char>>)
    requires
        ws.len() >= 2,
    ensures
        join_spaced(ws) =~= ws[0] + join_tail(ws, 1),
    decreases ws.len(),
{
    lemma_join_tail_shift(ws, 1);
}

proof fn lemma_join_tail_shift(ws: Seq<Seq<char>>, i: int)
    requires
        1 <= i < ws.len(),
    ensures
        seq![' '] + join_spaced(ws.skip(i)) =~= join_tail(ws, i),
    decreases ws.len() - i,
{
    if i + 1 < ws.len() {
        lemma_join_tail_shift(ws, i + 1);
        assert(ws.skip(i).drop_first() =~= ws.skip(i + 1));
        assert(ws.skip(i)[0] == ws[i]);
    } else {
        assert(ws.skip(i).len() == 1);
        assert(ws.skip(i)[0] == ws[i]);
        assert(join_spaced(ws.skip(i)) == ws.skip(i)[0]);
        assert(join_tail(ws, i + 1) == Seq::<char>::empty());
        assert(join_tail(ws, i) == seq![' '] + ws[i] + join_tail(ws, i + 1));
        assert(seq![' '] + join_spaced(ws.skip(i)) =~= seq![' '] + ws[i]
            + Seq::<char>::empty());
    }
}

/// Whitespace runs collapsed to single spaces, after trimming the ends.
pub open spec fn spec_normalize_ws(s: Seq<char>) -> Seq<char> {
    join_spaced(spec_words(s))
}

/// Collapses every whitespace run to one space and trims the ends.
pub fn normalize_ws(v: &Vec<char>) -> (r: Vec<char>)
    ensures
        r@ == spec_normalize_ws(v@),
{
    let ws = split_ws(v);
    join_with_spaces(&ws)
}

/// The Unicode lowercase form of a character sequence, as
/// `str::to_lowercase` computes it: a function of the characters alone.
pub uninterp spec fn lower_of(s: Seq<char>) -> Seq<char>;

/// Relies on std's `str::to_lowercase`: the Unicode lowercase form of the
/// string, which depends on its characters alone; an empty string stays
/// empty.
#[verifier::external_body]
fn to_lower_str(s: &str) -> (r: String)
    ensures
        r@ == lower_of(s@),
        s@.len() == 0 ==> r@.len() == 0,
{
    s.to_lowercase()
}

/// Lowercases a character sequence the way `str::to_lowercase` does.
pub fn lower_chars(v: &Vec<char>) -> (r: Vec<char>)
    ensures
        r@ == lower_of(v@),
        v@.len() == 0 ==> r@.len() == 0,
{
    let s = string_of(v);
    let l = to_lower_str(s.as_str());
    chars_of(l.as_str())
}

} // verus!

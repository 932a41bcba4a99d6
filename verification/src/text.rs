//! Character-level text primitives shared by every parser and renderer of
//! the crate. Text is handled as sequences of `char`; every operation here
//! is specified over `Seq<char>` and mirrors the `str` method of the same
//! name (with indices counted in characters rather than bytes).

use vstd::prelude::*;

verus! {

/// `Some(i)` as an integer option.
pub open spec fn oi(o: Option<usize>) -> Option<int> {
    match o {
        Some(i) => Some(i as int),
        None => None,
    }
}

/// Unicode `White_Space`, the property behind `char::is_whitespace`.
pub open spec fn is_ws(c: char) -> bool {
    let u = c as u32;
    ||| u == 0x20
    ||| (0x09 <= u && u <= 0x0d)
    ||| u == 0x85
    ||| u == 0xa0
    ||| u == 0x1680
    ||| (0x2000 <= u && u <= 0x200a)
    ||| u == 0x2028
    ||| u == 0x2029
    ||| u == 0x202f
    ||| u == 0x205f
    ||| u == 0x3000
}

/// The first index at or after `i` whose character is not white space
/// (`s.len()` when there is none).
pub open spec fn ws_from(s: Seq<char>, i: int) -> int
    decreases s.len() - i,
{
    if i >= s.len() {
        s.len() as int
    } else if i < 0 {
        0
    } else if is_ws(s[i]) {
        ws_from(s, i + 1)
    } else {
        i
    }
}

/// The end of `s.take(j)` once its trailing white space is dropped.
pub open spec fn ws_back(s: Seq<char>, j: int) -> int
    decreases j,
{
    if j <= 0 {
        0
    } else if is_ws(s[j - 1]) {
        ws_back(s, j - 1)
    } else {
        j
    }
}

/// `str::trim_start`.
pub open spec fn trim_start(s: Seq<char>) -> Seq<char> {
    s.subrange(ws_from(s, 0), s.len() as int)
}

/// `str::trim_end`.
pub open spec fn trim_end(s: Seq<char>) -> Seq<char> {
    s.subrange(0, ws_back(s, s.len() as int))
}

/// `str::trim`.
pub open spec fn trim(s: Seq<char>) -> Seq<char> {
    trim_end(trim_start(s))
}

/// `p` occurs in `s` starting at index `i`.
pub open spec fn matches_at(s: Seq<char>, p: Seq<char>, i: int) -> bool {
    0 <= i && i + p.len() <= s.len() && s.subrange(i, i + p.len()) == p
}

/// The first occurrence of `p` in `s` at or after index `i`.
pub open spec fn find_from(s: Seq<char>, p: Seq<char>, i: int) -> Option<int>
    decreases s.len() + 1 - i,
{
    if i < 0 || i + p.len() > s.len() {
        None
    } else if matches_at(s, p, i) {
        Some(i)
    } else {
        find_from(s, p, i + 1)
    }
}

/// `str::find` with a string pattern.
pub open spec fn find(s: Seq<char>, p: Seq<char>) -> Option<int> {
    find_from(s, p, 0)
}

/// The last occurrence of `p` in `s` starting at or before index `i`.
pub open spec fn rfind_below(s: Seq<char>, p: Seq<char>, i: int) -> Option<int>
    decreases i + 1,
{
    if i < 0 {
        None
    } else if matches_at(s, p, i) {
        Some(i)
    } else {
        rfind_below(s, p, i - 1)
    }
}

/// `str::rfind` with a string pattern.
pub open spec fn rfind(s: Seq<char>, p: Seq<char>) -> Option<int> {
    rfind_below(s, p, s.len() - p.len())
}

/// `str::contains` with a string pattern.
pub open spec fn contains(s: Seq<char>, p: Seq<char>) -> bool {
    find(s, p) is Some
}

/// The first index at or after `i` holding `c`.
pub open spec fn find_ch_from(s: Seq<char>, c: char, i: int) -> Option<int>
    decreases s.len() - i,
{
    if i < 0 || i >= s.len() {
        None
    } else if s[i] == c {
        Some(i)
    } else {
        find_ch_from(s, c, i + 1)
    }
}

/// `str::find` with a `char` pattern.
pub open spec fn find_ch(s: Seq<char>, c: char) -> Option<int> {
    find_ch_from(s, c, 0)
}

/// The part of `s` before the first `c` and the part after it
/// (`str::split_once` with a `char` pattern).
pub open spec fn split_once_ch(s: Seq<char>, c: char) -> Option<(Seq<char>, Seq<char>)> {
    match find_ch(s, c) {
        Some(i) => Some((s.subrange(0, i), s.subrange(i + 1, s.len() as int))),
        None => None,
    }
}

/// The part of `s` before the first `p` and the part after it
/// (`str::split_once` with a string pattern).
pub open spec fn split_once(s: Seq<char>, p: Seq<char>) -> Option<(Seq<char>, Seq<char>)> {
    match find(s, p) {
        Some(i) => Some((s.subrange(0, i), s.subrange(i + p.len(), s.len() as int))),
        None => None,
    }
}

/// `str::strip_prefix`.
pub open spec fn strip_prefix(s: Seq<char>, p: Seq<char>) -> Option<Seq<char>> {
    if p.is_prefix_of(s) {
        Some(s.subrange(p.len() as int, s.len() as int))
    } else {
        None
    }
}

/// A line as `str::lines` yields it: without its `\n`, and without a `\r`
/// that stood right before that `\n`.
pub open spec fn strip_cr(l: Seq<char>) -> Seq<char> {
    if l.len() > 0 && l.last() == '\r' {
        l.drop_last()
    } else {
        l
    }
}

/// Lines read so far from `s`, left to right, and the line in progress.
pub open spec fn lines_state(s: Seq<char>) -> (Seq<Seq<char>>, Seq<char>)
    decreases s.len(),
{
    if s.len() == 0 {
        (Seq::empty(), Seq::empty())
    } else {
        let (done, cur) = lines_state(s.drop_last());
        if s.last() == '\n' {
            (done.push(strip_cr(cur)), Seq::empty())
        } else {
            (done, cur.push(s.last()))
        }
    }
}

/// `str::lines`: every `\n` ends a line, a last line without `\n` counts
/// when it is not empty.
pub open spec fn lines(s: Seq<char>) -> Seq<Seq<char>> {
    let (done, cur) = lines_state(s);
    if cur.len() > 0 {
        done.push(cur)
    } else {
        done
    }
}

/// Words read so far from `s`, left to right, and the word in progress.
pub open spec fn words_state(s: Seq<char>) -> (Seq<Seq<char>>, Seq<char>)
    decreases s.len(),
{
    if s.len() == 0 {
        (Seq::empty(), Seq::empty())
    } else {
        let (done, cur) = words_state(s.drop_last());
        if is_ws(s.last()) {
            if cur.len() > 0 {
                (done.push(cur), Seq::empty())
            } else {
                (done, cur)
            }
        } else {
            (done, cur.push(s.last()))
        }
    }
}

/// `str::split_whitespace`: the maximal runs of non-white-space characters.
pub open spec fn words(s: Seq<char>) -> Seq<Seq<char>> {
    let (done, cur) = words_state(s);
    if cur.len() > 0 {
        done.push(cur)
    } else {
        done
    }
}

/// Pieces read so far from `s` when any character of `seps` separates them,
/// and the piece in progress.
pub open spec fn split_any_state(s: Seq<char>, seps: Seq<char>) -> (Seq<Seq<char>>, Seq<char>)
    decreases s.len(),
{
    if s.len() == 0 {
        (Seq::empty(), Seq::empty())
    } else {
        let (done, cur) = split_any_state(s.drop_last(), seps);
        if seps.contains(s.last()) {
            (done.push(cur), Seq::empty())
        } else {
            (done, cur.push(s.last()))
        }
    }
}

/// `str::split` with a set of separator characters: always one more piece
/// than there are separators.
pub open spec fn split_any(s: Seq<char>, seps: Seq<char>) -> Seq<Seq<char>> {
    let (done, cur) = split_any_state(s, seps);
    done.push(cur)
}

/// `str::split` with a non-empty string pattern, from index `i` on.
pub open spec fn split_from(s: Seq<char>, p: Seq<char>, i: int) -> Seq<Seq<char>>
    decreases s.len() - i,
{
    if i < 0 || i > s.len() || p.len() == 0 {
        Seq::empty()
    } else {
        match find_from(s, p, i) {
            Some(k) => if k >= i && k + p.len() <= s.len() {
                seq![s.subrange(i, k)] + split_from(s, p, k + p.len())
            } else {
                Seq::empty()
            },
            None => seq![s.subrange(i, s.len() as int)],
        }
    }
}

/// `str::split` with a non-empty string pattern.
pub open spec fn split(s: Seq<char>, p: Seq<char>) -> Seq<Seq<char>> {
    split_from(s, p, 0)
}

/// The pieces of `parts` joined with `sep` between each two.
pub open spec fn join(parts: Seq<Seq<char>>, sep: Seq<char>) -> Seq<char>
    decreases parts.len(),
{
    if parts.len() == 0 {
        Seq::empty()
    } else if parts.len() == 1 {
        parts[0]
    } else {
        join(parts.drop_last(), sep) + sep + parts.last()
    }
}


/// The first index at or after `i` whose character is white space
/// (`s.len()` when there is none).
pub open spec fn ws_pos_from(s: Seq<char>, i: int) -> int
    decreases s.len() - i,
{
    if i >= s.len() {
        s.len() as int
    } else if i < 0 {
        0
    } else if is_ws(s[i]) {
        i
    } else {
        ws_pos_from(s, i + 1)
    }
}

pub proof fn lemma_ws_pos_from_bounds(s: Seq<char>, i: int)
    requires
        0 <= i <= s.len(),
    ensures
        i <= ws_pos_from(s, i) <= s.len(),
    decreases s.len() - i,
{
    if i < s.len() && !is_ws(s[i]) {
        lemma_ws_pos_from_bounds(s, i + 1);
    }
}

/// Result of `char::is_alphanumeric` (the Unicode `Alphabetic` or `Numeric`
/// properties).
pub uninterp spec fn spec_is_alphanumeric(c: char) -> bool;

/// `char::is_alphanumeric`. Its documented result on ASCII is stated;
/// beyond ASCII it is the Unicode property, which is named, not spelled out.
#[verifier::external_body]
pub fn is_alphanumeric(c: char) -> (r: bool)
    ensures
        r == spec_is_alphanumeric(c),
        (c as u32) < 128 ==> (r <==> (('a' <= c && c <= 'z') || ('A' <= c && c <= 'Z') || ('0' <= c
            && c <= '9'))),
{
    c.is_alphanumeric()
}

// ---------------------------------------------------------------- lemmas

pub proof fn lemma_ws_from_bounds(s: Seq<char>, i: int)
    requires
        0 <= i <= s.len(),
    ensures
        i <= ws_from(s, i) <= s.len(),
        ws_from(s, i) < s.len() ==> !is_ws(s[ws_from(s, i)]),
        forall|j: int| i <= j < ws_from(s, i) ==> is_ws(#[trigger] s[j]),
    decreases s.len() - i,
{
    if i < s.len() && is_ws(s[i]) {
        lemma_ws_from_bounds(s, i + 1);
    }
}

pub proof fn lemma_ws_back_bounds(s: Seq<char>, j: int)
    requires
        0 <= j <= s.len(),
    ensures
        0 <= ws_back(s, j) <= j,
        ws_back(s, j) > 0 ==> !is_ws(s[ws_back(s, j) - 1]),
        forall|k: int| ws_back(s, j) <= k < j ==> is_ws(#[trigger] s[k]),
    decreases j,
{
    if j > 0 && is_ws(s[j - 1]) {
        lemma_ws_back_bounds(s, j - 1);
    }
}

pub proof fn lemma_find_from_bounds(s: Seq<char>, p: Seq<char>, i: int)
    requires
        0 <= i,
    ensures
        find_from(s, p, i) matches Some(k) ==> i <= k && matches_at(s, p, k),
        find_from(s, p, i) matches Some(k) ==> forall|j: int| i <= j < k ==> !matches_at(s, p, j),
        find_from(s, p, i) is None ==> forall|j: int| i <= j ==> !matches_at(s, p, j),
    decreases s.len() + 1 - i,
{
    if i < 0 || i + p.len() > s.len() {
    } else if matches_at(s, p, i) {
    } else {
        lemma_find_from_bounds(s, p, i + 1);
        assert forall|j: int| i <= j && !(i + 1 <= j) implies !matches_at(s, p, j) by {
            assert(j == i);
        }
    }
}

pub proof fn lemma_rfind_below_bounds(s: Seq<char>, p: Seq<char>, i: int)
    ensures
        rfind_below(s, p, i) matches Some(k) ==> k <= i && matches_at(s, p, k),
        rfind_below(s, p, i) matches Some(k) ==> forall|j: int| k < j <= i ==> !matches_at(s, p, j),
        rfind_below(s, p, i) is None ==> forall|j: int| j <= i ==> !matches_at(s, p, j),
    decreases i + 1,
{
    if i < 0 {
    } else if matches_at(s, p, i) {
    } else {
        lemma_rfind_below_bounds(s, p, i - 1);
    }
}

pub proof fn lemma_find_ch_from_bounds(s: Seq<char>, c: char, i: int)
    requires
        0 <= i,
    ensures
        find_ch_from(s, c, i) matches Some(k) ==> i <= k < s.len() && s[k] == c,
        find_ch_from(s, c, i) matches Some(k) ==> forall|j: int| i <= j < k ==> s[j] != c,
        find_ch_from(s, c, i) is None ==> forall|j: int| i <= j < s.len() ==> s[j] != c,
    decreases s.len() - i,
{
    if i >= s.len() {
    } else if s[i] == c {
    } else {
        lemma_find_ch_from_bounds(s, c, i + 1);
    }
}

/// `trim` removes only white space from both ends.
pub proof fn lemma_trim_shape(s: Seq<char>)
    ensures
        trim(s).len() > 0 ==> !is_ws(trim(s)[0]) && !is_ws(trim(s).last()),
        trim(s).len() <= s.len(),
{
    let a = ws_from(s, 0);
    lemma_ws_from_bounds(s, 0);
    let t = s.subrange(a, s.len() as int);
    lemma_ws_back_bounds(t, t.len() as int);
    let b = ws_back(t, t.len() as int);
    if b > 0 {
        assert(trim(s) == t.subrange(0, b));
        assert(trim(s)[0] == s[a]);
    }
}

// ---------------------------------------------------------------- exec

/// The characters of `s`, in order.
pub fn chars_of(s: &str) -> (v: Vec<char>)
    ensures
        v@ == s@,
{
    let mut v: Vec<char> = Vec::new();
    for c in it: s.chars()
        invariant
            v@ == it.seq().take(it.index() as int),
            it.seq() == s@,
    {
        v.push(c);
    }
    v
}

/// Appends one character to a string (`String::push`).
#[verifier::external_body]
fn string_push(s: &mut String, c: char)
    ensures
        final(s)@ == old(s)@.push(c),
{
    s.push(c);
}

/// A string holding exactly the characters of `v`.
pub fn string_of(v: &[char]) -> (s: String)
    ensures
        s@ == v@,
{
    let mut s = String::new();
    let mut i: usize = 0;
    while i < v.len()
        invariant
            i <= v.len(),
            s@ == v@.take(i as int),
        decreases v.len() - i,
    {
        string_push(&mut s, v[i]);
        i = i + 1;
        assert(v@.take(i as int) == v@.take((i - 1) as int).push(v@[i - 1]));
    }
    assert(v@.take(v.len() as int) == v@);
    s
}

/// An owned copy of a slice of characters.
pub fn to_vec(s: &[char]) -> (v: Vec<char>)
    ensures
        v@ == s@,
{
    vstd::slice::slice_to_vec(s)
}

/// `s[a..b]` as an owned vector.
pub fn slice_vec(s: &[char], a: usize, b: usize) -> (v: Vec<char>)
    requires
        a <= b <= s.len(),
    ensures
        v@ == s@.subrange(a as int, b as int),
{
    let mut v: Vec<char> = Vec::new();
    let mut i = a;
    while i < b
        invariant
            a <= i <= b <= s.len(),
            v@ == s@.subrange(a as int, i as int),
        decreases b - i,
    {
        v.push(s[i]);
        i = i + 1;
        assert(s@.subrange(a as int, i as int) == s@.subrange(a as int, i - 1).push(s@[i - 1]));
    }
    v
}

/// `a` followed by `b`.
pub fn concat(a: &[char], b: &[char]) -> (v: Vec<char>)
    ensures
        v@ == a@ + b@,
{
    let mut v = to_vec(a);
    let mut i: usize = 0;
    while i < b.len()
        invariant
            i <= b.len(),
            v@ == a@ + b@.take(i as int),
        decreases b.len() - i,
    {
        v.push(b[i]);
        i = i + 1;
        assert(b@.take(i as int) == b@.take(i - 1).push(b@[i - 1]));
    }
    assert(b@.take(b.len() as int) == b@);
    v
}

/// `char::is_whitespace`.
pub fn is_ws_char(c: char) -> (r: bool)
    ensures
        r == is_ws(c),
{
    let u = c as u32;
    u == 0x20 || (0x09 <= u && u <= 0x0d) || u == 0x85 || u == 0xa0 || u == 0x1680 || (0x2000
        <= u && u <= 0x200a) || u == 0x2028 || u == 0x2029 || u == 0x202f || u == 0x205f || u
        == 0x3000
}

/// Index of the first non-white-space character (`s.len()` if none).
pub fn ws_from_exec(s: &[char]) -> (i: usize)
    ensures
        i == ws_from(s@, 0),
{
    let mut i: usize = 0;
    while i < s.len() && is_ws_char(s[i])
        invariant
            i <= s.len(),
            ws_from(s@, 0) == ws_from(s@, i as int),
        decreases s.len() - i,
    {
        i = i + 1;
    }
    i
}

/// End of `s` without its trailing white space.
pub fn ws_back_exec(s: &[char]) -> (j: usize)
    ensures
        j == ws_back(s@, s@.len() as int),
{
    let mut j: usize = s.len();
    while j > 0 && is_ws_char(s[j - 1])
        invariant
            j <= s.len(),
            ws_back(s@, s@.len() as int) == ws_back(s@, j as int),
        decreases j,
    {
        j = j - 1;
    }
    j
}

/// `str::trim_start`.
pub fn trim_start_slice(s: &[char]) -> (r: &[char])
    ensures
        r@ == trim_start(s@),
{
    let a = ws_from_exec(s);
    proof {
        lemma_ws_from_bounds(s@, 0);
    }
    &s[a..s.len()]
}

/// `str::trim`.
pub fn trim_slice(s: &[char]) -> (r: &[char])
    ensures
        r@ == trim(s@),
{
    let t = trim_start_slice(s);
    let b = ws_back_exec(t);
    proof {
        lemma_ws_back_bounds(t@, t@.len() as int);
    }
    &t[0..b]
}

/// `str::trim`, as an owned vector.
pub fn trim_vec(s: &[char]) -> (r: Vec<char>)
    ensures
        r@ == trim(s@),
{
    to_vec(trim_slice(s))
}

/// Whether `p` occurs at index `i` of `s`.
pub fn matches_at_exec(s: &[char], p: &[char], i: usize) -> (r: bool)
    ensures
        r == matches_at(s@, p@, i as int),
{
    if i > s.len() || p.len() > s.len() - i {
        return false;
    }
    let mut k: usize = 0;
    while k < p.len()
        invariant
            k <= p.len(),
            i + p.len() <= s.len(),
            forall|j: int| 0 <= j < k ==> s@[i + j] == p@[j],
        decreases p.len() - k,
    {
        if s[i + k] != p[k] {
            assert(s@.subrange(i as int, i + p.len())[k as int] != p@[k as int]);
            return false;
        }
        k = k + 1;
    }
    assert(s@.subrange(i as int, i + p.len()) =~= p@);
    true
}

/// `str::find` with a string pattern.
pub fn find_exec(s: &[char], p: &[char]) -> (r: Option<usize>)
    ensures
        oi(r) == find(s@, p@),
{
    if p.len() > s.len() {
        return None;
    }
    let mut i: usize = 0;
    loop
        invariant
            p.len() <= s.len(),
            i <= s.len() - p.len(),
            find(s@, p@) == find_from(s@, p@, i as int),
        decreases s.len() - i,
    {
        if matches_at_exec(s, p, i) {
            return Some(i);
        }
        if i == s.len() - p.len() {
            assert(find_from(s@, p@, i + 1) is None);
            return None;
        }
        i = i + 1;
    }
}

/// `str::rfind` with a string pattern.
pub fn rfind_exec(s: &[char], p: &[char]) -> (r: Option<usize>)
    ensures
        oi(r) == rfind(s@, p@),
{
    if p.len() > s.len() {
        return None;
    }
    let mut i: usize = s.len() - p.len();
    loop
        invariant
            i <= s.len() - p.len(),
            p.len() <= s.len(),
            rfind(s@, p@) == rfind_below(s@, p@, i as int),
        decreases i,
    {
        if matches_at_exec(s, p, i) {
            return Some(i);
        }
        if i == 0 {
            assert(rfind_below(s@, p@, -1) is None);
            return None;
        }
        i = i - 1;
    }
}

/// `str::find` with a `char` pattern.
pub fn find_ch_exec(s: &[char], c: char) -> (r: Option<usize>)
    ensures
        oi(r) == find_ch(s@, c),
{
    let mut i: usize = 0;
    while i < s.len()
        invariant
            i <= s.len(),
            find_ch(s@, c) == find_ch_from(s@, c, i as int),
        decreases s.len() - i,
    {
        if s[i] == c {
            return Some(i);
        }
        i = i + 1;
    }
    None
}

/// `str::starts_with` with a string pattern.
pub fn starts_with(s: &[char], p: &[char]) -> (r: bool)
    ensures
        r == p@.is_prefix_of(s@),
{
    let r = matches_at_exec(s, p, 0);
    proof {
        if r {
            assert(s@.subrange(0, p@.len() as int) == p@);
        }
    }
    r
}

/// `s == p`.
pub fn eq(s: &[char], p: &[char]) -> (r: bool)
    ensures
        r == (s@ == p@),
{
    if s.len() != p.len() {
        return false;
    }
    let r = matches_at_exec(s, p, 0);
    proof {
        if r {
            assert(s@ =~= s@.subrange(0, p@.len() as int));
        } else {
            assert(s@.subrange(0, s@.len() as int) =~= s@);
        }
    }
    r
}

/// `s == p` for a literal `p`.
pub fn eq_str(s: &[char], p: &str) -> (r: bool)
    ensures
        r == (s@ == p@),
{
    let pv = chars_of(p);
    eq(s, pv.as_slice())
}

/// `s.starts_with(p)` for a literal `p`.
pub fn starts_with_str(s: &[char], p: &str) -> (r: bool)
    ensures
        r == p@.is_prefix_of(s@),
{
    let pv = chars_of(p);
    starts_with(s, pv.as_slice())
}

/// `s.find(p)` for a literal `p`.
pub fn find_str(s: &[char], p: &str) -> (r: Option<usize>)
    ensures
        oi(r) == find(s@, p@),
{
    let pv = chars_of(p);
    find_exec(s, pv.as_slice())
}

/// `s.rfind(p)` for a literal `p`.
pub fn rfind_str(s: &[char], p: &str) -> (r: Option<usize>)
    ensures
        oi(r) == rfind(s@, p@),
{
    let pv = chars_of(p);
    rfind_exec(s, pv.as_slice())
}

/// A vector of characters is its own deep view.
pub proof fn lemma_chars_deep_view(v: Vec<char>)
    ensures
        v.deep_view() == v@,
{
    assert(v.deep_view() =~= v@);
}

/// Appends a piece of text to a list of pieces.
pub fn push_chars(done: &mut Vec<Vec<char>>, x: Vec<char>)
    ensures
        final(done).deep_view() == old(done).deep_view().push(x@),
{
    let ghost b = done.deep_view();
    let ghost xv = x@;
    done.push(x);
    proof {
        let n = done@.len() - 1;
        lemma_chars_deep_view(done@[n]);
        assert(done.deep_view() =~= b.push(xv));
    }
}


/// Index of the first white-space character (`s.len()` if none).
pub fn ws_pos_exec(s: &[char]) -> (i: usize)
    ensures
        i == ws_pos_from(s@, 0),
{
    let mut i: usize = 0;
    while i < s.len() && !is_ws_char(s[i])
        invariant
            i <= s.len(),
            ws_pos_from(s@, 0) == ws_pos_from(s@, i as int),
        decreases s.len() - i,
    {
        i = i + 1;
    }
    i
}

/// The pieces of `parts` joined with `sep` between each two.
pub fn join_exec(parts: &Vec<Vec<char>>, sep: &[char]) -> (r: Vec<char>)
    ensures
        r@ == join(parts.deep_view(), sep@),
{
    let mut out: Vec<char> = Vec::new();
    let mut i: usize = 0;
    while i < parts.len()
        invariant
            i <= parts.len(),
            out@ == join(parts.deep_view().take(i as int), sep@),
        decreases parts.len() - i,
    {
        proof {
            lemma_chars_deep_view(parts@[i as int]);
            assert(parts.deep_view().take(i + 1).drop_last() =~= parts.deep_view().take(i as int));
        }
        if i > 0 {
            out = concat(out.as_slice(), sep);
        }
        out = concat(out.as_slice(), parts[i].as_slice());
        proof {
            if i == 0 {
                assert(parts.deep_view().take(1)[0] == parts.deep_view()[0]);
                assert(out@ =~= parts.deep_view().take(1)[0]);
            }
        }
        i = i + 1;
    }
    assert(parts.deep_view().take(parts.len() as int) =~= parts.deep_view());
    out
}

/// `str::lines`.
pub fn lines_of(s: &[char]) -> (r: Vec<Vec<char>>)
    ensures
        r.deep_view() == lines(s@),
{
    let mut done: Vec<Vec<char>> = Vec::new();
    let mut cur: Vec<char> = Vec::new();
    let mut i: usize = 0;
    while i < s.len()
        invariant
            i <= s.len(),
            (done.deep_view(), cur@) == lines_state(s@.take(i as int)),
        decreases s.len() - i,
    {
        assert(s@.take(i + 1).drop_last() == s@.take(i as int));
        let c = s[i];
        if c == '\n' {
            if cur.len() > 0 && cur[cur.len() - 1] == '\r' {
                cur.pop();
            }
            push_chars(&mut done, cur);
            cur = Vec::new();
        } else {
            cur.push(c);
        }
        i = i + 1;
    }
    assert(s@.take(s.len() as int) == s@);
    if cur.len() > 0 {
        push_chars(&mut done, cur);
    }
    done
}

/// `str::split_whitespace`.
pub fn words_of(s: &[char]) -> (r: Vec<Vec<char>>)
    ensures
        r.deep_view() == words(s@),
{
    let mut done: Vec<Vec<char>> = Vec::new();
    let mut cur: Vec<char> = Vec::new();
    let mut i: usize = 0;
    while i < s.len()
        invariant
            i <= s.len(),
            (done.deep_view(), cur@) == words_state(s@.take(i as int)),
        decreases s.len() - i,
    {
        assert(s@.take(i + 1).drop_last() == s@.take(i as int));
        let c = s[i];
        if is_ws_char(c) {
            if cur.len() > 0 {
                push_chars(&mut done, cur);
                cur = Vec::new();
            }
        } else {
            cur.push(c);
        }
        i = i + 1;
    }
    assert(s@.take(s.len() as int) == s@);
    if cur.len() > 0 {
        push_chars(&mut done, cur);
    }
    done
}

/// Whether `c` is one of `seps`.
pub fn contains_char(seps: &[char], c: char) -> (r: bool)
    ensures
        r == seps@.contains(c),
{
    let mut i: usize = 0;
    while i < seps.len()
        invariant
            i <= seps.len(),
            forall|j: int| 0 <= j < i ==> seps@[j] != c,
        decreases seps.len() - i,
    {
        if seps[i] == c {
            assert(seps@[i as int] == c);
            return true;
        }
        i = i + 1;
    }
    false
}

/// `str::split` with a set of separator characters.
pub fn split_any_of(s: &[char], seps: &[char]) -> (r: Vec<Vec<char>>)
    ensures
        r.deep_view() == split_any(s@, seps@),
{
    let mut done: Vec<Vec<char>> = Vec::new();
    let mut cur: Vec<char> = Vec::new();
    let mut i: usize = 0;
    while i < s.len()
        invariant
            i <= s.len(),
            (done.deep_view(), cur@) == split_any_state(s@.take(i as int), seps@),
        decreases s.len() - i,
    {
        assert(s@.take(i + 1).drop_last() == s@.take(i as int));
        let c = s[i];
        if contains_char(seps, c) {
            push_chars(&mut done, cur);
            cur = Vec::new();
        } else {
            cur.push(c);
        }
        i = i + 1;
    }
    assert(s@.take(s.len() as int) == s@);
    push_chars(&mut done, cur);
    done
}

/// `str::split` with a non-empty string pattern.
pub fn split_exec(s: &[char], p: &[char]) -> (r: Vec<Vec<char>>)
    requires
        p@.len() > 0,
    ensures
        r.deep_view() == split(s@, p@),
{
    let mut done: Vec<Vec<char>> = Vec::new();
    let mut start: usize = 0;
    loop
        invariant
            start <= s.len(),
            p@.len() > 0,
            done.deep_view() + split_from(s@, p@, start as int) == split(s@, p@),
        decreases s.len() - start,
    {
        let rest = &s[start..s.len()];
        let f = find_exec(rest, p);
        proof {
            lemma_find_shift(s@, p@, start as int);
            lemma_find_from_bounds(s@, p@, start as int);
        }
        match f {
            Some(k) => {
                let piece = slice_vec(s, start, start + k);
                let ghost before = done.deep_view();
                proof {
                    assert(split_from(s@, p@, start as int) == seq![piece@] + split_from(
                        s@,
                        p@,
                        start + k + p@.len(),
                    ));
                }
                let ghost pv = piece@;
                push_chars(&mut done, piece);
                proof {
                    assert(before.push(pv) + split_from(s@, p@, start + k + p@.len()) =~= before + (seq![pv] + split_from(s@, p@, start + k + p@.len())));
                }
                start = start + k + p.len();
            },
            None => {
                let piece = slice_vec(s, start, s.len());
                let ghost before = done.deep_view();
                let ghost pv = piece@;
                push_chars(&mut done, piece);
                proof {
                    assert(before.push(pv) =~= before + seq![pv]);
                }
                return done;
            },
        }
    }
}

/// Searching the tail `s[i..]` finds what searching `s` from `i` finds,
/// shifted by `i`.
pub proof fn lemma_find_shift(s: Seq<char>, p: Seq<char>, i: int)
    requires
        0 <= i <= s.len(),
    ensures
        find_from(s, p, i) == (match find(s.subrange(i, s.len() as int), p) {
            Some(k) => Some(k + i),
            None => None,
        }),
{
    let t = s.subrange(i, s.len() as int);
    lemma_find_from_bounds(s, p, i);
    lemma_find_from_bounds(t, p, 0);
    assert forall|j: int| 0 <= j implies matches_at(t, p, j) == matches_at(s, p, j + i) by {
        if 0 <= j && j + p.len() <= t.len() {
            assert(t.subrange(j, j + p.len()) =~= s.subrange(j + i, j + i + p.len()));
        }
    }
    match find_from(s, p, i) {
        Some(k) => {
            match find(t, p) {
                Some(m) => {
                    assert(matches_at(s, p, m + i));
                    assert(matches_at(t, p, k - i));
                    if m + i < k {
                    } else if m + i > k {
                    }
                },
                None => {
                    assert(matches_at(t, p, k - i));
                },
            }
        },
        None => {
            match find(t, p) {
                Some(m) => {
                    assert(matches_at(s, p, m + i));
                },
                None => {},
            }
        },
    }
}

} // verus!

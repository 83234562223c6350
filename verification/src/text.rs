//! Text handling on sequences of characters: trimming, splitting, searching,
//! replacing, and decimal and hexadecimal numerals.
use vstd::prelude::*;

verus! {

broadcast use vstd::seq::group_seq_axioms;

/// `String::push` appends one character at the end.
pub assume_specification[ String::push ](s: &mut String, c: char)
    ensures
        final(s)@ == old(s)@.push(c),
;

// ---------------------------------------------------------------------------
// Between strings and character vectors
// ---------------------------------------------------------------------------

/// The characters of a string.
pub fn chars_of(s: &str) -> (r: Vec<char>)
    ensures
        r@ == s@,
{
    let mut out: Vec<char> = Vec::new();
    for c in it: s.chars()
        invariant
            out@ == s@.take(it.index()),
            it.seq() == s@,
    {
        out.push(c);
        assert(s@.take(it.index() + 1) =~= s@.take(it.index()).push(s@[it.index()]));
    }
    assert(s@.take(s@.len() as int) =~= s@);
    out
}

/// The string of a character vector.
pub fn text_of(v: &Vec<char>) -> (r: String)
    ensures
        r@ == v@,
{
    let mut out = String::new();
    let mut i: usize = 0;
    while i < v.len()
        invariant
            0 <= i <= v.len(),
            out@ == v@.take(i as int),
        decreases v.len() - i,
    {
        out.push(v[i]);
        assert(v@.take(i + 1) =~= v@.take(i as int).push(v@[i as int]));
        i += 1;
    }
    assert(v@.take(v@.len() as int) =~= v@);
    out
}

/// The characters from `from` up to, not including, `to`.
pub fn slice_of(v: &Vec<char>, from: usize, to: usize) -> (r: Vec<char>)
    requires
        from <= to <= v.len(),
    ensures
        r@ == v@.subrange(from as int, to as int),
{
    let mut out: Vec<char> = Vec::new();
    let mut i: usize = from;
    while i < to
        invariant
            from <= i <= to <= v.len(),
            out@ == v@.subrange(from as int, i as int),
        decreases to - i,
    {
        out.push(v[i]);
        assert(v@.subrange(from as int, i + 1) =~= v@.subrange(from as int, i as int).push(
            v@[i as int],
        ));
        i += 1;
    }
    out
}

/// Whether two strings hold the same characters.
pub fn same_text(a: &str, b: &str) -> (r: bool)
    ensures
        r == (a@ == b@),
{
    let x = chars_of(a);
    let y = chars_of(b);
    same_chars(&x, &y)
}

/// Whether two character vectors are equal.
pub fn same_chars(x: &Vec<char>, y: &Vec<char>) -> (r: bool)
    ensures
        r == (x@ == y@),
{
    if x.len() != y.len() {
        return false;
    }
    let mut i: usize = 0;
    while i < x.len()
        invariant
            0 <= i <= x.len(),
            x.len() == y.len(),
            forall|j: int| 0 <= j < i ==> x@[j] == y@[j],
        decreases x.len() - i,
    {
        if x[i] != y[i] {
            return false;
        }
        i += 1;
    }
    assert(x@ =~= y@);
    true
}

// ---------------------------------------------------------------------------
// White space
// ---------------------------------------------------------------------------

/// The characters with the Unicode property `White_Space`.
pub open spec fn is_space(c: char) -> bool {
    let u = c as u32;
    ||| 0x09 <= u <= 0x0d
    ||| u == 0x20
    ||| u == 0x85
    ||| u == 0xa0
    ||| u == 0x1680
    ||| 0x2000 <= u <= 0x200a
    ||| u == 0x2028
    ||| u == 0x2029
    ||| u == 0x202f
    ||| u == 0x205f
    ||| u == 0x3000
}

pub fn space(c: char) -> (r: bool)
    ensures
        r == is_space(c),
{
    let u: u32 = c as u32;
    (0x09 <= u && u <= 0x0d) || u == 0x20 || u == 0x85 || u == 0xa0 || u == 0x1680 || (0x2000 <= u
        && u <= 0x200a) || u == 0x2028 || u == 0x2029 || u == 0x202f || u == 0x205f || u == 0x3000
}

/// `s` without its leading white space.
pub open spec fn trim_start_of(s: Seq<char>) -> Seq<char>
    decreases s.len(),
{
    if s.len() > 0 && is_space(s[0]) {
        trim_start_of(s.skip(1))
    } else {
        s
    }
}

/// `s` without its trailing white space.
pub open spec fn trim_end_of(s: Seq<char>) -> Seq<char>
    decreases s.len(),
{
    if s.len() > 0 && is_space(s.last()) {
        trim_end_of(s.drop_last())
    } else {
        s
    }
}

/// `s` without the white space at its two ends.
pub open spec fn trim_of(s: Seq<char>) -> Seq<char> {
    trim_end_of(trim_start_of(s))
}

fn trim_start_chars(v: &Vec<char>) -> (r: Vec<char>)
    ensures
        r@ == trim_start_of(v@),
{
    let mut i: usize = 0;
    assert(v@.skip(0) =~= v@);
    while i < v.len() && space(v[i])
        invariant
            0 <= i <= v.len(),
            trim_start_of(v@) == trim_start_of(v@.skip(i as int)),
        decreases v.len() - i,
    {
        assert(v@.skip(i as int).skip(1) =~= v@.skip(i + 1));
        assert(v@.skip(i as int)[0] == v@[i as int]);
        i += 1;
    }
    assert(i < v.len() ==> v@.skip(i as int)[0] == v@[i as int]);
    assert(v@.skip(i as int) =~= v@.subrange(i as int, v@.len() as int));
    slice_of(v, i, v.len())
}

fn trim_end_chars(v: &Vec<char>) -> (r: Vec<char>)
    ensures
        r@ == trim_end_of(v@),
{
    let mut i: usize = v.len();
    assert(v@.take(i as int) =~= v@);
    while i > 0 && space(v[i - 1])
        invariant
            0 <= i <= v.len(),
            trim_end_of(v@) == trim_end_of(v@.take(i as int)),
        decreases i,
    {
        assert(v@.take(i as int).drop_last() =~= v@.take(i - 1));
        assert(v@.take(i as int).last() == v@[i - 1]);
        i -= 1;
    }
    assert(i > 0 ==> v@.take(i as int).last() == v@[i - 1]);
    assert(v@.take(i as int) =~= v@.subrange(0, i as int));
    slice_of(v, 0, i)
}

pub fn trim_chars(v: &Vec<char>) -> (r: Vec<char>)
    ensures
        r@ == trim_of(v@),
{
    let t = trim_start_chars(v);
    trim_end_chars(&t)
}

/// The text without the white space at its two ends.
pub fn trim(s: &str) -> (r: String)
    ensures
        r@ == trim_of(s@),
{
    let v = chars_of(s);
    let t = trim_chars(&v);
    text_of(&t)
}

/// The words of `s`: the maximal runs of characters that are not white space.
pub open spec fn words_of(s: Seq<char>) -> Seq<Seq<char>>
    decreases s.len(),
    via words_of_decreases
{
    let t = trim_start_of(s);
    if t.len() == 0 {
        Seq::empty()
    } else {
        let n = word_len(t);
        seq![t.take(n as int)] + words_of(t.skip(n as int))
    }
}

/// How many characters come before the first white space of `s`.
pub open spec fn word_len(s: Seq<char>) -> nat
    decreases s.len(),
{
    if s.len() == 0 || is_space(s[0]) {
        0
    } else {
        1 + word_len(s.skip(1))
    }
}

#[via_fn]
proof fn words_of_decreases(s: Seq<char>) {
    lemma_trim_start(s);
    lemma_word_len(trim_start_of(s));
}

proof fn lemma_trim_start(s: Seq<char>)
    ensures
        trim_start_of(s).len() <= s.len(),
        trim_start_of(s).len() > 0 ==> !is_space(trim_start_of(s)[0]),
    decreases s.len(),
{
    if s.len() > 0 && is_space(s[0]) {
        lemma_trim_start(s.skip(1));
    }
}

proof fn lemma_word_len(s: Seq<char>)
    ensures
        word_len(s) <= s.len(),
        s.len() > 0 && !is_space(s[0]) ==> word_len(s) > 0,
    decreases s.len(),
{
    if s.len() > 0 && !is_space(s[0]) {
        lemma_word_len(s.skip(1));
    }
}

/// The words of the text, in order.
pub fn words(s: &str) -> (r: Vec<Vec<char>>)
    ensures
        r@.len() == words_of(s@).len(),
        forall|i: int| 0 <= i < r@.len() ==> #[trigger] r@[i]@ == words_of(s@)[i],
{
    let all = chars_of(s);
    let mut out: Vec<Vec<char>> = Vec::new();
    let mut rest = trim_start_chars(&all);
    proof {
        lemma_trim_start(all@);
        lemma_trim_twice(all@);
    }
    while rest.len() > 0
        invariant
            rest@ == trim_start_of(rest@),
            views(out@) + words_of(rest@) == words_of(s@),
        decreases rest.len(),
    {
        proof {
            lemma_trim_start(rest@);
            lemma_word_len(rest@);
        }
        let mut n: usize = 0;
        assert(rest@.skip(0) =~= rest@);
        while n < rest.len() && !space(rest[n])
            invariant
                0 <= n <= rest.len(),
                word_len(rest@) == n + word_len(rest@.skip(n as int)),
            decreases rest.len() - n,
        {
            assert(rest@.skip(n as int).skip(1) =~= rest@.skip(n + 1));
            assert(rest@.skip(n as int)[0] == rest@[n as int]);
            n += 1;
        }
        assert(n < rest.len() ==> rest@.skip(n as int)[0] == rest@[n as int]);
        assert(n == word_len(rest@));
        let word = slice_of(&rest, 0, n);
        let tail = slice_of(&rest, n, rest.len());
        assert(word@ =~= rest@.take(n as int));
        assert(tail@ =~= rest@.skip(n as int));
        proof {
            lemma_words_trim(tail@);
            lemma_trim_start(tail@);
            lemma_trim_twice(tail@);
        }
        let ghost before = views(out@);
        out.push(word);
        assert(views(out@) =~= before.push(word@));
        rest = trim_start_chars(&tail);
        assert(before.push(word@) + words_of(tail@) =~= before + (seq![word@] + words_of(tail@)));
    }
    assert(words_of(rest@) =~= Seq::empty());
    assert(views(out@) =~= words_of(s@));
    assert forall|i: int| 0 <= i < out@.len() implies #[trigger] out@[i]@ == words_of(s@)[i] by {
        assert(views(out@)[i] == out@[i]@);
    }
    out
}

/// The views of the elements.
pub open spec fn views(v: Seq<Vec<char>>) -> Seq<Seq<char>> {
    Seq::new(v.len(), |i: int| v[i]@)
}

proof fn lemma_trim_twice(s: Seq<char>)
    ensures
        trim_start_of(trim_start_of(s)) == trim_start_of(s),
{
    lemma_trim_start(s);
}

proof fn lemma_words_trim(s: Seq<char>)
    ensures
        words_of(s) == words_of(trim_start_of(s)),
{
    lemma_trim_twice(s);
}

// ---------------------------------------------------------------------------
// ASCII case
// ---------------------------------------------------------------------------

/// `c` with the letters `A` to `Z` brought to lower case.
pub open spec fn lower_char(c: char) -> char {
    if 'A' <= c <= 'Z' {
        ((c as u8 + 32) as u8) as char
    } else {
        c
    }
}

/// `s` with the letters `A` to `Z` brought to lower case.
pub open spec fn lower_of(s: Seq<char>) -> Seq<char> {
    Seq::new(s.len(), |i: int| lower_char(s[i]))
}

pub fn lower_chars(v: &Vec<char>) -> (r: Vec<char>)
    ensures
        r@ == lower_of(v@),
{
    let mut out: Vec<char> = Vec::new();
    let mut i: usize = 0;
    while i < v.len()
        invariant
            0 <= i <= v.len(),
            out@.len() == i,
            forall|j: int| 0 <= j < i ==> out@[j] == lower_char(v@[j]),
        decreases v.len() - i,
    {
        let c = v[i];
        if 'A' <= c && c <= 'Z' {
            out.push((c as u8 + 32) as char);
        } else {
            out.push(c);
        }
        i += 1;
    }
    assert(out@ =~= lower_of(v@));
    out
}

/// The text with the letters `A` to `Z` brought to lower case.
pub fn to_ascii_lowercase(s: &str) -> (r: String)
    ensures
        r@ == lower_of(s@),
{
    let v = chars_of(s);
    let t = lower_chars(&v);
    text_of(&t)
}

/// Whether two texts differ at most in the case of the letters `A` to `Z`.
pub fn eq_ignore_ascii_case(a: &Vec<char>, b: &str) -> (r: bool)
    ensures
        r == (lower_of(a@) == lower_of(b@)),
{
    let x = lower_chars(a);
    let bc = chars_of(b);
    let y = lower_chars(&bc);
    same_chars(&x, &y)
}

// ---------------------------------------------------------------------------
// Splitting
// ---------------------------------------------------------------------------

/// The index of the first `c` in `s`; the length of `s` if there is none.
pub open spec fn position_of(s: Seq<char>, c: char) -> nat
    decreases s.len(),
{
    if s.len() == 0 || s[0] == c {
        0
    } else {
        1 + position_of(s.skip(1), c)
    }
}

pub proof fn lemma_position(s: Seq<char>, c: char)
    ensures
        position_of(s, c) <= s.len(),
        position_of(s, c) < s.len() ==> s[position_of(s, c) as int] == c,
        forall|i: int| 0 <= i < position_of(s, c) ==> s[i] != c,
    decreases s.len(),
{
    if s.len() > 0 && s[0] != c {
        lemma_position(s.skip(1), c);
        assert forall|i: int| 0 <= i < position_of(s, c) implies s[i] != c by {
            if i > 0 {
                assert(s[i] == s.skip(1)[i - 1]);
            }
        }
    }
}

pub fn position(v: &Vec<char>, c: char) -> (r: usize)
    ensures
        r == position_of(v@, c),
        r <= v.len(),
{
    let mut i: usize = 0;
    assert(v@.skip(0) =~= v@);
    while i < v.len() && v[i] != c
        invariant
            0 <= i <= v.len(),
            position_of(v@, c) == i + position_of(v@.skip(i as int), c),
        decreases v.len() - i,
    {
        assert(v@.skip(i as int).skip(1) =~= v@.skip(i + 1));
        assert(v@.skip(i as int)[0] == v@[i as int]);
        i += 1;
    }
    assert(i < v.len() ==> v@.skip(i as int)[0] == v@[i as int]);
    i
}

/// `s` before and after its first `c`, if it has one.
pub open spec fn split_once_of(s: Seq<char>, c: char) -> Option<(Seq<char>, Seq<char>)> {
    let p = position_of(s, c) as int;
    if p < s.len() {
        Some((s.take(p), s.skip(p + 1)))
    } else {
        None
    }
}

pub fn split_once(v: &Vec<char>, c: char) -> (r: Option<(Vec<char>, Vec<char>)>)
    ensures
        match r {
            Some((a, b)) => split_once_of(v@, c) == Some((a@, b@)),
            None => split_once_of(v@, c) is None,
        },
{
    let p: usize = position(v, c);
    if p < v.len() {
        let a = slice_of(v, 0, p);
        let b = slice_of(v, p + 1, v.len());
        assert(a@ =~= v@.take(p as int));
        assert(b@ =~= v@.skip(p + 1));
        Some((a, b))
    } else {
        None
    }
}

/// The pieces of `s` between its `c`s.
pub open spec fn split_of(s: Seq<char>, c: char) -> Seq<Seq<char>>
    decreases s.len(),
{
    let p = position_of(s, c) as int;
    if p < s.len() {
        seq![s.take(p)] + split_of(s.skip(p + 1), c)
    } else {
        seq![s]
    }
}

pub fn split(v: &Vec<char>, c: char) -> (r: Vec<Vec<char>>)
    ensures
        views(r@) == split_of(v@, c),
{
    let mut out: Vec<Vec<char>> = Vec::new();
    let mut rest = slice_of(v, 0, v.len());
    assert(rest@ =~= v@);
    assert(views(out@) + split_of(rest@, c) =~= split_of(v@, c));
    loop
        invariant
            views(out@) + split_of(rest@, c) == split_of(v@, c),
        decreases rest.len(),
    {
        let ghost before = views(out@);
        match split_once(&rest, c) {
            Some((a, b)) => {
                out.push(a);
                assert(views(out@) =~= before.push(a@));
                assert(before.push(a@) + split_of(b@, c) =~= before + (seq![a@] + split_of(b@, c)));
                rest = b;
            },
            None => {
                let last = slice_of(&rest, 0, rest.len());
                assert(last@ =~= rest@);
                out.push(last);
                assert(views(out@) =~= before + seq![rest@]);
                return out;
            },
        }
    }
}

/// The lines of `s`: what lies between the line feeds, without a carriage
/// return in front of a line feed; no empty line after a final line feed.
pub open spec fn lines_of(s: Seq<char>) -> Seq<Seq<char>>
    decreases s.len(),
{
    if s.len() == 0 {
        Seq::empty()
    } else {
        let p = position_of(s, '\n') as int;
        if p < s.len() {
            seq![without_cr(s.take(p))] + lines_of(s.skip(p + 1))
        } else {
            seq![s]
        }
    }
}

/// `s` without one carriage return at its end.
pub open spec fn without_cr(s: Seq<char>) -> Seq<char> {
    if s.len() > 0 && s.last() == '\r' {
        s.drop_last()
    } else {
        s
    }
}

pub fn lines(s: &str) -> (r: Vec<Vec<char>>)
    ensures
        views(r@) == lines_of(s@),
{
    let mut out: Vec<Vec<char>> = Vec::new();
    let mut rest = chars_of(s);
    assert(views(out@) + lines_of(rest@) =~= lines_of(s@));
    while rest.len() > 0
        invariant
            views(out@) + lines_of(rest@) == lines_of(s@),
        decreases rest.len(),
    {
        let ghost before = views(out@);
        match split_once(&rest, '\n') {
            Some((a, b)) => {
                let mut line = a;
                if line.len() > 0 && line[line.len() - 1] == '\r' {
                    line.pop();
                }
                assert(line@ =~= without_cr(a@));
                out.push(line);
                assert(views(out@) =~= before.push(line@));
                assert(before.push(line@) + lines_of(b@) =~= before + (seq![line@] + lines_of(b@)));
                rest = b;
            },
            None => {
                let last = slice_of(&rest, 0, rest.len());
                assert(last@ =~= rest@);
                out.push(last);
                assert(views(out@) =~= before + seq![rest@]);
                rest = Vec::new();
                assert(views(out@) + lines_of(rest@) =~= before + seq![last@]);
            },
        }
    }
    assert(views(out@) + lines_of(rest@) =~= views(out@));
    out
}

/// Whether `p` is what `s` begins with.
pub open spec fn has_prefix(s: Seq<char>, p: Seq<char>) -> bool {
    p.len() <= s.len() && s.take(p.len() as int) == p
}

/// Whether `p` is what `s` ends with.
pub open spec fn has_suffix(s: Seq<char>, p: Seq<char>) -> bool {
    p.len() <= s.len() && s.skip(s.len() - p.len()) == p
}

/// Whether the characters of `p` stand in `v` from index `at` on.
fn matches_at(v: &Vec<char>, at: usize, p: &Vec<char>) -> (r: bool)
    requires
        at <= v.len(),
    ensures
        r == has_prefix(v@.skip(at as int), p@),
{
    if p.len() > v.len() - at {
        return false;
    }
    let mut i: usize = 0;
    while i < p.len()
        invariant
            0 <= i <= p.len() <= v.len() - at,
            at <= v.len(),
            forall|j: int| 0 <= j < i ==> v@[at + j] == p@[j],
        decreases p.len() - i,
    {
        if v[at + i] != p[i] {
            assert(v@.skip(at as int).take(p@.len() as int)[i as int] == v@[at + i]);
            return false;
        }
        i += 1;
    }
    assert(v@.skip(at as int).take(p@.len() as int) =~= p@);
    true
}

/// The text behind the prefix `p`, if it begins with `p`.
pub open spec fn strip_prefix_of(s: Seq<char>, p: Seq<char>) -> Option<Seq<char>> {
    if has_prefix(s, p) {
        Some(s.skip(p.len() as int))
    } else {
        None
    }
}

/// The text in front of the suffix `p`, if it ends with `p`.
pub open spec fn strip_suffix_of(s: Seq<char>, p: Seq<char>) -> Option<Seq<char>> {
    if has_suffix(s, p) {
        Some(s.take(s.len() - p.len()))
    } else {
        None
    }
}

pub fn strip_prefix(v: &Vec<char>, p: &str) -> (r: Option<Vec<char>>)
    ensures
        match r {
            Some(t) => strip_prefix_of(v@, p@) == Some(t@),
            None => strip_prefix_of(v@, p@) is None,
        },
{
    let pc = chars_of(p);
    assert(v@.skip(0) =~= v@);
    if matches_at(v, 0, &pc) {
        let t = slice_of(v, pc.len(), v.len());
        assert(t@ =~= v@.skip(pc@.len() as int));
        Some(t)
    } else {
        None
    }
}

pub fn strip_suffix(v: &Vec<char>, p: &str) -> (r: Option<Vec<char>>)
    ensures
        match r {
            Some(t) => strip_suffix_of(v@, p@) == Some(t@),
            None => strip_suffix_of(v@, p@) is None,
        },
{
    let pc = chars_of(p);
    if pc.len() > v.len() {
        return None;
    }
    let at: usize = v.len() - pc.len();
    assert(v@.skip(at as int).take(pc@.len() as int) =~= v@.skip(at as int));
    if matches_at(v, at, &pc) {
        let t = slice_of(v, 0, at);
        assert(t@ =~= v@.take(at as int));
        Some(t)
    } else {
        None
    }
}

/// Whether `p` occurs in `s`.
pub open spec fn contains_text(s: Seq<char>, p: Seq<char>) -> bool {
    exists|i: int| 0 <= i <= s.len() && has_prefix(#[trigger] s.skip(i), p)
}

pub fn contains(s: &str, p: &str) -> (r: bool)
    ensures
        r == contains_text(s@, p@),
{
    let v = chars_of(s);
    let pc = chars_of(p);
    let mut i: usize = 0;
    while i <= v.len()
        invariant
            0 <= i <= v.len() + 1,
            v@ == s@,
            pc@ == p@,
            forall|j: int| 0 <= j < i ==> !has_prefix(#[trigger] v@.skip(j), pc@),
        decreases v.len() + 1 - i,
    {
        if matches_at(&v, i, &pc) {
            return true;
        }
        if i == v.len() {
            return false;
        }
        i += 1;
    }
    false
}

/// `s` with every occurrence of `p`, found from the left and not
/// overlapping, replaced by `with`.
pub open spec fn replace_of(s: Seq<char>, p: Seq<char>, with: Seq<char>) -> Seq<char>
    decreases s.len(),
{
    if s.len() == 0 || p.len() == 0 {
        s
    } else if has_prefix(s, p) {
        with + replace_of(s.skip(p.len() as int), p, with)
    } else {
        seq![s[0]] + replace_of(s.skip(1), p, with)
    }
}

/// Replaces every occurrence of a pattern that is not empty.
pub fn replace(s: &str, p: &str, with: &str) -> (r: String)
    requires
        p@.len() > 0,
    ensures
        r@ == replace_of(s@, p@, with@),
{
    let v = chars_of(s);
    let pc = chars_of(p);
    let mut out = String::new();
    let mut i: usize = 0;
    assert(v@.skip(0) =~= v@);
    assert(out@ + replace_of(v@, p@, with@) =~= replace_of(s@, p@, with@));
    while i < v.len()
        invariant
            0 <= i <= v.len(),
            v@ == s@,
            pc@ == p@,
            p@.len() > 0,
            out@ + replace_of(v@.skip(i as int), p@, with@) == replace_of(s@, p@, with@),
        decreases v.len() - i,
    {
        let ghost before = out@;
        let ghost rest = v@.skip(i as int);
        if matches_at(&v, i, &pc) {
            out.append(with);
            assert(rest.skip(p@.len() as int) =~= v@.skip(i + p@.len()));
            assert(before + (with@ + replace_of(rest.skip(p@.len() as int), p@, with@)) =~= (before
                + with@) + replace_of(rest.skip(p@.len() as int), p@, with@));
            i += pc.len();
        } else {
            out.push(v[i]);
            assert(rest.skip(1) =~= v@.skip(i + 1));
            assert(before + (seq![rest[0]] + replace_of(rest.skip(1), p@, with@)) =~= before.push(
                rest[0],
            ) + replace_of(rest.skip(1), p@, with@));
            i += 1;
        }
    }
    assert(out@ + replace_of(v@.skip(i as int), p@, with@) =~= out@);
    out
}

// ---------------------------------------------------------------------------
// Decimal numerals
// ---------------------------------------------------------------------------

pub open spec fn is_digit(c: char) -> bool {
    '0' <= c <= '9'
}

/// The value of a decimal digit.
pub open spec fn digit_value(c: char) -> int {
    c as int - '0' as int
}

/// The digit of a value below ten.
pub open spec fn digit_char(d: int) -> char {
    (d + '0' as int) as char
}

/// Whether `s` is a run of one or more digits.
pub open spec fn is_numeral(s: Seq<char>) -> bool {
    s.len() > 0 && forall|i: int| 0 <= i < s.len() ==> is_digit(#[trigger] s[i])
}

/// The number that a run of digits writes.
pub open spec fn numeral_value(s: Seq<char>) -> int
    decreases s.len(),
{
    if s.len() == 0 {
        0
    } else {
        numeral_value(s.drop_last()) * 10 + digit_value(s.last())
    }
}

/// The shortest decimal numeral of `n`.
pub open spec fn decimal_of(n: nat) -> Seq<char>
    decreases n,
{
    if n < 10 {
        seq![digit_char(n as int)]
    } else {
        decimal_of(n / 10).push(digit_char((n % 10) as int))
    }
}

/// The decimal numeral of an integer, with `-` in front of a negative one.
pub open spec fn signed_decimal_of(n: int) -> Seq<char> {
    if n < 0 {
        seq!['-'] + decimal_of((-n) as nat)
    } else {
        decimal_of(n as nat)
    }
}

/// What an unsigned integer type reads from `s`: an optional `+` and then
/// digits, with a value of at most `max`.
pub open spec fn parse_unsigned_of(s: Seq<char>, max: int) -> Option<int> {
    let t = if s.len() > 0 && s[0] == '+' {
        s.skip(1)
    } else {
        s
    };
    if is_numeral(t) && numeral_value(t) <= max {
        Some(numeral_value(t))
    } else {
        None
    }
}

/// What a signed integer type reads from `s`: an optional sign and then
/// digits, with a value from `min` to `max`.
pub open spec fn parse_signed_of(s: Seq<char>, min: int, max: int) -> Option<int> {
    if s.len() > 0 && s[0] == '-' {
        let t = s.skip(1);
        if is_numeral(t) && -numeral_value(t) >= min {
            Some(-numeral_value(t))
        } else {
            None
        }
    } else {
        parse_unsigned_of(s, max)
    }
}

proof fn lemma_numeral_nonneg(s: Seq<char>)
    requires
        forall|i: int| 0 <= i < s.len() ==> is_digit(#[trigger] s[i]),
    ensures
        numeral_value(s) >= 0,
    decreases s.len(),
{
    if s.len() > 0 {
        lemma_numeral_nonneg(s.drop_last());
    }
}

/// A longer numeral is at least as large as each of its beginnings.
proof fn lemma_numeral_prefix(s: Seq<char>, n: int)
    requires
        forall|i: int| 0 <= i < s.len() ==> is_digit(#[trigger] s[i]),
        0 <= n <= s.len(),
    ensures
        numeral_value(s.take(n)) <= numeral_value(s),
    decreases s.len(),
{
    if n == s.len() {
        assert(s.take(n) =~= s);
    } else {
        let t = s.drop_last();
        lemma_numeral_prefix(t, n);
        lemma_numeral_nonneg(t);
        assert(t.take(n) =~= s.take(n));
        assert(is_digit(s[s.len() - 1]));
    }
}

/// Reads the characters from `from` on as digits.
fn parse_digits(v: &Vec<char>, from: usize, max: u64) -> (r: Option<u64>)
    requires
        from <= v.len(),
    ensures
        r is Some <==> is_numeral(v@.skip(from as int)) && numeral_value(v@.skip(from as int))
            <= max,
        r matches Some(n) ==> n == numeral_value(v@.skip(from as int)),
{
    if from == v.len() {
        return None;
    }
    let ghost t = v@.skip(from as int);
    let mut acc: u64 = 0;
    let mut i: usize = from;
    assert(t.take(0) =~= Seq::empty());
    while i < v.len()
        invariant
            from <= i <= v.len(),
            t == v@.skip(from as int),
            forall|j: int| 0 <= j < i - from ==> is_digit(#[trigger] t[j]),
            acc == numeral_value(t.take(i - from)),
            acc <= max,
        decreases v.len() - i,
    {
        let c = v[i];
        assert(t[i - from] == c);
        if c < '0' || c > '9' {
            assert(!is_digit(t[i - from]));
            return None;
        }
        let d: u64 = (c as u8 - 48) as u64;
        assert(t.take(i - from + 1).drop_last() =~= t.take(i - from));
        assert(t.take(i - from + 1).last() == c);
        assert(numeral_value(t.take(i - from + 1)) == acc * 10 + d);
        proof {
            if is_numeral(t) {
                lemma_numeral_prefix(t, i - from + 1);
            }
        }
        if acc > (u64::MAX - d) / 10 {
            assert(acc * 10 + d > u64::MAX);
            return None;
        }
        if acc * 10 + d > max {
            return None;
        }
        acc = acc * 10 + d;
        i += 1;
    }
    assert(t.take(v.len() - from) =~= t);
    Some(acc)
}

/// Reads an unsigned integer of at most `max`.
pub fn parse_unsigned(v: &Vec<char>, max: u64) -> (r: Option<u64>)
    ensures
        match r {
            Some(n) => parse_unsigned_of(v@, max as int) == Some(n as int),
            None => parse_unsigned_of(v@, max as int) is None,
        },
{
    assert(v@.skip(0) =~= v@);
    if v.len() > 0 && v[0] == '+' {
        parse_digits(v, 1, max)
    } else {
        parse_digits(v, 0, max)
    }
}

pub fn parse_u64(v: &Vec<char>) -> (r: Option<u64>)
    ensures
        match r {
            Some(n) => parse_unsigned_of(v@, u64::MAX as int) == Some(n as int),
            None => parse_unsigned_of(v@, u64::MAX as int) is None,
        },
{
    parse_unsigned(v, u64::MAX)
}

pub fn parse_u32(v: &Vec<char>) -> (r: Option<u32>)
    ensures
        match r {
            Some(n) => parse_unsigned_of(v@, u32::MAX as int) == Some(n as int),
            None => parse_unsigned_of(v@, u32::MAX as int) is None,
        },
{
    match parse_unsigned(v, u32::MAX as u64) {
        Some(n) => {
            assert(n <= u32::MAX);
            Some(n as u32)
        },
        None => None,
    }
}

pub fn parse_u16(v: &Vec<char>) -> (r: Option<u16>)
    ensures
        match r {
            Some(n) => parse_unsigned_of(v@, u16::MAX as int) == Some(n as int),
            None => parse_unsigned_of(v@, u16::MAX as int) is None,
        },
{
    match parse_unsigned(v, u16::MAX as u64) {
        Some(n) => {
            assert(n <= u16::MAX);
            Some(n as u16)
        },
        None => None,
    }
}

pub fn parse_i32(v: &Vec<char>) -> (r: Option<i32>)
    ensures
        match r {
            Some(n) => parse_signed_of(v@, i32::MIN as int, i32::MAX as int) == Some(n as int),
            None => parse_signed_of(v@, i32::MIN as int, i32::MAX as int) is None,
        },
{
    if v.len() > 0 && v[0] == '-' {
        match parse_digits(v, 1, 0x8000_0000) {
            Some(n) => Some((0i64 - n as i64) as i32),
            None => None,
        }
    } else {
        match parse_unsigned(v, i32::MAX as u64) {
            Some(n) => {
                assert(n <= i32::MAX);
                Some(n as i32)
            },
            None => None,
        }
    }
}

/// The decimal numeral of `n`.
pub fn decimal(n: u64) -> (r: String)
    ensures
        r@ == decimal_of(n as nat),
{
    let mut rev: Vec<char> = Vec::new();
    let mut rest: u64 = n;
    while rest >= 10
        invariant
            decimal_of(n as nat) == decimal_of(rest as nat) + rev@.reverse(),
        decreases rest,
    {
        let d: u8 = (rest % 10) as u8;
        let c = (d + 48) as char;
        let ghost before = rev@;
        rev.push(c);
        assert(c == digit_char((rest % 10) as int));
        assert(rev@.reverse() =~= seq![c] + before.reverse());
        assert(decimal_of((rest / 10) as nat).push(c) + before.reverse() =~= decimal_of(
            (rest / 10) as nat,
        ) + rev@.reverse());
        rest = rest / 10;
    }
    let c = (rest as u8 + 48) as char;
    assert(c == digit_char(rest as int));
    let mut out = String::new();
    out.push(c);
    let mut i: usize = rev.len();
    assert(rev@.skip(i as int).reverse() =~= Seq::<char>::empty());
    while i > 0
        invariant
            0 <= i <= rev.len(),
            out@ == seq![c] + rev@.skip(i as int).reverse(),
        decreases i,
    {
        out.push(rev[i - 1]);
        assert(rev@.skip(i - 1).reverse() =~= rev@.skip(i as int).reverse().push(rev@[i - 1]));
        i -= 1;
    }
    assert(rev@.skip(0) =~= rev@);
    assert(out@ =~= decimal_of(n as nat));
    out
}

/// The decimal numeral of `n`, with `-` in front of a negative number.
pub fn signed_decimal(n: i64) -> (r: String)
    ensures
        r@ == signed_decimal_of(n as int),
{
    if n < 0 {
        let magnitude: u64 = (0i128 - n as i128) as u64;
        let digits = decimal(magnitude);
        let mut out = String::new();
        out.push('-');
        out.append(digits.as_str());
        assert(out@ =~= seq!['-'] + digits@);
        out
    } else {
        decimal(n as u64)
    }
}

proof fn lemma_decimal(n: nat)
    ensures
        is_numeral(decimal_of(n)),
        numeral_value(decimal_of(n)) == n,
    decreases n,
{
    reveal_with_fuel(numeral_value, 2);
    if n >= 10 {
        lemma_decimal(n / 10);
        let d = digit_char((n % 10) as int);
        assert(decimal_of(n).drop_last() =~= decimal_of(n / 10));
        assert(decimal_of(n).last() == d);
        assert forall|i: int| 0 <= i < decimal_of(n).len() implies is_digit(
            #[trigger] decimal_of(n)[i],
        ) by {
            if i < decimal_of(n / 10).len() {
                assert(decimal_of(n)[i] == decimal_of(n / 10)[i]);
            }
        }
    } else {
        assert(decimal_of(n).drop_last() =~= Seq::<char>::empty());
        assert(decimal_of(n).last() == digit_char(n as int));
    }
}

/// An unsigned number is read back from its decimal numeral.
pub proof fn decimal_reads_back(n: nat, max: int)
    requires
        n <= max,
    ensures
        parse_unsigned_of(decimal_of(n), max) == Some(n as int),
{
    lemma_decimal(n);
    assert(is_digit(decimal_of(n)[0]));
}

/// A signed number is read back from its decimal numeral.
pub proof fn signed_decimal_reads_back(n: int, min: int, max: int)
    requires
        min <= n <= max,
    ensures
        parse_signed_of(signed_decimal_of(n), min, max) == Some(n),
{
    if n < 0 {
        lemma_decimal((-n) as nat);
        assert(signed_decimal_of(n).skip(1) =~= decimal_of((-n) as nat));
    } else {
        decimal_reads_back(n as nat, max);
        lemma_decimal(n as nat);
        assert(is_digit(decimal_of(n as nat)[0]));
    }
}

// ---------------------------------------------------------------------------
// Laws
// ---------------------------------------------------------------------------

/// Whether a text is all white space.
pub open spec fn all_blank(s: Seq<char>) -> bool {
    forall|i: int| 0 <= i < s.len() ==> is_space(#[trigger] s[i])
}

/// Blanks, tabs and line ends are white space, and nothing that can be seen in
/// ASCII is.
pub proof fn blanks_are_white_space(c: char)
    ensures
        is_space(' ') && is_space('\t') && is_space('\n') && is_space('\r'),
        0x21 <= c as u32 <= 0x7e ==> !is_space(c),
{
}

proof fn lemma_trim_start_of(a: Seq<char>, t: Seq<char>)
    requires
        all_blank(a),
        t.len() > 0 ==> !is_space(t[0]),
    ensures
        trim_start_of(a + t) == t,
    decreases a.len(),
{
    let s = a + t;
    if a.len() == 0 {
        assert(s =~= t);
    } else {
        assert(s[0] == a[0]);
        assert(s.skip(1) =~= a.skip(1) + t);
        assert forall|i: int| 0 <= i < a.skip(1).len() implies is_space(#[trigger] a.skip(1)[i]) by {
            assert(a.skip(1)[i] == a[i + 1]);
        }
        lemma_trim_start_of(a.skip(1), t);
    }
}

proof fn lemma_trim_end_of(t: Seq<char>, b: Seq<char>)
    requires
        all_blank(b),
        t.len() > 0 ==> !is_space(t.last()),
    ensures
        trim_end_of(t + b) == t,
    decreases b.len(),
{
    let s = t + b;
    if b.len() == 0 {
        assert(s =~= t);
    } else {
        assert(s.last() == b.last());
        assert(s.drop_last() =~= t + b.drop_last());
        assert forall|i: int| 0 <= i < b.drop_last().len() implies is_space(
            #[trigger] b.drop_last()[i],
        ) by {
            assert(b.drop_last()[i] == b[i]);
        }
        lemma_trim_end_of(t, b.drop_last());
    }
}

/// Trimming takes the white space off both ends, and nothing else: a text that
/// neither begins nor ends with white space is left of any amount of it around
/// the text.
pub proof fn trimming_takes_the_blanks_off(a: Seq<char>, t: Seq<char>, b: Seq<char>)
    requires
        all_blank(a),
        all_blank(b),
        t.len() > 0 ==> !is_space(t[0]) && !is_space(t.last()),
    ensures
        trim_of(a + t + b) == t,
{
    if t.len() > 0 {
        assert((t + b)[0] == t[0]);
        assert(a + t + b =~= a + (t + b));
        lemma_trim_start_of(a, t + b);
        lemma_trim_end_of(t, b);
    } else {
        let s = a + t + b;
        assert(s =~= s + t);
        assert forall|i: int| 0 <= i < s.len() implies is_space(#[trigger] s[i]) by {
            if i < a.len() {
                assert(s[i] == a[i]);
            } else {
                assert(s[i] == b[i - a.len()]);
            }
        }
        lemma_trim_start_of(s, t);
        assert(trim_end_of(t) =~= t);
    }
}

/// Whether a text has no white space.
pub open spec fn is_word(s: Seq<char>) -> bool {
    forall|i: int| 0 <= i < s.len() ==> !is_space(#[trigger] s[i])
}

proof fn lemma_word_len_of(w: Seq<char>, rest: Seq<char>)
    requires
        is_word(w),
        rest.len() > 0 ==> is_space(rest[0]),
    ensures
        word_len(w + rest) == w.len(),
    decreases w.len(),
{
    let s = w + rest;
    if w.len() == 0 {
        assert(s =~= rest);
    } else {
        assert(s[0] == w[0]);
        assert(s.skip(1) =~= w.skip(1) + rest);
        assert forall|i: int| 0 <= i < w.skip(1).len() implies !is_space(#[trigger] w.skip(1)[i]) by {
            assert(w.skip(1)[i] == w[i + 1]);
        }
        lemma_word_len_of(w.skip(1), rest);
    }
}

/// White space parts words: a word is what stands before the next white space,
/// and white space before a word is passed over.
pub proof fn white_space_parts_words(w: Seq<char>, c: char, rest: Seq<char>)
    requires
        is_word(w),
        is_space(c),
    ensures
        w.len() > 0 ==> words_of(w) == seq![w],
        w.len() > 0 ==> words_of(w + (seq![c] + rest)) == seq![w] + words_of(rest),
        words_of(seq![c] + rest) == words_of(rest),
        words_of(Seq::empty()).len() == 0,
{
    let none = Seq::<char>::empty();
    let tail = seq![c] + rest;
    assert(tail[0] == c && tail.skip(1) =~= rest);
    lemma_words_trim(rest);
    lemma_words_trim(tail);
    assert(trim_start_of(tail) == trim_start_of(rest));
    if w.len() > 0 {
        let s = w + tail;
        assert(s[0] == w[0]);
        assert(!is_space(w[0]));
        lemma_word_len_of(w, tail);
        assert(trim_start_of(s) == s);
        assert(s.take(w.len() as int) =~= w);
        assert(s.skip(w.len() as int) =~= tail);
        assert(words_of(s) == seq![w] + words_of(tail));
        assert(w + none =~= w);
        lemma_word_len_of(w, none);
        assert(trim_start_of(w) == w);
        assert(w.take(w.len() as int) =~= w);
        assert(w.skip(w.len() as int) =~= none);
        assert(words_of(none) =~= Seq::empty());
        assert(words_of(w) =~= seq![w]);
    }
}

/// Bringing a text to lower case changes its capital letters alone, each to the
/// letter thirty-two places on, and doing it twice is doing it once.
pub proof fn only_capitals_are_lowered(s: Seq<char>, i: int)
    requires
        0 <= i < s.len(),
    ensures
        lower_of(s).len() == s.len(),
        !('A' <= s[i] <= 'Z') ==> lower_of(s)[i] == s[i],
        'A' <= s[i] <= 'Z' ==> lower_of(s)[i] as u32 == s[i] as u32 + 32,
        !('A' <= lower_of(s)[i] <= 'Z'),
        lower_of(lower_of(s)) == lower_of(s),
{
    assert forall|k: int| 0 <= k < s.len() implies lower_of(lower_of(s))[k] == lower_of(s)[k] by {
        assert(lower_of(s)[k] == lower_char(s[k]));
    }
    assert(lower_of(lower_of(s)) =~= lower_of(s));
}

/// Whether a character does not occur in a text.
pub open spec fn lacks(s: Seq<char>, c: char) -> bool {
    forall|i: int| 0 <= i < s.len() ==> #[trigger] s[i] != c
}

proof fn lemma_position_of(a: Seq<char>, c: char, b: Seq<char>)
    requires
        lacks(a, c),
    ensures
        position_of(a + seq![c] + b, c) == a.len(),
        position_of(a, c) == a.len(),
    decreases a.len(),
{
    let s = a + seq![c] + b;
    if a.len() == 0 {
        assert(s[0] == c);
    } else {
        assert(s[0] == a[0]);
        assert(s.skip(1) =~= a.skip(1) + seq![c] + b);
        assert forall|i: int| 0 <= i < a.skip(1).len() implies #[trigger] a.skip(1)[i] != c by {
            assert(a.skip(1)[i] == a[i + 1]);
        }
        lemma_position_of(a.skip(1), c, b);
    }
}

/// A text is parted at the first place of a character, which goes to neither
/// part; a text without it is not parted.
pub proof fn texts_are_parted_at_the_first(a: Seq<char>, c: char, b: Seq<char>)
    requires
        lacks(a, c),
    ensures
        split_once_of(a + seq![c] + b, c) == Some((a, b)),
        split_once_of(a, c) is None,
        split_of(a + seq![c] + b, c) == seq![a] + split_of(b, c),
        split_of(a, c) == seq![a],
{
    let s = a + seq![c] + b;
    lemma_position_of(a, c, b);
    assert(s.take(a.len() as int) =~= a);
    assert(s.skip(a.len() + 1int) =~= b);
}

/// Every line feed ends a line, and a carriage return before it belongs to the
/// end; what stands behind the last one is a line if it is anything.
pub proof fn line_feeds_end_lines(a: Seq<char>, b: Seq<char>)
    requires
        lacks(a, '\n'),
    ensures
        a.len() == 0 || a.last() != '\r' ==> lines_of(a + seq!['\n'] + b) == seq![a] + lines_of(b),
        a.len() > 0 && a.last() == '\r' ==> lines_of(a + seq!['\n'] + b) == seq![a.drop_last()]
            + lines_of(b),
        a.len() > 0 ==> lines_of(a) == seq![a],
        lines_of(Seq::empty()).len() == 0,
{
    let s = a + seq!['\n'] + b;
    lemma_position_of(a, '\n', b);
    assert(s.take(a.len() as int) =~= a);
    assert(s.skip(a.len() + 1int) =~= b);
}

/// A prefix and a suffix that were put on are taken off again, and what is left
/// is the text without them; nothing else is taken off.
pub proof fn prefixes_and_suffixes_come_off(s: Seq<char>, p: Seq<char>)
    ensures
        strip_prefix_of(p + s, p) == Some(s),
        strip_suffix_of(s + p, p) == Some(s),
        strip_prefix_of(s, p) matches Some(t) ==> s == p + t,
        strip_suffix_of(s, p) matches Some(t) ==> s == t + p,
        has_prefix(s, p) <==> strip_prefix_of(s, p) is Some,
        has_suffix(s, p) <==> strip_suffix_of(s, p) is Some,
{
    assert((p + s).take(p.len() as int) =~= p);
    assert((p + s).skip(p.len() as int) =~= s);
    assert((s + p).skip(s.len() as int) =~= p);
    assert((s + p).take(s.len() as int) =~= s);
    if has_prefix(s, p) {
        assert(s =~= s.take(p.len() as int) + s.skip(p.len() as int));
    }
    if has_suffix(s, p) {
        assert(s =~= s.take(s.len() - p.len()) + s.skip(s.len() - p.len()));
    }
}

/// A text is found wherever it stands, and only if it stands somewhere.
pub proof fn texts_are_found_where_they_stand(a: Seq<char>, p: Seq<char>, b: Seq<char>, s: Seq<char>)
    ensures
        contains_text(a + p + b, p),
        contains_text(s, p) ==> exists|x: Seq<char>, y: Seq<char>| s == #[trigger] (x + p + y),
{
    let t = a + p + b;
    assert(t.skip(a.len() as int) =~= p + b);
    assert((p + b).take(p.len() as int) =~= p);
    assert(has_prefix(t.skip(a.len() as int), p));
    if contains_text(s, p) {
        let i = choose|i: int| 0 <= i <= s.len() && has_prefix(#[trigger] s.skip(i), p);
        let x = s.take(i);
        let y = s.skip(i).skip(p.len() as int);
        assert(s =~= x + s.skip(i));
        assert(s.skip(i) =~= s.skip(i).take(p.len() as int) + y);
        assert(s =~= x + p + y);
    }
}

/// Replacing works from the left: up to the first occurrence nothing changes,
/// the occurrence is replaced, and behind it the same goes on.
pub proof fn the_first_occurrence_is_replaced(
    a: Seq<char>,
    p: Seq<char>,
    b: Seq<char>,
    with: Seq<char>,
)
    requires
        p.len() > 0,
        forall|i: int| 0 <= i < a.len() ==> !has_prefix(#[trigger] (a + p + b).skip(i), p),
    ensures
        replace_of(a + p + b, p, with) == a + with + replace_of(b, p, with),
    decreases a.len(),
{
    let s = a + p + b;
    if a.len() == 0 {
        assert(s =~= p + b);
        assert(s.take(p.len() as int) =~= p);
        assert(s.skip(p.len() as int) =~= b);
        assert(a + with + replace_of(b, p, with) =~= with + replace_of(b, p, with));
    } else {
        let t = a.skip(1) + p + b;
        assert(s.skip(0) =~= s);
        assert(!has_prefix(s.skip(0), p));
        assert(s.skip(1) =~= t);
        assert forall|i: int| 0 <= i < a.skip(1).len() implies !has_prefix(
            #[trigger] t.skip(i),
            p,
        ) by {
            assert(t.skip(i) =~= s.skip(i + 1));
        }
        the_first_occurrence_is_replaced(a.skip(1), p, b, with);
        assert(seq![s[0]] + (a.skip(1) + with + replace_of(b, p, with)) =~= a + with + replace_of(
            b,
            p,
            with,
        ));
    }
}

/// Where there is nothing to replace a text stays as it is.
pub proof fn other_texts_are_not_replaced(s: Seq<char>, p: Seq<char>, with: Seq<char>)
    requires
        !contains_text(s, p),
    ensures
        replace_of(s, p, with) == s,
    decreases s.len(),
{
    if s.len() > 0 && p.len() > 0 {
        assert(s.skip(0) =~= s);
        assert(!has_prefix(s.skip(0), p));
        let t = s.skip(1);
        assert forall|i: int| 0 <= i <= t.len() implies !has_prefix(#[trigger] t.skip(i), p) by {
            assert(t.skip(i) =~= s.skip(i + 1));
        }
        other_texts_are_not_replaced(t, p, with);
        assert(seq![s[0]] + t =~= s);
    }
}

/// A numeral is read digit by digit, the highest first; a digit more means ten
/// times as much and the digit. Nothing but digits is a number.
pub proof fn digits_count_tenfold(s: Seq<char>, c: char, max: int)
    ensures
        ({
            let t = s.push(c);
            &&& '0' <= c <= '9' && is_numeral(s) ==> is_numeral(t) && numeral_value(t) == 10
                * numeral_value(s) + (c as int - '0' as int)
            &&& !('0' <= c <= '9') && !(s.len() == 0 && c == '+') ==> parse_unsigned_of(t, max)
                is None
            &&& '0' <= c <= '9' ==> (c as int - '0' as int <= max ==> parse_unsigned_of(
                seq![c],
                max,
            ) == Some(c as int - '0' as int))
            &&& parse_unsigned_of(Seq::empty(), max) is None
        }),
{
    let t = s.push(c);
    assert(t.drop_last() =~= s);
    assert(t.last() == c);
    if '0' <= c <= '9' && is_numeral(s) {
        assert forall|i: int| 0 <= i < t.len() implies is_digit(#[trigger] t[i]) by {
            if i < s.len() {
                assert(t[i] == s[i]);
            }
        }
    }
    if !('0' <= c <= '9') {
        assert(!is_digit(t[s.len() as int]));
        if s.len() > 0 && t[0] == '+' {
            assert(t.skip(1)[s.len() - 1] == c);
            assert(!is_numeral(t.skip(1)));
        }
        assert(!is_numeral(t));
    }
    if '0' <= c <= '9' {
        let one = seq![c];
        assert(one.drop_last() =~= Seq::<char>::empty());
        assert(one.last() == c);
        reveal_with_fuel(numeral_value, 2);
        assert forall|i: int| 0 <= i < one.len() implies is_digit(#[trigger] one[i]) by {}
    }
}

/// What is read is a number of the type: a numeral that is too large is none,
/// and a sign in front of it is read as one.
pub proof fn numbers_must_fit(s: Seq<char>, min: int, max: int)
    requires
        is_numeral(s),
        min <= 0 <= max,
    ensures
        parse_unsigned_of(s, max) is Some <==> numeral_value(s) <= max,
        numeral_value(s) <= max ==> parse_unsigned_of(s, max) == Some(numeral_value(s)),
        parse_unsigned_of(seq!['+'] + s, max) == parse_unsigned_of(s, max),
        parse_signed_of(s, min, max) == parse_unsigned_of(s, max),
        -numeral_value(s) >= min ==> parse_signed_of(seq!['-'] + s, min, max) == Some(
            -numeral_value(s),
        ),
        -numeral_value(s) < min ==> parse_signed_of(seq!['-'] + s, min, max) is None,
{
    assert(is_digit(s[0]));
    assert((seq!['+'] + s).skip(1) =~= s);
    assert((seq!['-'] + s).skip(1) =~= s);
}

/// A numeral that is written has no digit too many: only nothing begins with a
/// zero.
pub proof fn numerals_are_short(n: nat)
    ensures
        decimal_of(n).len() > 0,
        n > 0 ==> decimal_of(n)[0] != '0',
        n < 10 ==> decimal_of(n).len() == 1,
    decreases n,
{
    if n >= 10 {
        numerals_are_short(n / 10);
    }
}

proof fn lemma_trimmed_start(s: Seq<char>)
    ensures
        trim_start_of(s).len() > 0 ==> !is_space(trim_start_of(s)[0]),
    decreases s.len(),
{
    if s.len() > 0 && is_space(s[0]) {
        lemma_trimmed_start(s.skip(1));
    }
}

proof fn lemma_trimmed_end(s: Seq<char>)
    ensures
        trim_end_of(s).len() > 0 ==> !is_space(trim_end_of(s).last()) && trim_end_of(s)[0] == s[0],
        trim_end_of(s).len() <= s.len(),
    decreases s.len(),
{
    if s.len() > 0 && is_space(s.last()) {
        lemma_trimmed_end(s.drop_last());
    }
}

/// What is left after trimming has no white space at its ends, so trimming
/// again changes nothing.
pub proof fn trimmed_texts_stay(s: Seq<char>)
    ensures
        trim_of(s).len() > 0 ==> !is_space(trim_of(s)[0]) && !is_space(trim_of(s).last()),
        trim_of(trim_of(s)) == trim_of(s),
{
    lemma_trimmed_start(s);
    lemma_trimmed_end(trim_start_of(s));
    let none = Seq::<char>::empty();
    trimming_takes_the_blanks_off(none, trim_of(s), none);
    assert(none + trim_of(s) + none =~= trim_of(s));
}

/// A numeral that is written is made of the ten digits alone, the last of them
/// what is left over by tens.
pub proof fn numerals_are_digits(n: nat)
    ensures
        forall|i: int|
            0 <= i < decimal_of(n).len() ==> '0' <= #[trigger] decimal_of(n)[i] <= '9'
                && !is_space(decimal_of(n)[i]),
        decimal_of(n).len() > 0,
        decimal_of(n).last() as int == '0' as int + n % 10,
        n >= 10 ==> decimal_of(n).drop_last() == decimal_of(n / 10),
    decreases n,
{
    if n >= 10 {
        numerals_are_digits(n / 10);
        let front = decimal_of(n / 10);
        assert(decimal_of(n).drop_last() =~= front);
        assert forall|i: int| 0 <= i < decimal_of(n).len() implies '0' <= #[trigger] decimal_of(n)[i]
            <= '9' && !is_space(decimal_of(n)[i]) by {
            if i < front.len() {
                assert(decimal_of(n)[i] == front[i]);
            }
        }
    }
}

} // verus!

//! Text as sequences of characters: white space, searching, splitting and
//! trimming.

use vstd::prelude::*;
use vstd::slice::slice_subrange;

verus! {

/// `String::push` appends one character.
pub assume_specification[ String::push ](s: &mut String, c: char)
    ensures
        final(s)@ == old(s)@.push(c),
;

/// The characters with the Unicode property `White_Space`.
pub open spec fn is_white(c: char) -> bool {
    ||| '\u{9}' <= c <= '\u{d}'
    ||| c == ' '
    ||| c == '\u{85}'
    ||| c == '\u{a0}'
    ||| c == '\u{1680}'
    ||| '\u{2000}' <= c <= '\u{200a}'
    ||| '\u{2028}' <= c <= '\u{2029}'
    ||| c == '\u{202f}'
    ||| c == '\u{205f}'
    ||| c == '\u{3000}'
}

/// `s` without its leading white space.
pub open spec fn trimmed_start(s: Seq<char>) -> Seq<char>
    decreases s.len(),
{
    if s.len() > 0 && is_white(s[0]) {
        trimmed_start(s.skip(1))
    } else {
        s
    }
}

/// `s` without its trailing white space.
pub open spec fn trimmed_end(s: Seq<char>) -> Seq<char>
    decreases s.len(),
{
    if s.len() > 0 && is_white(s.last()) {
        trimmed_end(s.drop_last())
    } else {
        s
    }
}

/// `s` without its leading and trailing white space.
pub open spec fn trimmed(s: Seq<char>) -> Seq<char> {
    trimmed_end(trimmed_start(s))
}

/// The index of the first `c` in `s`, or the length of `s` if there is none.
pub open spec fn first_index(s: Seq<char>, c: char) -> int
    decreases s.len(),
{
    if s.len() == 0 || s[0] == c {
        0
    } else {
        1 + first_index(s.skip(1), c)
    }
}

/// The index of the first white space in `s`, or the length of `s` if there is
/// none.
pub open spec fn first_white(s: Seq<char>) -> int
    decreases s.len(),
{
    if s.len() == 0 || is_white(s[0]) {
        0
    } else {
        1 + first_white(s.skip(1))
    }
}

/// The pieces of `s` between the separators `sep`: one more piece than there are
/// separators.
pub open spec fn pieces(s: Seq<char>, sep: char) -> Seq<Seq<char>>
    decreases s.len(),
{
    let i = first_index(s, sep);
    if 0 <= i < s.len() {
        seq![s.take(i)] + pieces(s.skip(i + 1), sep)
    } else {
        seq![s]
    }
}

/// `s` without a carriage return at its end.
pub open spec fn without_final_cr(s: Seq<char>) -> Seq<char> {
    if s.len() > 0 && s.last() == '\r' {
        s.drop_last()
    } else {
        s
    }
}

/// The lines of `s`. A line ends with a line feed, or with a carriage return and
/// a line feed; the last one may lack its line ending.
pub open spec fn line_seq(s: Seq<char>) -> Seq<Seq<char>>
    decreases s.len(),
{
    let i = first_index(s, '\n');
    if 0 <= i < s.len() {
        seq![without_final_cr(s.take(i))] + line_seq(s.skip(i + 1))
    } else if s.len() > 0 {
        seq![s]
    } else {
        seq![]
    }
}

/// Whether the slices of `v` hold the sequences of `model`, one by one.
pub open spec fn slices_hold(v: Seq<&[char]>, model: Seq<Seq<char>>) -> bool {
    &&& v.len() == model.len()
    &&& forall|i: int| 0 <= i < v.len() ==> (#[trigger] v[i])@ == model[i]
}

/// The texts of the strings `v`.
pub open spec fn texts(v: Seq<String>) -> Seq<Seq<char>> {
    v.map_values(|s: String| s@)
}

/// What `first_index` finds is there, and nothing in front of it is.
pub proof fn lemma_first_index(s: Seq<char>, c: char)
    ensures
        0 <= first_index(s, c) <= s.len(),
        first_index(s, c) < s.len() ==> s[first_index(s, c)] == c,
        forall|i: int| 0 <= i < first_index(s, c) ==> s[i] != c,
    decreases s.len(),
{
    if s.len() > 0 && s[0] != c {
        lemma_first_index(s.skip(1), c);
        assert forall|i: int| 0 <= i < first_index(s, c) implies s[i] != c by {
            if i > 0 {
                assert(s[i] == s.skip(1)[i - 1]);
            }
        }
    }
}

/// A character that is first found at `i` settles `first_index`.
pub proof fn lemma_first_index_at(s: Seq<char>, c: char, i: int)
    requires
        0 <= i <= s.len(),
        i < s.len() ==> s[i] == c,
        forall|j: int| 0 <= j < i ==> s[j] != c,
    ensures
        first_index(s, c) == i,
{
    lemma_first_index(s, c);
}

/// What `first_white` finds is there, and nothing in front of it is.
pub proof fn lemma_first_white(s: Seq<char>)
    ensures
        0 <= first_white(s) <= s.len(),
        first_white(s) < s.len() ==> is_white(s[first_white(s)]),
        forall|i: int| 0 <= i < first_white(s) ==> !is_white(s[i]),
    decreases s.len(),
{
    if s.len() > 0 && !is_white(s[0]) {
        lemma_first_white(s.skip(1));
        assert forall|i: int| 0 <= i < first_white(s) implies !is_white(s[i]) by {
            if i > 0 {
                assert(s[i] == s.skip(1)[i - 1]);
            }
        }
    }
}

/// White space that is first found at `i` settles `first_white`.
pub proof fn lemma_first_white_at(s: Seq<char>, i: int)
    requires
        0 <= i <= s.len(),
        i < s.len() ==> is_white(s[i]),
        forall|j: int| 0 <= j < i ==> !is_white(s[j]),
    ensures
        first_white(s) == i,
{
    lemma_first_white(s);
}

/// A string more is a text more.
pub proof fn lemma_texts_push(v: Seq<String>, s: String)
    ensures
        texts(v.push(s)) == texts(v).push(s@),
{
    assert(texts(v.push(s)) =~= texts(v).push(s@));
}

/// White space at the end makes no difference to what is left.
pub proof fn lemma_trimmed_drop(s: Seq<char>)
    requires
        s.len() > 0,
        is_white(s.last()),
    ensures
        trimmed(s) == trimmed(s.drop_last()),
    decreases s.len(),
{
    let t = s.drop_last();
    if is_white(s[0]) {
        if s.len() > 1 {
            lemma_trimmed_drop(s.skip(1));
            assert(s.skip(1).drop_last() == t.skip(1));
        } else {
            assert(s.skip(1) == t);
        }
    }
}

/// The first piece ends at the first separator.
pub proof fn lemma_pieces(a: Seq<char>, sep: char, b: Seq<char>)
    requires
        !a.contains(sep),
    ensures
        pieces(a, sep) == seq![a],
        pieces(a.push(sep) + b, sep) == seq![a] + pieces(b, sep),
{
    let s = a.push(sep) + b;
    assert(forall|i: int| 0 <= i < a.len() ==> a.contains(#[trigger] a[i]));
    lemma_first_index_at(a, sep, a.len() as int);
    assert forall|j: int| 0 <= j < a.len() implies s[j] != sep by {
        assert(s[j] == a[j]);
    }
    lemma_first_index_at(s, sep, a.len() as int);
    assert(s.take(a.len() as int) == a);
    assert(s.skip(a.len() as int + 1) == b);
}

/// No piece holds a separator, and no piece has characters of its own.
pub proof fn lemma_pieces_hold(s: Seq<char>, sep: char, i: int)
    requires
        0 <= i < pieces(s, sep).len(),
    ensures
        !pieces(s, sep)[i].contains(sep),
        forall|c: char| #[trigger] pieces(s, sep)[i].contains(c) ==> s.contains(c),
    decreases s.len(),
{
    lemma_first_index(s, sep);
    let k = first_index(s, sep);
    if k < s.len() {
        let rest = s.skip(k + 1);
        assert forall|c: char| rest.contains(c) implies s.contains(c) by {
            let j = choose|j: int| 0 <= j < rest.len() && rest[j] == c;
            assert(s[j + k + 1] == c);
        }
        if i > 0 {
            assert(pieces(s, sep)[i] == pieces(rest, sep)[i - 1]);
            lemma_pieces_hold(rest, sep, i - 1);
        } else {
            assert(pieces(s, sep)[0] == s.take(k));
            assert forall|c: char| s.take(k).contains(c) implies s.contains(c) && c != sep by {
                let j = choose|j: int| 0 <= j < k && s.take(k)[j] == c;
                assert(s[j] == c);
            }
        }
    }
}

/// No line holds a line feed.
pub proof fn lemma_lines_hold(s: Seq<char>, i: int)
    requires
        0 <= i < line_seq(s).len(),
    ensures
        !line_seq(s)[i].contains('\n'),
    decreases s.len(),
{
    lemma_first_index(s, '\n');
    let k = first_index(s, '\n');
    if k < s.len() {
        if i > 0 {
            assert(line_seq(s)[i] == line_seq(s.skip(k + 1))[i - 1]);
            lemma_lines_hold(s.skip(k + 1), i - 1);
        } else {
            let line = without_final_cr(s.take(k));
            assert(line_seq(s)[0] == line);
            assert forall|j: int| 0 <= j < line.len() implies line[j] != '\n' by {
                assert(line[j] == s[j]);
            }
        }
    }
}

/// The first line ends at the first line feed.
pub proof fn lemma_line_seq(a: Seq<char>, b: Seq<char>)
    requires
        !a.contains('\n'),
        a.len() > 0 ==> a.last() != '\r',
    ensures
        line_seq(a.push('\n') + b) == seq![a] + line_seq(b),
{
    let s = a.push('\n') + b;
    assert(forall|i: int| 0 <= i < a.len() ==> a.contains(#[trigger] a[i]));
    assert forall|j: int| 0 <= j < a.len() implies s[j] != '\n' by {
        assert(s[j] == a[j]);
    }
    lemma_first_index_at(s, '\n', a.len() as int);
    assert(s.take(a.len() as int) == a);
    assert(s.skip(a.len() as int + 1) == b);
}

/// Leading white space is trimmed away.
pub proof fn lemma_trimmed_gap(gap: Seq<char>, s: Seq<char>)
    requires
        forall|i: int| 0 <= i < gap.len() ==> is_white(#[trigger] gap[i]),
        is_trimmed(s),
    ensures
        trimmed(gap + s) == s,
    decreases gap.len(),
{
    if gap.len() > 0 {
        lemma_trimmed_gap(gap.skip(1), s);
        assert((gap + s).skip(1) == gap.skip(1) + s);
        assert((gap + s)[0] == gap[0]);
    } else {
        assert(gap + s == s);
    }
}

/// Whether `s` neither starts nor ends with white space.
pub open spec fn is_trimmed(s: Seq<char>) -> bool {
    s.len() > 0 ==> !is_white(s[0]) && !is_white(s.last())
}

/// Trimming the start leaves none of its white space and adds no character.
proof fn lemma_trimmed_start(s: Seq<char>)
    ensures
        trimmed_start(s).len() > 0 ==> !is_white(trimmed_start(s)[0]),
        forall|c: char| #[trigger] trimmed_start(s).contains(c) ==> s.contains(c),
    decreases s.len(),
{
    if s.len() > 0 && is_white(s[0]) {
        lemma_trimmed_start(s.skip(1));
        assert forall|c: char| trimmed_start(s).contains(c) implies s.contains(c) by {
            assert(trimmed_start(s.skip(1)).contains(c));
            let i = choose|i: int| 0 <= i < s.skip(1).len() && s.skip(1)[i] == c;
            assert(s[i + 1] == c);
        }
    }
}

/// Trimming the end leaves none of its white space and adds no character.
pub proof fn lemma_trimmed_end(s: Seq<char>)
    ensures
        trimmed_end(s).len() > 0 ==> !is_white(trimmed_end(s).last()) && trimmed_end(s)[0] == s[0],
        forall|c: char| #[trigger] trimmed_end(s).contains(c) ==> s.contains(c),
    decreases s.len(),
{
    if s.len() > 0 && is_white(s.last()) {
        lemma_trimmed_end(s.drop_last());
        assert forall|c: char| trimmed_end(s).contains(c) implies s.contains(c) by {
            assert(trimmed_end(s.drop_last()).contains(c));
            let i = choose|i: int| 0 <= i < s.drop_last().len() && s.drop_last()[i] == c;
            assert(s[i] == c);
        }
    }
}

/// A trimmed text has no white space at its ends and no characters of its own.
pub proof fn lemma_trimmed(s: Seq<char>)
    ensures
        is_trimmed(trimmed(s)),
        forall|c: char| #[trigger] trimmed(s).contains(c) ==> s.contains(c),
{
    lemma_trimmed_start(s);
    lemma_trimmed_end(trimmed_start(s));
}

/// There is nothing to trim from a text that is trimmed.
pub proof fn lemma_is_trimmed(s: Seq<char>)
    requires
        is_trimmed(s),
    ensures
        trimmed(s) == s,
{
}

/// White space behind a trimmed text is trimmed away.
pub proof fn lemma_trimmed_push(s: Seq<char>, c: char)
    requires
        is_trimmed(s),
        is_white(c),
    ensures
        trimmed(s.push(c)) == s,
{
    let t = s.push(c);
    if s.len() > 0 {
        assert(t[0] == s[0]);
        assert(t.drop_last() == s);
        assert(trimmed_start(t) == t);
        assert(trimmed_end(t) == trimmed_end(s));
    } else {
        assert(t.skip(1) =~= s);
        assert(trimmed_start(t) == trimmed_start(s));
    }
}

/// Whether `c` is white space.
pub fn is_whitespace(c: char) -> (r: bool)
    ensures
        r == is_white(c),
{
    ('\u{9}' <= c && c <= '\u{d}') || c == ' ' || c == '\u{85}' || c == '\u{a0}' || c == '\u{1680}'
        || ('\u{2000}' <= c && c <= '\u{200a}') || ('\u{2028}' <= c && c <= '\u{2029}') || c
        == '\u{202f}' || c == '\u{205f}' || c == '\u{3000}'
}

/// The characters of `s`.
pub fn to_chars(s: &str) -> (r: Vec<char>)
    ensures
        r@ == s@,
{
    let mut r: Vec<char> = Vec::new();
    for c in it: s.chars()
        invariant
            it.seq() == s@,
            r@ == s@.take(it.index()),
    {
        r.push(c);
    }
    r
}

/// The string of the characters `s`.
pub fn from_chars(s: &[char]) -> (r: String)
    ensures
        r@ == s@,
{
    let mut r = String::new();
    let mut i: usize = 0;
    while i < s.len()
        invariant
            i <= s@.len(),
            r@ == s@.take(i as int),
        decreases s@.len() - i,
    {
        r.push(s[i]);
        i += 1;
    }
    r
}

/// `s` without its leading and trailing white space.
pub fn trim<'a>(s: &'a [char]) -> (r: &'a [char])
    ensures
        r@ == trimmed(s@),
{
    let n = s.len();
    let mut a: usize = 0;
    assert(s@.subrange(0, n as int) == s@);
    while a < n && is_whitespace(s[a])
        invariant
            a <= n,
            n == s@.len(),
            trimmed_start(s@.subrange(a as int, n as int)) == trimmed_start(s@),
        decreases n - a,
    {
        assert(s@.subrange(a as int, n as int).skip(1) == s@.subrange(a + 1, n as int));
        a += 1;
    }
    let mut b: usize = n;
    while b > a && is_whitespace(s[b - 1])
        invariant
            a <= b <= n,
            n == s@.len(),
            trimmed_end(s@.subrange(a as int, b as int)) == trimmed(s@),
        decreases b,
    {
        assert(s@.subrange(a as int, b as int).drop_last() == s@.subrange(a as int, b - 1));
        b -= 1;
    }
    slice_subrange(s, a, b)
}

/// The index of the first `c` in `s`, or the length of `s` if there is none.
pub fn find_char(s: &[char], c: char) -> (r: usize)
    ensures
        r == first_index(s@, c),
        r <= s@.len(),
{
    let mut i: usize = 0;
    while i < s.len() && s[i] != c
        invariant
            i <= s@.len(),
            forall|j: int| 0 <= j < i ==> s@[j] != c,
        decreases s@.len() - i,
    {
        i += 1;
    }
    proof {
        lemma_first_index_at(s@, c, i as int);
    }
    i
}

/// The index of the first white space in `s`, or the length of `s` if there is
/// none.
pub fn find_white(s: &[char]) -> (r: usize)
    ensures
        r == first_white(s@),
        r <= s@.len(),
{
    let mut i: usize = 0;
    while i < s.len() && !is_whitespace(s[i])
        invariant
            i <= s@.len(),
            forall|j: int| 0 <= j < i ==> !is_white(s@[j]),
        decreases s@.len() - i,
    {
        i += 1;
    }
    proof {
        lemma_first_white_at(s@, i as int);
    }
    i
}

/// The pieces of `s` between the separators `sep`.
pub fn split<'a>(s: &'a [char], sep: char) -> (r: Vec<&'a [char]>)
    ensures
        slices_hold(r@, pieces(s@, sep)),
        r@.len() > 0,
{
    let mut r: Vec<&'a [char]> = Vec::new();
    let mut rest: &'a [char] = s;
    let ghost mut done: Seq<Seq<char>> = seq![];
    loop
        invariant
            slices_hold(r@, done),
            pieces(s@, sep) == done + pieces(rest@, sep),
        decreases rest@.len(),
    {
        let i = find_char(rest, sep);
        if i >= rest.len() {
            r.push(rest);
            return r;
        }
        let piece = slice_subrange(rest, 0, i);
        r.push(piece);
        proof {
            assert(pieces(rest@, sep) == seq![piece@] + pieces(rest@.skip(i + 1), sep));
            done = done.push(piece@);
        }
        rest = slice_subrange(rest, i + 1, rest.len());
    }
}

/// The lines of `s`.
pub fn lines<'a>(s: &'a [char]) -> (r: Vec<&'a [char]>)
    ensures
        slices_hold(r@, line_seq(s@)),
{
    let mut r: Vec<&'a [char]> = Vec::new();
    let mut rest: &'a [char] = s;
    let ghost mut done: Seq<Seq<char>> = seq![];
    while rest.len() > 0
        invariant
            slices_hold(r@, done),
            line_seq(s@) == done + line_seq(rest@),
        decreases rest@.len(),
    {
        let i = find_char(rest, '\n');
        if i >= rest.len() {
            r.push(rest);
            proof {
                done = done.push(rest@);
                assert(rest@.skip(rest@.len() as int) =~= Seq::<char>::empty());
            }
            rest = slice_subrange(rest, rest.len(), rest.len());
        } else {
            let mut end = i;
            if i > 0 && rest[i - 1] == '\r' {
                end = i - 1;
            }
            let line = slice_subrange(rest, 0, end);
            r.push(line);
            proof {
                assert(line@ == without_final_cr(rest@.take(i as int)));
                assert(line_seq(rest@) == seq![line@] + line_seq(rest@.skip(i + 1)));
                done = done.push(line@);
            }
            rest = slice_subrange(rest, i + 1, rest.len());
        }
    }
    r
}

/// The strings of the characters `v`.
pub fn to_strings(v: &Vec<&[char]>) -> (r: Vec<String>)
    ensures
        r@.len() == v@.len(),
        forall|i: int| 0 <= i < v@.len() ==> (#[trigger] texts(r@)[i]) == v@[i]@,
{
    let mut r: Vec<String> = Vec::new();
    let mut i: usize = 0;
    while i < v.len()
        invariant
            i <= v@.len(),
            r@.len() == i,
            forall|j: int| 0 <= j < i ==> (#[trigger] texts(r@)[j]) == v@[j]@,
        decreases v@.len() - i,
    {
        let s = from_chars(v[i]);
        proof {
            lemma_texts_push(r@, s);
        }
        r.push(s);
        i += 1;
    }
    r
}

/// Whether `s` starts with `word`.
pub fn starts_with(s: &[char], word: &str) -> (r: bool)
    ensures
        r == word@.is_prefix_of(s@),
{
    let w = to_chars(word);
    if w.len() > s.len() {
        return false;
    }
    let mut i: usize = 0;
    while i < w.len()
        invariant
            i <= w@.len() <= s@.len(),
            w@ == word@,
            forall|j: int| 0 <= j < i ==> w@[j] == s@[j],
        decreases w@.len() - i,
    {
        if w[i] != s[i] {
            assert(s@.subrange(0, w@.len() as int)[i as int] != w@[i as int]);
            return false;
        }
        i += 1;
    }
    assert(w@ =~= s@.subrange(0, w@.len() as int));
    true
}

/// Whether `s` is `word`.
pub fn equals(s: &[char], word: &str) -> (r: bool)
    ensures
        r == (s@ == word@),
{
    let w = to_chars(word);
    let r = starts_with(s, word) && s.len() == w.len();
    proof {
        if r {
            assert(s@.subrange(0, s@.len() as int) == s@);
        } else if s@ == word@ {
            assert(s@.subrange(0, s@.len() as int) == s@);
            assert(false);
        }
    }
    r
}

/// Trimming takes the white space at both ends away, all of it and nothing else.
pub proof fn law_trim(before: Seq<char>, core: Seq<char>, after: Seq<char>)
    requires
        forall|i: int| 0 <= i < before.len() ==> is_white(#[trigger] before[i]),
        forall|i: int| 0 <= i < after.len() ==> is_white(#[trigger] after[i]),
        core.len() > 0 ==> !is_white(core[0]) && !is_white(core.last()),
    ensures
        trimmed(before + core + after) == core,
    decreases after.len(),
{
    let s = before + core + after;
    if after.len() > 0 {
        let rest = after.drop_last();
        assert(s.last() == after.last());
        assert(is_white(after[after.len() - 1]));
        assert forall|i: int| 0 <= i < rest.len() implies is_white(#[trigger] rest[i]) by {
            assert(rest[i] == after[i]);
        }
        law_trim(before, core, rest);
        lemma_trimmed_drop(s);
        assert(s.drop_last() == before + core + rest);
    } else {
        assert(s == before + core);
        lemma_trimmed_gap(before, core);
    }
}

/// A line feed, alone or behind a carriage return, ends a line and belongs to
/// none; what is left at the end is a line unless it is empty.
pub proof fn law_lines(a: Seq<char>, b: Seq<char>)
    requires
        !a.contains('\n'),
    ensures
        line_seq(Seq::<char>::empty()) == Seq::<Seq<char>>::empty(),
        a.len() > 0 ==> line_seq(a) == seq![a],
        a.len() == 0 || a.last() != '\r' ==> line_seq(a + seq!['\n'] + b) == seq![a] + line_seq(b),
        line_seq(a + seq!['\r', '\n'] + b) == seq![a] + line_seq(b),
{
    assert(forall|i: int| 0 <= i < a.len() ==> a.contains(#[trigger] a[i]));
    lemma_first_index_at(a, '\n', a.len() as int);
    if a.len() == 0 || a.last() != '\r' {
        lemma_line_seq(a, b);
        assert(a + seq!['\n'] + b == a.push('\n') + b);
    }
    let c = a.push('\r');
    let s = c.push('\n') + b;
    assert(a + seq!['\r', '\n'] + b == s);
    assert forall|j: int| 0 <= j < c.len() implies s[j] != '\n' by {
        if j < a.len() {
            assert(s[j] == a[j]);
        } else {
            assert(s[j] == '\r');
        }
    }
    lemma_first_index_at(s, '\n', c.len() as int);
    assert(s.take(c.len() as int) == c);
    assert(c.drop_last() == a);
    assert(s.skip(c.len() as int + 1) == b);
}

/// The texts of strings are theirs, one by one.
pub proof fn law_texts(v: Seq<String>)
    ensures
        texts(v).len() == v.len(),
        forall|i: int| 0 <= i < v.len() ==> #[trigger] texts(v)[i] == v[i]@,
{
}

/// What follows the last separator is the last piece.
pub proof fn law_last_piece(s: Seq<char>, sep: char, last: Seq<char>)
    requires
        !last.contains(sep),
    ensures
        pieces(last, sep) == seq![last],
        pieces(s + seq![sep] + last, sep) == pieces(s, sep).push(last),
    decreases s.len(),
{
    lemma_pieces(last, sep, last);
    lemma_first_index(s, sep);
    let i = first_index(s, sep);
    let first = s.take(i);
    assert(!first.contains(sep));
    if i < s.len() {
        let rest = s.skip(i + 1);
        assert(s =~= first.push(sep) + rest);
        assert(s + seq![sep] + last =~= first.push(sep) + (rest + seq![sep] + last));
        lemma_pieces(first, sep, rest);
        lemma_pieces(first, sep, rest + seq![sep] + last);
        law_last_piece(rest, sep, last);
        assert(seq![first] + pieces(rest, sep).push(last) =~= (seq![first] + pieces(
            rest,
            sep,
        )).push(last));
    } else {
        assert(first =~= s);
        lemma_pieces(s, sep, last);
        assert(s + seq![sep] + last =~= s.push(sep) + last);
        assert(seq![s] + seq![last] =~= seq![s].push(last));
    }
}

/// White space behind a text is trimmed from the text alone.
pub proof fn lemma_trimmed_end_add(a: Seq<char>, b: Seq<char>)
    requires
        a.len() > 0,
        !is_white(a.last()),
    ensures
        trimmed_end(a + b) == a + trimmed_end(b),
    decreases b.len(),
{
    if b.len() == 0 {
        assert(a + b == a);
        assert(a + trimmed_end(b) == a);
    } else {
        assert((a + b).last() == b.last());
        if is_white(b.last()) {
            lemma_trimmed_end_add(a, b.drop_last());
            assert((a + b).drop_last() == a + b.drop_last());
        }
    }
}

} // verus!

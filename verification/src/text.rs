//! Text primitives over `char` sequences: searching, splitting, trimming,
//! ASCII case, and string assembly. Every function states its result over
//! the `Seq<char>` view of its arguments.

use vstd::prelude::*;

verus! {

/// `String::push` appends one character to the end of the string.
pub assume_specification[ String::push ](s: &mut String, c: char)
    ensures
        final(s)@ == old(s)@.push(c),
;

/// The character sequences behind a sequence of owned strings.
pub open spec fn views(v: Seq<String>) -> Seq<Seq<char>> {
    v.map_values(|s: String| s@)
}

/// The characters of `s`, in order.
pub fn chars_of(s: &str) -> (r: Vec<char>)
    ensures
        r@ == s@,
{
    let mut out: Vec<char> = Vec::new();
    for c in it: s.chars()
        invariant
            it.seq() == s@,
            out@ == s@.take(it.index() as int),
    {
        out.push(c);
    }
    out
}

/// The string whose characters are `chars[from..to]`.
pub fn string_of(chars: &Vec<char>, from: usize, to: usize) -> (r: String)
    requires
        from <= to <= chars@.len(),
    ensures
        r@ == chars@.subrange(from as int, to as int),
{
    let mut out = String::new();
    let mut i: usize = from;
    while i < to
        invariant
            from <= i <= to <= chars@.len(),
            out@ == chars@.subrange(from as int, i as int),
        decreases to - i,
    {
        out.push(chars[i]);
        i += 1;
    }
    out
}

/// Whether two strings hold the same characters.
pub fn str_eq(a: &str, b: &str) -> (r: bool)
    ensures
        r == (a@ == b@),
{
    a.to_owned() == b.to_owned()
}

// ---- Searching and splitting -------------------------------------------

/// `s` cut at its first `c`: what stands before it and what stands after.
pub open spec fn cut_first(s: Seq<char>, c: char) -> Option<(Seq<char>, Seq<char>)> {
    match s.index_of_first(c) {
        Some(i) => Some((s.take(i), s.skip(i + 1))),
        None => None,
    }
}

/// `s` cut at its last `c`.
pub open spec fn cut_last(s: Seq<char>, c: char) -> Option<(Seq<char>, Seq<char>)> {
    match s.index_of_last(c) {
        Some(i) => Some((s.take(i), s.skip(i + 1))),
        None => None,
    }
}

/// The pieces of `s` between occurrences of `c`; one more piece than there
/// are occurrences.
pub open spec fn pieces(s: Seq<char>, c: char) -> Seq<Seq<char>>
    decreases s.len(),
{
    if s.len() == 0 {
        seq![Seq::<char>::empty()]
    } else {
        let rest = pieces(s.drop_first(), c);
        if s[0] == c {
            seq![Seq::<char>::empty()] + rest
        } else {
            seq![seq![s[0]] + rest[0]] + rest.skip(1)
        }
    }
}

/// The pieces of `s` are never empty.
pub proof fn lemma_pieces_nonempty(s: Seq<char>, c: char)
    ensures
        pieces(s, c).len() >= 1,
    decreases s.len(),
{
    if s.len() > 0 {
        lemma_pieces_nonempty(s.drop_first(), c);
    }
}

/// A run free of `c` in front of a text extends the text's first piece.
pub proof fn lemma_pieces_prefix(a: Seq<char>, b: Seq<char>, c: char)
    requires
        !a.contains(c),
    ensures
        pieces(a + b, c) == seq![a + pieces(b, c)[0]] + pieces(b, c).skip(1),
        pieces(b, c).len() >= 1,
    decreases a.len(),
{
    lemma_pieces_nonempty(b, c);
    if a.len() == 0 {
        assert(a + b == b);
        assert(a + pieces(b, c)[0] == pieces(b, c)[0]);
        assert(pieces(b, c) == seq![a + pieces(b, c)[0]] + pieces(b, c).skip(1));
    } else {
        assert((a + b).drop_first() == a.drop_first() + b);
        assert(a.contains(a[0]));
        assert forall|i: int| 0 <= i < a.drop_first().len() implies a.drop_first()[i] != c by {
            assert(a.drop_first()[i] == a[i + 1]);
            assert(a.contains(a[i + 1]));
        }
        lemma_pieces_prefix(a.drop_first(), b, c);
        let p = pieces(b, c);
        assert(seq![a[0]] + (a.drop_first() + p[0]) == a + p[0]);
        assert((seq![a.drop_first() + p[0]] + p.skip(1)).skip(1) == p.skip(1));
    }
}

/// A separator and a text free of it behind a text add one piece.
pub proof fn lemma_pieces_append(a: Seq<char>, b: Seq<char>, c: char)
    requires
        !b.contains(c),
    ensures
        pieces(a + seq![c] + b, c) == pieces(a, c).push(b),
    decreases a.len(),
{
    let s = a + seq![c] + b;
    if a.len() == 0 {
        assert(s.drop_first() =~= b);
        lemma_pieces_whole(b, c);
        assert(pieces(s, c) =~= pieces(a, c).push(b));
    } else {
        let t = a.drop_first();
        assert(s.drop_first() =~= t + seq![c] + b);
        lemma_pieces_append(t, b, c);
        lemma_pieces_nonempty(t, c);
        assert(pieces(s, c) =~= pieces(a, c).push(b));
    }
}

/// A text free of `c` is its own only piece.
pub proof fn lemma_pieces_whole(a: Seq<char>, c: char)
    requires
        !a.contains(c),
    ensures
        pieces(a, c) == seq![a],
{
    lemma_pieces_prefix(a, Seq::empty(), c);
    assert(a + Seq::<char>::empty() == a);
    assert(pieces(Seq::empty(), c).skip(1) == Seq::<Seq<char>>::empty());
}

/// The first piece ends at the first separator.
pub proof fn lemma_pieces_step(a: Seq<char>, b: Seq<char>, c: char)
    requires
        !a.contains(c),
    ensures
        pieces(a + seq![c] + b, c) == seq![a] + pieces(b, c),
{
    let t = seq![c] + b;
    assert(a + seq![c] + b == a + t);
    lemma_pieces_prefix(a, t, c);
    assert(t.drop_first() == b);
    assert(pieces(t, c) == seq![Seq::<char>::empty()] + pieces(b, c));
    assert(a + Seq::<char>::empty() == a);
    assert(pieces(t, c).skip(1) == pieces(b, c));
}

/// A text behind one that ends in a separator starts a piece of its own.
pub proof fn lemma_pieces_behind(a: Seq<char>, b: Seq<char>, c: char)
    requires
        a.len() > 0,
        a.last() == c,
    ensures
        pieces(a, c).last().len() == 0,
        pieces(a + b, c) == pieces(a, c).drop_last() + pieces(b, c),
    decreases a.len(),
{
    let t = a.drop_first();
    lemma_pieces_nonempty(t, c);
    lemma_pieces_nonempty(b, c);
    assert((a + b).drop_first() =~= t + b);
    if a.len() == 1 {
        assert(t =~= Seq::<char>::empty());
        assert(t + b =~= b);
        assert(pieces(t, c) =~= seq![Seq::<char>::empty()]);
        assert(pieces(a, c) =~= seq![Seq::<char>::empty(), Seq::<char>::empty()]);
        assert(pieces(a + b, c) =~= pieces(a, c).drop_last() + pieces(b, c));
    } else {
        lemma_pieces_behind(t, b, c);
        lemma_pieces_nonempty(a, c);
        if a[0] != c && pieces(t, c).len() == 1 {
            lemma_separated(t, c);
        }
        assert(pieces(a + b, c) =~= pieces(a, c).drop_last() + pieces(b, c));
    }
}

/// A separator makes for more than one piece.
proof fn lemma_separated(a: Seq<char>, c: char)
    requires
        a.len() > 0,
        a.last() == c,
    ensures
        pieces(a, c).len() > 1,
    decreases a.len(),
{
    let t = a.drop_first();
    lemma_pieces_nonempty(t, c);
    if a[0] != c {
        lemma_separated(t, c);
    }
}

/// Position of the first `c` in `s`.
pub fn find_char(s: &str, c: char) -> (r: Option<usize>)
    ensures
        match r {
            Some(i) => s@.index_of_first(c) == Some(i as int) && i < s@.len() && s@[i as int] == c
                && !s@.take(i as int).contains(c),
            None => !s@.contains(c) && s@.index_of_first(c) == None::<int>,
        },
{
    let cs = chars_of(s);
    let mut i: usize = 0;
    while i < cs.len()
        invariant
            i <= cs@.len(),
            cs@ == s@,
            forall|j: int| 0 <= j < i ==> s@[j] != c,
        decreases cs.len() - i,
    {
        if cs[i] == c {
            proof {
                assert(s@.contains(s@[i as int]));
                s@.index_of_first_ensures(c);
            }
            return Some(i);
        }
        i += 1;
    }
    proof {
        s@.index_of_first_ensures(c);
    }
    None
}

/// Position of the last `c` in `s`.
pub fn rfind_char(s: &str, c: char) -> (r: Option<usize>)
    ensures
        match r {
            Some(i) => s@.index_of_last(c) == Some(i as int) && i < s@.len() && s@[i as int] == c,
            None => !s@.contains(c) && s@.index_of_last(c) == None::<int>,
        },
{
    let cs = chars_of(s);
    let mut i: usize = cs.len();
    while i > 0
        invariant
            i <= cs@.len(),
            cs@ == s@,
            forall|j: int| i <= j < s@.len() ==> s@[j] != c,
        decreases i,
    {
        i -= 1;
        if cs[i] == c {
            proof {
                assert(s@.contains(s@[i as int]));
                s@.index_of_last_ensures(c);
            }
            return Some(i);
        }
    }
    proof {
        s@.index_of_last_ensures(c);
    }
    None
}

/// Whether `c` occurs in `s`.
pub fn contains_char(s: &str, c: char) -> (r: bool)
    ensures
        r == s@.contains(c),
{
    match find_char(s, c) {
        Some(i) => {
            assert(s@.contains(s@[i as int]));
            true
        },
        None => false,
    }
}

/// `s` cut at its first `c`.
pub fn split_once<'a>(s: &'a str, c: char) -> (r: Option<(&'a str, &'a str)>)
    ensures
        match r {
            Some(p) => cut_first(s@, c) == Some((p.0@, p.1@)),
            None => cut_first(s@, c) is None && !s@.contains(c),
        },
{
    match find_char(s, c) {
        Some(i) => {
            let n = s.unicode_len();
            Some((s.substring_char(0, i), s.substring_char(i + 1, n)))
        },
        None => None,
    }
}

/// `s` cut at its last `c`.
pub fn rsplit_once<'a>(s: &'a str, c: char) -> (r: Option<(&'a str, &'a str)>)
    ensures
        match r {
            Some(p) => cut_last(s@, c) == Some((p.0@, p.1@)),
            None => cut_last(s@, c) is None && !s@.contains(c),
        },
{
    match rfind_char(s, c) {
        Some(i) => {
            let n = s.unicode_len();
            Some((s.substring_char(0, i), s.substring_char(i + 1, n)))
        },
        None => None,
    }
}

/// The pieces of `s` between occurrences of `c`.
pub fn split(s: &str, c: char) -> (r: Vec<String>)
    ensures
        views(r@) == pieces(s@, c),
{
    let cs = chars_of(s);
    let mut out: Vec<String> = Vec::new();
    let mut start: usize = 0;
    let mut i: usize = 0;
    proof {
        assert(s@.skip(0) == s@);
        assert(views(out@) == Seq::<Seq<char>>::empty());
        assert(views(out@) + pieces(s@.skip(0), c) == pieces(s@, c));
    }
    while i < cs.len()
        invariant
            start <= i <= cs@.len(),
            cs@ == s@,
            forall|j: int| start <= j < i ==> s@[j] != c,
            views(out@) + pieces(s@.skip(start as int), c) == pieces(s@, c),
        decreases cs.len() - i,
    {
        if cs[i] == c {
            let piece = string_of(&cs, start, i);
            proof {
                let before = views(out@);
                let a = s@.subrange(start as int, i as int);
                let b = s@.skip(i + 1);
                assert(s@.skip(start as int) == a + seq![c] + b);
                lemma_pieces_step(a, b, c);
                assert(views(out@.push(piece)) == before.push(a));
                assert(before.push(a) + pieces(b, c) == before + (seq![a] + pieces(b, c)));
            }
            out.push(piece);
            start = i + 1;
        }
        i += 1;
    }
    let piece = string_of(&cs, start, i);
    proof {
        let before = views(out@);
        let a = s@.subrange(start as int, i as int);
        assert(s@.skip(start as int) == a);
        lemma_pieces_whole(a, c);
        assert(views(out@.push(piece)) == before.push(a));
        assert(before.push(a) == before + seq![a]);
    }
    out.push(piece);
    out
}

/// Whether `pat` occurs in `s` as a consecutive run.
pub open spec fn has_run(s: Seq<char>, pat: Seq<char>) -> bool {
    exists|i: int| #[trigger] run_at(s, pat, i)
}

/// Whether `pat` stands in `s` at position `i`.
pub open spec fn run_at(s: Seq<char>, pat: Seq<char>, i: int) -> bool {
    0 <= i && i + pat.len() <= s.len() && s.subrange(i, i + pat.len()) == pat
}

/// Whether `pat` stands in `s` at position `i`.
fn matches_at(s: &Vec<char>, pat: &Vec<char>, i: usize) -> (r: bool)
    requires
        i + pat@.len() <= s@.len(),
    ensures
        r == run_at(s@, pat@, i as int),
{
    let n: usize = s.len();
    let mut k: usize = 0;
    while k < pat.len()
        invariant
            k <= pat@.len(),
            n == s@.len(),
            i + pat@.len() <= n,
            forall|j: int| 0 <= j < k ==> s@[i + j] == pat@[j],
        decreases pat.len() - k,
    {
        if s[i + k] != pat[k] {
            assert(s@.subrange(i as int, i + pat@.len())[k as int] != pat@[k as int]);
            return false;
        }
        k += 1;
    }
    assert(s@.subrange(i as int, i + pat@.len()) == pat@);
    true
}

/// Whether `pat` occurs in `s`.
pub fn contains_str(s: &str, pat: &str) -> (r: bool)
    ensures
        r == has_run(s@, pat@),
{
    let cs = chars_of(s);
    let ps = chars_of(pat);
    if ps.len() > cs.len() {
        return false;
    }
    let last: usize = cs.len() - ps.len();
    let mut i: usize = 0;
    while i <= last
        invariant
            cs@ == s@,
            ps@ == pat@,
            ps@.len() <= cs@.len(),
            last == cs@.len() - ps@.len(),
            i <= last + 1,
            forall|j: int| 0 <= j < i ==> !run_at(s@, pat@, j),
        decreases last + 1 - i,
    {
        if matches_at(&cs, &ps, i) {
            return true;
        }
        if i == last {
            return false;
        }
        i += 1;
    }
    false
}

/// Whether `s` begins with `prefix`.
pub fn starts_with(s: &str, prefix: &str) -> (r: bool)
    ensures
        r == prefix@.is_prefix_of(s@),
{
    let cs = chars_of(s);
    let ps = chars_of(prefix);
    if ps.len() > cs.len() {
        return false;
    }
    let r = matches_at(&cs, &ps, 0);
    assert(r == (prefix@ == s@.subrange(0, prefix@.len() as int)));
    r
}

/// What is left of `s` behind `prefix`, if `s` begins with it.
pub open spec fn without_prefix(s: Seq<char>, prefix: Seq<char>) -> Option<Seq<char>> {
    if prefix.is_prefix_of(s) {
        Some(s.skip(prefix.len() as int))
    } else {
        None
    }
}

/// What is left of `s` in front of `suffix`, if `s` ends with it.
pub open spec fn without_suffix(s: Seq<char>, suffix: Seq<char>) -> Option<Seq<char>> {
    if suffix.is_suffix_of(s) {
        Some(s.take(s.len() - suffix.len()))
    } else {
        None
    }
}

/// What is left of `s` behind `prefix`, if `s` begins with it.
pub fn strip_prefix<'a>(s: &'a str, prefix: &str) -> (r: Option<&'a str>)
    ensures
        match r {
            Some(t) => without_prefix(s@, prefix@) == Some(t@),
            None => without_prefix(s@, prefix@) is None,
        },
{
    if starts_with(s, prefix) {
        let n = s.unicode_len();
        let k = prefix.unicode_len();
        Some(s.substring_char(k, n))
    } else {
        None
    }
}

/// What is left of `s` in front of `suffix`, if `s` ends with it.
pub fn strip_suffix<'a>(s: &'a str, suffix: &str) -> (r: Option<&'a str>)
    ensures
        match r {
            Some(t) => without_suffix(s@, suffix@) == Some(t@),
            None => without_suffix(s@, suffix@) is None,
        },
{
    let cs = chars_of(s);
    let ps = chars_of(suffix);
    if ps.len() > cs.len() {
        return None;
    }
    let at: usize = cs.len() - ps.len();
    if matches_at(&cs, &ps, at) {
        assert(s@.subrange(at as int, at + suffix@.len()) == s@.subrange(
            (s@.len() - suffix@.len()) as int,
            s@.len() as int,
        ));
        Some(s.substring_char(0, at))
    } else {
        assert(s@.subrange(at as int, at + suffix@.len()) == s@.subrange(
            (s@.len() - suffix@.len()) as int,
            s@.len() as int,
        ));
        None
    }
}

// ---- White space ---------------------------------------------------------

/// The characters with Unicode's `White_Space` property.
pub open spec fn is_white(c: char) -> bool {
    ||| '\u{9}' <= c <= '\u{d}'
    ||| c == ' '
    ||| c == '\u{85}'
    ||| c == '\u{a0}'
    ||| c == '\u{1680}'
    ||| '\u{2000}' <= c <= '\u{200a}'
    ||| c == '\u{2028}'
    ||| c == '\u{2029}'
    ||| c == '\u{202f}'
    ||| c == '\u{205f}'
    ||| c == '\u{3000}'
}

/// Whether `c` has the `White_Space` property.
pub fn white(c: char) -> (r: bool)
    ensures
        r == is_white(c),
{
    ('\u{9}' <= c && c <= '\u{d}') || c == ' ' || c == '\u{85}' || c == '\u{a0}' || c == '\u{1680}'
        || ('\u{2000}' <= c && c <= '\u{200a}') || c == '\u{2028}' || c == '\u{2029}' || c == '\u{202f}'
        || c == '\u{205f}' || c == '\u{3000}'
}

/// `s` without its leading white space.
pub open spec fn trimmed_start(s: Seq<char>) -> Seq<char>
    decreases s.len(),
{
    if s.len() > 0 && is_white(s[0]) {
        trimmed_start(s.drop_first())
    } else {
        s
    }
}

/// `s` without its trailing white space.
pub open spec fn trimmed_end(s: Seq<char>) -> Seq<char>
    decreases s.len(),
{
    if s.len() > 0 && is_white(s.last()) {
        trimmed_end(s.drop_last())
    } else {
        s
    }
}

/// `s` without white space at either end.
pub open spec fn trimmed(s: Seq<char>) -> Seq<char> {
    trimmed_end(trimmed_start(s))
}

/// `s` without its leading white space.
pub fn trim_start<'a>(s: &'a str) -> (r: &'a str)
    ensures
        r@ == trimmed_start(s@),
{
    let cs = chars_of(s);
    let mut i: usize = 0;
    assert(s@.skip(0) == s@);
    while i < cs.len() && white(cs[i])
        invariant
            i <= cs@.len(),
            cs@ == s@,
            trimmed_start(s@.skip(i as int)) == trimmed_start(s@),
        decreases cs.len() - i,
    {
        assert(s@.skip(i as int).drop_first() == s@.skip(i + 1));
        i += 1;
    }
    let r = s.substring_char(i, cs.len());
    assert(r@ == s@.skip(i as int));
    r
}

/// `s` without its trailing white space.
pub fn trim_end<'a>(s: &'a str) -> (r: &'a str)
    ensures
        r@ == trimmed_end(s@),
{
    let cs = chars_of(s);
    let mut n: usize = cs.len();
    assert(s@.take(n as int) == s@);
    while n > 0 && white(cs[n - 1])
        invariant
            n <= cs@.len(),
            cs@ == s@,
            trimmed_end(s@.take(n as int)) == trimmed_end(s@),
        decreases n,
    {
        assert(s@.take(n as int).drop_last() == s@.take(n - 1));
        n -= 1;
    }
    let r = s.substring_char(0, n);
    assert(r@ == s@.take(n as int));
    r
}

/// `s` without white space at either end.
pub fn trim<'a>(s: &'a str) -> (r: &'a str)
    ensures
        r@ == trimmed(s@),
{
    trim_end(trim_start(s))
}

/// Trimming leaves no more than it was given.
pub proof fn lemma_trimmed_start_len(s: Seq<char>)
    ensures
        trimmed_start(s).len() <= s.len(),
        trimmed_start(s).len() > 0 ==> !is_white(trimmed_start(s)[0]),
    decreases s.len(),
{
    if s.len() > 0 && is_white(s[0]) {
        lemma_trimmed_start_len(s.drop_first());
    }
}

/// How many characters stand in front of the first white space of `s`.
pub open spec fn word_len(s: Seq<char>) -> nat
    decreases s.len(),
{
    if s.len() == 0 || is_white(s[0]) {
        0
    } else {
        1 + word_len(s.drop_first())
    }
}

/// The leading word is a prefix, and white space follows it unless the text ends there.
pub proof fn lemma_word_len(s: Seq<char>, n: int)
    requires
        0 <= n <= s.len(),
        forall|j: int| 0 <= j < n ==> !is_white(s[j]),
        n < s.len() ==> is_white(s[n]),
    ensures
        word_len(s) == n,
    decreases s.len(),
{
    if n > 0 {
        lemma_word_len(s.drop_first(), n - 1);
    }
}

/// The leading word is no longer than the text.
pub proof fn lemma_word_len_bound(s: Seq<char>)
    ensures
        word_len(s) <= s.len(),
    decreases s.len(),
{
    if s.len() > 0 && !is_white(s[0]) {
        lemma_word_len_bound(s.drop_first());
    }
}

/// The maximal runs of `s` that are free of white space, in order.
pub open spec fn words(s: Seq<char>) -> Seq<Seq<char>>
    decreases s.len(),
{
    let t = trimmed_start(s);
    if t.len() == 0 {
        Seq::empty()
    } else {
        let n = word_len(t) as int;
        proof {
            lemma_trimmed_start_len(s);
            lemma_word_len_bound(t);
        }
        seq![t.take(n)] + words(t.skip(n))
    }
}

/// `s` cut at its first white space character.
pub open spec fn cut_white(s: Seq<char>) -> Option<(Seq<char>, Seq<char>)> {
    let n = word_len(s) as int;
    if n < s.len() {
        Some((s.take(n), s.skip(n + 1)))
    } else {
        None
    }
}

/// The length of the leading word of `s`.
fn leading_word(s: &str) -> (n: usize)
    ensures
        n as nat == word_len(s@),
        n <= s@.len(),
{
    let cs = chars_of(s);
    let mut i: usize = 0;
    while i < cs.len() && !white(cs[i])
        invariant
            i <= cs@.len(),
            cs@ == s@,
            forall|j: int| 0 <= j < i ==> !is_white(s@[j]),
        decreases cs.len() - i,
    {
        i += 1;
    }
    proof {
        lemma_word_len(s@, i as int);
    }
    i
}

/// `s` cut at its first white space character.
pub fn split_once_white<'a>(s: &'a str) -> (r: Option<(&'a str, &'a str)>)
    ensures
        match r {
            Some(p) => cut_white(s@) == Some((p.0@, p.1@)),
            None => cut_white(s@) is None,
        },
{
    let i = leading_word(s);
    let n = s.unicode_len();
    if i < n {
        Some((s.substring_char(0, i), s.substring_char(i + 1, n)))
    } else {
        None
    }
}

/// The maximal runs of `s` that are free of white space.
pub fn split_whitespace(s: &str) -> (r: Vec<String>)
    ensures
        views(r@) == words(s@),
{
    let mut out: Vec<String> = Vec::new();
    let mut rest: &str = trim_start(s);
    proof {
        assert(views(out@) == Seq::<Seq<char>>::empty());
        lemma_trimmed_start_twice(s@);
        lemma_words_trim(s@);
        assert(views(out@) + words(rest@) == words(s@));
    }
    while !rest.is_empty()
        invariant
            rest@ == trimmed_start(rest@),
            views(out@) + words(rest@) == words(s@),
        decreases rest@.len(),
    {
        let n = leading_word(rest);
        proof {
            lemma_trimmed_start_len(rest@);
        }
        let word = rest.substring_char(0, n).to_owned();
        let total = rest.unicode_len();
        let tail = rest.substring_char(n, total);
        let next = trim_start(tail);
        proof {
            let before = views(out@);
            assert(rest@.take(n as int) == word@);
            assert(rest@.skip(n as int) == tail@);
            assert(words(rest@) == seq![word@] + words(tail@));
            lemma_words_trim(tail@);
            lemma_trimmed_start_twice(tail@);
            lemma_trimmed_start_len(tail@);
            assert(views(out@.push(word)) == before.push(word@));
            assert(before.push(word@) + words(next@) == before + (seq![word@] + words(tail@)));
        }
        out.push(word);
        rest = next;
    }
    proof {
        assert(trimmed_start(rest@).len() == 0);
        assert(words(rest@) == Seq::<Seq<char>>::empty());
        assert(views(out@) + Seq::<Seq<char>>::empty() == views(out@));
    }
    out
}

/// Trimming the start twice is trimming it once.
proof fn lemma_trimmed_start_twice(s: Seq<char>)
    ensures
        trimmed_start(trimmed_start(s)) == trimmed_start(s),
    decreases s.len(),
{
    if s.len() > 0 && is_white(s[0]) {
        lemma_trimmed_start_twice(s.drop_first());
    }
}

/// Leading white space does not change the words of a text.
proof fn lemma_words_trim(s: Seq<char>)
    ensures
        words(trimmed_start(s)) == words(s),
{
    lemma_trimmed_start_twice(s);
}

/// `s` without one trailing carriage return.
pub open spec fn without_cr(s: Seq<char>) -> Seq<char> {
    if s.len() > 0 && s.last() == '\r' {
        s.drop_last()
    } else {
        s
    }
}

/// The lines of `s`: each ends at a line feed, a carriage return right
/// before that line feed is not part of the line, and an empty remainder
/// behind the last line feed is no line.
pub open spec fn lines_of(s: Seq<char>) -> Seq<Seq<char>> {
    let p = pieces(s, '\n');
    let ended = p.drop_last().map_values(|l: Seq<char>| without_cr(l));
    if p.last().len() == 0 {
        ended
    } else {
        ended.push(p.last())
    }
}

/// The lines of a text behind one that ends in a line feed follow its lines.
pub proof fn lemma_lines_behind(a: Seq<char>, b: Seq<char>)
    requires
        a.len() > 0 ==> a.last() == '\n',
    ensures
        lines_of(a + b) == lines_of(a) + lines_of(b),
{
    let p = pieces(a, '\n');
    let q = pieces(b, '\n');
    lemma_pieces_nonempty(a, '\n');
    lemma_pieces_nonempty(b, '\n');
    if a.len() == 0 {
        assert(a + b =~= b);
        assert(lines_of(a) =~= Seq::<Seq<char>>::empty());
        assert(lines_of(a) + lines_of(b) =~= lines_of(b));
    } else {
        lemma_pieces_behind(a, b, '\n');
        let both = pieces(a + b, '\n');
        assert(both.last() == q.last());
        assert(both.drop_last() =~= p.drop_last() + q.drop_last());
        assert(lines_of(a + b) =~= lines_of(a) + lines_of(b));
    }
}

/// The lines of `s`.
pub fn lines(s: &str) -> (r: Vec<String>)
    ensures
        views(r@) == lines_of(s@),
{
    let parts = split(s, '\n');
    proof {
        lemma_pieces_nonempty(s@, '\n');
        assert(views(parts@).len() == parts@.len());
    }
    let last: usize = parts.len() - 1;
    let ghost p = pieces(s@, '\n');
    let mut out: Vec<String> = Vec::new();
    let mut i: usize = 0;
    while i < last
        invariant
            last == parts@.len() - 1,
            i <= last,
            views(parts@) == p,
            views(out@) == p.take(i as int).map_values(|l: Seq<char>| without_cr(l)),
        decreases last - i,
    {
        let line: &str = parts[i].as_str();
        assert(line@ == p[i as int]);
        let n = line.unicode_len();
        let kept = if n > 0 && line.get_char(n - 1) == '\r' {
            line.substring_char(0, n - 1).to_owned()
        } else {
            line.to_owned()
        };
        proof {
            assert(kept@ == without_cr(line@));
            assert(p.take(i + 1).map_values(|l: Seq<char>| without_cr(l)) == p.take(i as int).map_values(
                |l: Seq<char>| without_cr(l),
            ).push(without_cr(p[i as int])));
            assert(views(out@.push(kept)) == views(out@).push(kept@));
        }
        out.push(kept);
        i += 1;
    }
    let tail: &str = parts[last].as_str();
    proof {
        assert(tail@ == p.last());
        assert(p.take(last as int) == p.drop_last());
    }
    if !tail.is_empty() {
        let t = tail.to_owned();
        assert(views(out@.push(t)) == views(out@).push(t@));
        out.push(t);
    }
    out
}

// ---- ASCII case ----------------------------------------------------------

/// `c` with the ASCII letters `a` to `z` mapped to `A` to `Z`.
pub open spec fn upper(c: char) -> char {
    if 'a' <= c <= 'z' {
        ((c as int) - 32) as char
    } else {
        c
    }
}

/// `c` with the ASCII letters `A` to `Z` mapped to `a` to `z`.
pub open spec fn lower(c: char) -> char {
    if 'A' <= c <= 'Z' {
        ((c as int) + 32) as char
    } else {
        c
    }
}

/// `s` in ASCII upper case.
pub open spec fn uppercased(s: Seq<char>) -> Seq<char> {
    s.map_values(|c: char| upper(c))
}

/// `s` in ASCII lower case.
pub open spec fn lowercased(s: Seq<char>) -> Seq<char> {
    s.map_values(|c: char| lower(c))
}

/// `s` in ASCII upper case.
pub fn to_ascii_uppercase(s: &str) -> (r: String)
    ensures
        r@ == uppercased(s@),
{
    let cs = chars_of(s);
    let mut out = String::new();
    let mut i: usize = 0;
    while i < cs.len()
        invariant
            i <= cs@.len(),
            cs@ == s@,
            out@ == uppercased(s@.take(i as int)),
        decreases cs.len() - i,
    {
        let c = cs[i];
        let u = if 'a' <= c && c <= 'z' {
            ((c as u8) - 32) as char
        } else {
            c
        };
        assert(s@.take(i + 1) == s@.take(i as int).push(c));
        assert(uppercased(s@.take(i + 1)) == uppercased(s@.take(i as int)).push(u));
        out.push(u);
        i += 1;
    }
    assert(s@.take(i as int) == s@);
    out
}

/// `s` in ASCII lower case.
pub fn to_ascii_lowercase(s: &str) -> (r: String)
    ensures
        r@ == lowercased(s@),
{
    let cs = chars_of(s);
    let mut out = String::new();
    let mut i: usize = 0;
    while i < cs.len()
        invariant
            i <= cs@.len(),
            cs@ == s@,
            out@ == lowercased(s@.take(i as int)),
        decreases cs.len() - i,
    {
        let c = cs[i];
        let u = if 'A' <= c && c <= 'Z' {
            ((c as u8) + 32) as char
        } else {
            c
        };
        assert(s@.take(i + 1) == s@.take(i as int).push(c));
        assert(lowercased(s@.take(i + 1)) == lowercased(s@.take(i as int)).push(u));
        out.push(u);
        i += 1;
    }
    assert(s@.take(i as int) == s@);
    out
}

// ---- Assembly --------------------------------------------------------------

/// `a` followed by `b`.
pub fn cat2(a: &str, b: &str) -> (r: String)
    ensures
        r@ == a@ + b@,
{
    let mut out = a.to_owned();
    out.append(b);
    out
}

/// The concatenation of three texts.
pub fn cat3(a: &str, b: &str, c: &str) -> (r: String)
    ensures
        r@ == a@ + b@ + c@,
{
    let mut out = cat2(a, b);
    out.append(c);
    out
}

/// The concatenation of four texts.
pub fn cat4(a: &str, b: &str, c: &str, d: &str) -> (r: String)
    ensures
        r@ == a@ + b@ + c@ + d@,
{
    let mut out = cat3(a, b, c);
    out.append(d);
    out
}

/// The concatenation of five texts.
pub fn cat5(a: &str, b: &str, c: &str, d: &str, e: &str) -> (r: String)
    ensures
        r@ == a@ + b@ + c@ + d@ + e@,
{
    let mut out = cat4(a, b, c, d);
    out.append(e);
    out
}

/// The parts of `v` with `sep` between neighbours.
pub open spec fn joined(v: Seq<Seq<char>>, sep: Seq<char>) -> Seq<char>
    decreases v.len(),
{
    if v.len() == 0 {
        Seq::empty()
    } else if v.len() == 1 {
        v[0]
    } else {
        joined(v.drop_last(), sep) + sep + v.last()
    }
}

/// The parts of `v` with `sep` between neighbours.
pub fn join(v: &Vec<String>, sep: &str) -> (r: String)
    ensures
        r@ == joined(views(v@), sep@),
{
    let mut out = String::new();
    let mut i: usize = 0;
    let ghost p = views(v@);
    while i < v.len()
        invariant
            i <= v@.len(),
            p == views(v@),
            out@ == joined(p.take(i as int), sep@),
        decreases v.len() - i,
    {
        assert(p.take(i + 1).drop_last() == p.take(i as int));
        assert(p.take(i + 1).last() == v@[i as int]@);
        if i > 0 {
            out.append(sep);
        }
        out.append(v[i].as_str());
        i += 1;
    }
    assert(p.take(i as int) == p);
    out
}

/// `s` with every `from` replaced by the text `to`.
pub open spec fn replaced(s: Seq<char>, from: char, to: Seq<char>) -> Seq<char>
    decreases s.len(),
{
    if s.len() == 0 {
        Seq::empty()
    } else if s.last() == from {
        replaced(s.drop_last(), from, to) + to
    } else {
        replaced(s.drop_last(), from, to).push(s.last())
    }
}

/// `s` with every `from` replaced by the text `to`.
pub fn replace_char(s: &str, from: char, to: &str) -> (r: String)
    ensures
        r@ == replaced(s@, from, to@),
{
    let cs = chars_of(s);
    let mut out = String::new();
    let mut i: usize = 0;
    while i < cs.len()
        invariant
            i <= cs@.len(),
            cs@ == s@,
            out@ == replaced(s@.take(i as int), from, to@),
        decreases cs.len() - i,
    {
        assert(s@.take(i + 1).drop_last() == s@.take(i as int));
        assert(s@.take(i + 1).last() == cs@[i as int]);
        if cs[i] == from {
            out.append(to);
        } else {
            out.push(cs[i]);
        }
        i += 1;
    }
    assert(s@.take(i as int) == s@);
    out
}

// ---- Laws ------------------------------------------------------------------

/// A text that neither begins nor ends with white space is trimmed already.
pub proof fn trimmed_texts_stay(s: Seq<char>)
    requires
        s.len() > 0 ==> !is_white(s[0]) && !is_white(s.last()),
    ensures
        trimmed(s) == s,
{
}

/// Trimming takes white space off both ends and nothing else: what is left
/// stood in the text as it is, only white space stood around it, and none
/// stands at its ends.
pub proof fn trimming_takes_white_space_only(s: Seq<char>)
    ensures
        exists|i: int, j: int|
            #![trigger s.subrange(i, j)]
            {
                &&& 0 <= i <= j <= s.len()
                &&& trimmed(s) == s.subrange(i, j)
                &&& forall|k: int| 0 <= k < i || j <= k < s.len() ==> is_white(#[trigger] s[k])
            },
        trimmed(s).len() > 0 ==> !is_white(trimmed(s)[0]) && !is_white(trimmed(s).last()),
{
    lemma_start_is_a_suffix(s);
    let i = s.len() - trimmed_start(s).len();
    let t = trimmed_start(s);
    lemma_end_is_a_prefix(t);
    let j = i + trimmed_end(t).len();
    lemma_trimmed_start_len(s);
    assert(trimmed(s) =~= s.subrange(i, j));
    assert forall|k: int| 0 <= k < i || j <= k < s.len() implies is_white(#[trigger] s[k]) by {
        if k >= j {
            assert(t[k - i] == s[k]);
        }
    }
}

/// What is trimmed from the start was white space.
proof fn lemma_start_is_a_suffix(s: Seq<char>)
    ensures
        trimmed_start(s).len() <= s.len(),
        trimmed_start(s) == s.skip(s.len() - trimmed_start(s).len()),
        forall|k: int| 0 <= k < s.len() - trimmed_start(s).len() ==> is_white(#[trigger] s[k]),
    decreases s.len(),
{
    if s.len() > 0 && is_white(s[0]) {
        let t = s.drop_first();
        lemma_start_is_a_suffix(t);
        assert(trimmed_start(s) =~= s.skip(s.len() - trimmed_start(s).len()));
        assert forall|k: int| 0 <= k < s.len() - trimmed_start(s).len() implies is_white(#[trigger] s[k]) by {
            if k > 0 {
                assert(t[k - 1] == s[k]);
            }
        }
    } else {
        assert(s.skip(0) =~= s);
    }
}

/// What is trimmed from the end was white space.
proof fn lemma_end_is_a_prefix(s: Seq<char>)
    ensures
        trimmed_end(s).len() <= s.len(),
        trimmed_end(s) == s.take(trimmed_end(s).len() as int),
        forall|k: int| trimmed_end(s).len() <= k < s.len() ==> is_white(#[trigger] s[k]),
        trimmed_end(s).len() > 0 ==> !is_white(trimmed_end(s).last()),
    decreases s.len(),
{
    if s.len() > 0 && is_white(s.last()) {
        let t = s.drop_last();
        lemma_end_is_a_prefix(t);
        assert(trimmed_end(s) =~= s.take(trimmed_end(s).len() as int));
        assert forall|k: int| trimmed_end(s).len() <= k < s.len() implies is_white(#[trigger] s[k]) by {
            if k < t.len() {
                assert(t[k] == s[k]);
            }
        }
    } else {
        assert(s.take(s.len() as int) =~= s);
    }
}

/// A text is cut at the first white space behind its leading word.
pub proof fn words_end_at_white_space(a: Seq<char>, c: char, b: Seq<char>)
    requires
        forall|i: int| 0 <= i < a.len() ==> !is_white(#[trigger] a[i]),
        is_white(c),
    ensures
        cut_white(a + seq![c] + b) == Some((a, b)),
{
    let s = a + seq![c] + b;
    assert forall|j: int| 0 <= j < a.len() implies !is_white(s[j]) by {
        assert(s[j] == a[j]);
    }
    lemma_word_len(s, a.len() as int);
    assert(s.take(a.len() as int) =~= a);
    assert(s.skip(a.len() as int + 1) =~= b);
}

/// A text free of white space is not cut.
pub proof fn single_words_are_not_cut(a: Seq<char>)
    requires
        forall|i: int| 0 <= i < a.len() ==> !is_white(#[trigger] a[i]),
    ensures
        cut_white(a) is None,
{
    lemma_word_len(a, a.len() as int);
}

/// Words with blanks between them are the words of what they are joined to.
pub proof fn joined_words_come_back(v: Seq<Seq<char>>)
    requires
        forall|i: int| 0 <= i < v.len() ==> (#[trigger] v[i]).len() > 0,
        forall|i: int, k: int| 0 <= i < v.len() && 0 <= k < v[i].len() ==> !is_white(#[trigger] v[i][k]),
    ensures
        words(joined(v, seq![' '])) == v,
    decreases v.len(),
{
    let s = joined(v, seq![' ']);
    if v.len() == 0 {
        assert(words(s) =~= v);
    } else {
        let a = v[0];
        let rest = v.drop_first();
        assert(!is_white(v[0][0]));
        assert forall|i: int| 0 <= i < a.len() implies !is_white(#[trigger] a[i]) by {
            assert(!is_white(v[0][i]));
        }
        if v.len() == 1 {
            lemma_word_len(a, a.len() as int);
            assert(a.take(a.len() as int) =~= a);
            assert(a.skip(a.len() as int) =~= Seq::<char>::empty());
            reveal_with_fuel(words, 2);
            assert(words(s) =~= v);
        } else {
            lemma_joined_first_part(v, seq![' ']);
            let tail = joined(rest, seq![' ']);
            assert(s == a + (seq![' '] + tail));
            assert(s[0] == a[0]);
            assert forall|j: int| 0 <= j < a.len() implies !is_white(s[j]) by {
                assert(s[j] == a[j]);
            }
            assert(s[a.len() as int] == ' ');
            lemma_word_len(s, a.len() as int);
            assert(s.take(a.len() as int) =~= a);
            assert(s.skip(a.len() as int) =~= seq![' '] + tail);
            assert((seq![' '] + tail).drop_first() =~= tail);
            assert(trimmed_start(seq![' '] + tail) == trimmed_start(tail));
            assert forall|i: int| 0 <= i < rest.len() implies (#[trigger] rest[i]).len() > 0 by {
                assert(rest[i] == v[i + 1]);
            }
            assert forall|i: int, k: int| 0 <= i < rest.len() && 0 <= k < rest[i].len() implies !is_white(
                #[trigger] rest[i][k],
            ) by {
                assert(rest[i] == v[i + 1]);
                assert(!is_white(v[i + 1][k]));
            }
            joined_words_come_back(rest);
            assert(words(seq![' '] + tail) == words(tail));
            assert(words(s) =~= seq![a] + rest);
            assert(seq![a] + rest =~= v);
        }
    }
}

/// The first of several parts stands in front of what they are joined to.
pub proof fn lemma_joined_first_part(v: Seq<Seq<char>>, sep: Seq<char>)
    requires
        v.len() >= 2,
    ensures
        joined(v, sep) == v[0] + (sep + joined(v.drop_first(), sep)),
    decreases v.len(),
{
    let tail = v.drop_first();
    if v.len() == 2 {
        assert(v.drop_last() =~= seq![v[0]]);
        assert(tail =~= seq![v[1]]);
        reveal_with_fuel(joined, 2);
        assert(joined(v, sep) =~= v[0] + (sep + v[1]));
    } else {
        lemma_joined_first_part(v.drop_last(), sep);
        assert(v.drop_last().drop_first() =~= tail.drop_last());
        assert(joined(v, sep) =~= v[0] + (sep + (joined(tail.drop_last(), sep) + sep + v.last())));
    }
}

/// Changing the case changes ASCII letters only, and a letter to its other
/// form: two texts have the same upper case exactly if they are equal but for
/// the case of ASCII letters, and so for lower case; both keep the length.
pub proof fn case_is_all_that_changes(s: Seq<char>, i: int)
    requires
        0 <= i < s.len(),
    ensures
        uppercased(s).len() == s.len(),
        lowercased(s).len() == s.len(),
        'a' <= s[i] <= 'z' ==> uppercased(s)[i] as int == s[i] as int - 32 && lowercased(s)[i] == s[i],
        'A' <= s[i] <= 'Z' ==> lowercased(s)[i] as int == s[i] as int + 32 && uppercased(s)[i] == s[i],
        !('a' <= s[i] <= 'z') && !('A' <= s[i] <= 'Z') ==> uppercased(s)[i] == s[i] && lowercased(s)[i] == s[i],
{
}

/// Texts without the separator between them are the pieces of what they are
/// joined to.
pub proof fn joined_pieces_come_back(v: Seq<Seq<char>>, c: char)
    requires
        v.len() > 0,
        forall|i: int| 0 <= i < v.len() ==> !(#[trigger] v[i]).contains(c),
    ensures
        pieces(joined(v, seq![c]), c) == v,
    decreases v.len(),
{
    if v.len() == 1 {
        lemma_pieces_whole(v[0], c);
        assert(seq![v[0]] =~= v);
    } else {
        let before = v.drop_last();
        assert forall|i: int| 0 <= i < before.len() implies !(#[trigger] before[i]).contains(c) by {
            assert(before[i] == v[i]);
        }
        joined_pieces_come_back(before, c);
        assert(v.last() == v[v.len() - 1]);
        lemma_pieces_append(joined(before, seq![c]), v.last(), c);
        assert(before.push(v.last()) =~= v);
    }
}

/// The pieces of a text, joined again, are the text.
pub proof fn pieces_make_the_text(s: Seq<char>, c: char)
    ensures
        joined(pieces(s, c), seq![c]) == s,
    decreases s.len(),
{
    if s.len() == 0 {
        assert(joined(pieces(s, c), seq![c]) =~= s);
    } else {
        let t = s.drop_first();
        let p = pieces(t, c);
        pieces_make_the_text(t, c);
        lemma_pieces_nonempty(t, c);
        let q = pieces(s, c);
        if s[0] == c {
            assert(q.drop_first() =~= p);
            lemma_joined_first_part(q, seq![c]);
            assert(joined(q, seq![c]) =~= s);
        } else if p.len() == 1 {
            assert(q =~= seq![seq![s[0]] + p[0]]);
            assert(joined(q, seq![c]) =~= s);
        } else {
            lemma_joined_first_part(p, seq![c]);
            lemma_joined_first_part(q, seq![c]);
            assert(q.drop_first() =~= p.drop_first());
            assert(joined(q, seq![c]) =~= seq![s[0]] + joined(p, seq![c]));
            assert(seq![s[0]] + t =~= s);
        }
    }
}

/// The parts of two lists, joined, stand behind one another.
pub proof fn joined_lists_follow(a: Seq<Seq<char>>, b: Seq<Seq<char>>, sep: Seq<char>)
    requires
        a.len() > 0,
        b.len() > 0,
    ensures
        joined(a + b, sep) == joined(a, sep) + sep + joined(b, sep),
    decreases b.len(),
{
    let both = a + b;
    assert(both.drop_last() =~= a + b.drop_last());
    assert(both.last() == b.last());
    if b.len() == 1 {
        assert(both.drop_last() =~= a);
        assert(joined(b, sep) == b[0]);
    } else {
        joined_lists_follow(a, b.drop_last(), sep);
        assert(joined(both, sep) =~= joined(a, sep) + sep + joined(b, sep));
    }
}

/// A text is cut at the first separator: what stood in front of it and what
/// stood behind it come back where the front has no separator.
pub proof fn texts_are_cut_in_front(a: Seq<char>, c: char, b: Seq<char>)
    requires
        !a.contains(c),
    ensures
        cut_first(a + seq![c] + b, c) == Some((a, b)),
{
    let s = a + seq![c] + b;
    s.index_of_first_ensures(c);
    assert(s[a.len() as int] == c);
    let i = s.index_of_first(c)->0;
    if i < a.len() {
        assert(a[i] == c);
    }
    assert(s.take(i) =~= a);
    assert(s.skip(i + 1) =~= b);
}

/// A text is cut at the last separator: what stood in front of it and what
/// stood behind it come back where the end has no separator.
pub proof fn texts_are_cut_behind(a: Seq<char>, c: char, b: Seq<char>)
    requires
        !b.contains(c),
    ensures
        cut_last(a + seq![c] + b, c) == Some((a, b)),
{
    let s = a + seq![c] + b;
    s.index_of_last_ensures(c);
    assert(s[a.len() as int] == c);
    let i = s.index_of_last(c)->0;
    if i > a.len() {
        assert(b[i - a.len() - 1] == c);
    }
    assert(s.take(i) =~= a);
    assert(s.skip(i + 1) =~= b);
}

/// A text without the separator is not cut.
pub proof fn whole_texts_are_not_cut(s: Seq<char>, c: char)
    requires
        !s.contains(c),
    ensures
        cut_first(s, c) is None,
        cut_last(s, c) is None,
{
    s.index_of_first_ensures(c);
    s.index_of_last_ensures(c);
}

/// What stands behind a prefix or in front of a suffix is left without it, and
/// only texts that have it are left so.
pub proof fn prefixes_and_suffixes_come_off(p: Seq<char>, r: Seq<char>, s: Seq<char>)
    ensures
        without_prefix(p + r, p) == Some(r),
        without_suffix(r + p, p) == Some(r),
        without_prefix(s, p) matches Some(x) ==> s == p + x,
        without_suffix(s, p) matches Some(x) ==> s == x + p,
{
    assert(p =~= (p + r).subrange(0, p.len() as int));
    assert((p + r).skip(p.len() as int) =~= r);
    assert(p =~= (r + p).subrange((r + p).len() - p.len(), (r + p).len() as int));
    assert((r + p).take(r.len() as int) =~= r);
    if without_prefix(s, p) is Some {
        assert(s =~= p + without_prefix(s, p)->0);
    }
    if without_suffix(s, p) is Some {
        assert(s =~= without_suffix(s, p)->0 + p);
    }
}

/// A text is found wherever it stands in another.
pub proof fn runs_are_found(a: Seq<char>, p: Seq<char>, b: Seq<char>)
    ensures
        has_run(a + p + b, p),
{
    let s = a + p + b;
    assert(run_at(s, p, a.len() as int)) by {
        assert(s.subrange(a.len() as int, (a.len() + p.len()) as int) =~= p);
    }
}

/// Replacing a character by another changes it wherever it stands, and nothing
/// else.
pub proof fn characters_are_replaced_one_for_one(s: Seq<char>, from: char, to: char)
    ensures
        replaced(s, from, seq![to]).len() == s.len(),
        forall|i: int|
            0 <= i < s.len() ==> #[trigger] replaced(s, from, seq![to])[i] == (if s[i] == from {
                to
            } else {
                s[i]
            }),
    decreases s.len(),
{
    if s.len() > 0 {
        characters_are_replaced_one_for_one(s.drop_last(), from, to);
    }
}

/// A line ends at a line feed, or at a carriage return with a line feed behind
/// it, and the last one may end without.
pub proof fn lines_end_at_line_feeds(line: Seq<char>, rest: Seq<char>)
    requires
        !line.contains('\n'),
        line.len() > 0 ==> line.last() != '\r',
    ensures
        lines_of(line + seq!['\n'] + rest) == seq![line] + lines_of(rest),
        lines_of(line + seq!['\r', '\n'] + rest) == seq![line] + lines_of(rest),
        line.len() > 0 ==> lines_of(line) == seq![line],
        lines_of(Seq::empty()).len() == 0,
{
    let none = Seq::<char>::empty();
    let p = pieces(rest, '\n');
    lemma_pieces_nonempty(rest, '\n');
    lemma_pieces_step(line, rest, '\n');
    let a = line + seq!['\n'] + rest;
    assert(pieces(a, '\n') =~= seq![line] + p);
    assert((seq![line] + p).drop_last() =~= seq![line] + p.drop_last());
    assert((seq![line] + p).last() == p.last());
    assert(lines_of(a) =~= seq![line] + lines_of(rest));
    let returned = line.push('\r');
    assert(!returned.contains('\n')) by {
        assert forall|i: int| 0 <= i < returned.len() implies returned[i] != '\n' by {
            if i < line.len() {
                assert(line.contains(line[i]));
            }
        }
    }
    lemma_pieces_step(returned, rest, '\n');
    let b = line + seq!['\r', '\n'] + rest;
    assert(b =~= returned + seq!['\n'] + rest);
    assert(pieces(b, '\n') =~= seq![returned] + p);
    assert((seq![returned] + p).drop_last() =~= seq![returned] + p.drop_last());
    assert((seq![returned] + p).last() == p.last());
    assert(returned.drop_last() =~= line);
    assert(lines_of(b) =~= seq![line] + lines_of(rest));
    lemma_pieces_whole(line, '\n');
    if line.len() > 0 {
        assert(lines_of(line) =~= seq![line]);
    }
    lemma_pieces_whole(none, '\n');
    assert(lines_of(none) =~= Seq::<Seq<char>>::empty());
}

} // verus!

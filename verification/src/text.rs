//! Text as sequences of characters: white space, splitting, decimal numbers.
//!
//! Every function here is stated over `Seq<char>`, the view of `str` and
//! `String`. Executable code works on `&[char]`, which can be indexed.

use vstd::prelude::*;
use vstd::slice::slice_subrange;

verus! {

/// The Unicode `White_Space` property.
pub open spec fn is_white(c: char) -> bool {
    let u = c as u32;
    ||| 0x09 <= u <= 0x0d
    ||| u == 0x20
    ||| u == 0x85
    ||| u == 0xa0
    ||| u == 0x1680
    ||| 0x2000 <= u <= 0x200a
    ||| u == 0x2028
    ||| u == 0x2029
    ||| u == 0x202f
    ||| u == 0x205f
    ||| u == 0x3000
}

/// Whether `c` is a white space character.
pub fn white(c: char) -> (r: bool)
    ensures
        r == is_white(c),
{
    let u: u32 = c as u32;
    (0x09 <= u && u <= 0x0d) || u == 0x20 || u == 0x85 || u == 0xa0 || u == 0x1680
        || (0x2000 <= u && u <= 0x200a) || u == 0x2028 || u == 0x2029 || u == 0x202f
        || u == 0x205f || u == 0x3000
}

/// `String::push` appends its argument to the end of the string.
pub assume_specification[ String::push ](s: &mut String, c: char)
    ensures
        final(s)@ == old(s)@.push(c),
;

/// `==` on `str` says whether the two hold the same characters.
pub assume_specification[ <str as PartialEq>::eq ](a: &str, b: &str) -> (r: bool)
    ensures
        r == (a@ == b@),
;

/// What `char::is_alphanumeric` answers outside ASCII: whether the character
/// is alphabetic or numeric by the Unicode tables.
pub uninterp spec fn unicode_alphanumeric(c: char) -> bool;

/// A letter or a digit of ASCII.
pub open spec fn is_ascii_alphanumeric(c: char) -> bool {
    ('0' <= c && c <= '9') || ('a' <= c && c <= 'z') || ('A' <= c && c <= 'Z')
}

/// A letter or a digit, in ASCII or beyond it.
pub open spec fn is_alphanumeric(c: char) -> bool {
    if (c as u32) < 128 {
        is_ascii_alphanumeric(c)
    } else {
        unicode_alphanumeric(c)
    }
}

/// `char::is_alphanumeric`: for an ASCII character, whether it is a letter or
/// a digit; for any other, what the Unicode tables say of it.
pub assume_specification[ char::is_alphanumeric ](c: char) -> (r: bool)
    ensures
        r == (if (c as u32) < 128 {
            is_ascii_alphanumeric(c)
        } else {
            unicode_alphanumeric(c)
        }),
;

/// What `str::to_lowercase` gives for text that is not all ASCII.
pub uninterp spec fn unicode_lowercase(s: Seq<char>) -> Seq<char>;

/// All characters are ASCII.
pub open spec fn all_ascii(s: Seq<char>) -> bool {
    forall|i: int| 0 <= i < s.len() ==> (#[trigger] s[i] as u32) < 128
}

/// The lower case of an ASCII character.
pub open spec fn ascii_lower(c: char) -> char {
    if 'A' <= c && c <= 'Z' {
        ((c as u32) + 32) as char
    } else {
        c
    }
}

/// The lower case of `s`: letter by letter in ASCII text, by the Unicode
/// tables in any other.
pub open spec fn lowercase(s: Seq<char>) -> Seq<char> {
    if all_ascii(s) {
        s.map_values(|c: char| ascii_lower(c))
    } else {
        unicode_lowercase(s)
    }
}

/// `str::to_lowercase`: in ASCII text `A` to `Z` become `a` to `z` and nothing
/// else changes; the result for other text is named, not described.
pub assume_specification[ str::to_lowercase ](s: &str) -> (r: String)
    ensures
        r@ == (if all_ascii(s@) {
            s@.map_values(|c: char| ascii_lower(c))
        } else {
            unicode_lowercase(s@)
        }),
;

/// The characters of `s`.
pub fn chars_of(s: &str) -> (v: Vec<char>)
    ensures
        v@ == s@,
{
    let mut v: Vec<char> = Vec::new();
    for c in it: s.chars()
        invariant
            v@ == it.seq().take(it.index() as int),
            it.seq() == s@,
    {
        v.push(c);
    }
    v
}

/// The string made of `cs`.
pub fn string_of(cs: &[char]) -> (s: String)
    ensures
        s@ == cs@,
{
    let mut s = String::new();
    for i in 0..cs.len()
        invariant
            s@ == cs@.take(i as int),
    {
        s.push(cs[i]);
        assert(cs@.take(i + 1) == cs@.take(i as int).push(cs@[i as int]));
    }
    assert(cs@.take(cs@.len() as int) == cs@);
    s
}

/// `a` without its leading white space.
pub open spec fn trim_start(s: Seq<char>) -> Seq<char>
    decreases s.len(),
{
    if s.len() > 0 && is_white(s[0]) {
        trim_start(s.drop_first())
    } else {
        s
    }
}

/// `s` without its trailing white space.
pub open spec fn trim_end(s: Seq<char>) -> Seq<char>
    decreases s.len(),
{
    if s.len() > 0 && is_white(s.last()) {
        trim_end(s.drop_last())
    } else {
        s
    }
}

/// `s` without the white space at either end.
pub open spec fn trim(s: Seq<char>) -> Seq<char> {
    trim_end(trim_start(s))
}

/// `s` without the characters `c` at its end.
pub open spec fn trim_end_char(s: Seq<char>, c: char) -> Seq<char>
    decreases s.len(),
{
    if s.len() > 0 && s.last() == c {
        trim_end_char(s.drop_last(), c)
    } else {
        s
    }
}

/// Drops the leading white space.
pub fn trimmed_start<'a>(cs: &'a [char]) -> (r: &'a [char])
    ensures
        r@ == trim_start(cs@),
{
    let mut i: usize = 0;
    assert(cs@.skip(0) == cs@);
    while i < cs.len() && white(cs[i])
        invariant
            i <= cs.len(),
            trim_start(cs@) == trim_start(cs@.skip(i as int)),
        decreases cs.len() - i,
    {
        assert(cs@.skip(i as int).drop_first() == cs@.skip(i + 1));
        i = i + 1;
    }
    let r = slice_subrange(cs, i, cs.len());
    assert(r@ == cs@.skip(i as int));
    r
}

/// Drops the trailing white space.
pub fn trimmed_end<'a>(cs: &'a [char]) -> (r: &'a [char])
    ensures
        r@ == trim_end(cs@),
{
    let mut n: usize = cs.len();
    assert(cs@.take(n as int) == cs@);
    while n > 0 && white(cs[n - 1])
        invariant
            n <= cs.len(),
            trim_end(cs@) == trim_end(cs@.take(n as int)),
        decreases n,
    {
        assert(cs@.take(n as int).drop_last() == cs@.take(n - 1));
        n = n - 1;
    }
    let r = slice_subrange(cs, 0, n);
    assert(r@ == cs@.take(n as int));
    r
}

/// Drops the white space at both ends.
pub fn trimmed<'a>(cs: &'a [char]) -> (r: &'a [char])
    ensures
        r@ == trim(cs@),
{
    trimmed_end(trimmed_start(cs))
}

/// Drops every `c` at the end.
pub fn trimmed_end_char<'a>(cs: &'a [char], c: char) -> (r: &'a [char])
    ensures
        r@ == trim_end_char(cs@, c),
{
    let mut n: usize = cs.len();
    assert(cs@.take(n as int) == cs@);
    while n > 0 && cs[n - 1] == c
        invariant
            n <= cs.len(),
            trim_end_char(cs@, c) == trim_end_char(cs@.take(n as int), c),
        decreases n,
    {
        assert(cs@.take(n as int).drop_last() == cs@.take(n - 1));
        n = n - 1;
    }
    let r = slice_subrange(cs, 0, n);
    assert(r@ == cs@.take(n as int));
    r
}

/// The text holds nothing but white space.
pub open spec fn is_blank(s: Seq<char>) -> bool {
    forall|i: int| 0 <= i < s.len() ==> is_white(#[trigger] s[i])
}

/// A text is blank exactly when trimming leaves nothing of it.
pub proof fn lemma_blank_iff_trim_empty(s: Seq<char>)
    ensures
        is_blank(s) <==> trim(s).len() == 0,
    decreases s.len(),
{
    if s.len() > 0 {
        if is_white(s[0]) {
            lemma_blank_iff_trim_empty(s.drop_first());
            if is_blank(s.drop_first()) {
                assert forall|i: int| 0 <= i < s.len() implies is_white(#[trigger] s[i]) by {
                    if i > 0 {
                        assert(s[i] == s.drop_first()[i - 1]);
                    }
                }
            }
        } else {
            lemma_trim_end_keeps_head(s);
        }
    }
}

proof fn lemma_trim_end_keeps_head(s: Seq<char>)
    requires
        s.len() > 0,
        !is_white(s[0]),
    ensures
        trim_end(s).len() > 0,
    decreases s.len(),
{
    if is_white(s.last()) {
        lemma_trim_end_keeps_head(s.drop_last());
    }
}

/// Whether `cs` is blank.
pub fn blank(cs: &[char]) -> (r: bool)
    ensures
        r == is_blank(cs@),
{
    for i in 0..cs.len()
        invariant
            is_blank(cs@.take(i as int)),
    {
        if !white(cs[i]) {
            return false;
        }
        assert(cs@.take(i + 1) == cs@.take(i as int).push(cs@[i as int]));
    }
    assert(cs@.take(cs@.len() as int) == cs@);
    true
}

/// Whether `s` is blank.
pub fn blank_str(s: &str) -> (r: bool)
    ensures
        r == is_blank(s@),
{
    blank(chars_of(s).as_slice())
}

/// What separates one piece of a text from the next.
#[derive(Clone, Copy)]
pub enum Sep {
    /// This character.
    Char(char),
    /// Any white space.
    White,
}

/// Whether `c` separates.
pub open spec fn is_sep(sep: Sep, c: char) -> bool {
    match sep {
        Sep::Char(x) => c == x,
        Sep::White => is_white(c),
    }
}

/// The pieces of `s` between separators: one more than there are separators,
/// and empty where two separators touch or one stands at an end.
pub open spec fn pieces(s: Seq<char>, sep: Sep) -> Seq<Seq<char>>
    decreases s.len(),
{
    if s.len() == 0 {
        seq![Seq::<char>::empty()]
    } else {
        let before = pieces(s.drop_last(), sep);
        if is_sep(sep, s.last()) {
            before.push(Seq::<char>::empty())
        } else {
            before.drop_last().push(before.last().push(s.last()))
        }
    }
}

/// The pieces of `s` between the characters `c`.
pub open spec fn split(s: Seq<char>, c: char) -> Seq<Seq<char>> {
    pieces(s, Sep::Char(c))
}

/// The words of `s`: its pieces between white space, without the empty ones.
pub open spec fn words(s: Seq<char>) -> Seq<Seq<char>> {
    pieces(s, Sep::White).filter(|p: Seq<char>| p.len() > 0)
}

/// There is one piece at least.
pub proof fn lemma_pieces_nonempty(s: Seq<char>, sep: Sep)
    ensures
        pieces(s, sep).len() >= 1,
    decreases s.len(),
{
    if s.len() > 0 {
        lemma_pieces_nonempty(s.drop_last(), sep);
    }
}

/// The pieces of two texts with a separator between them.
pub proof fn lemma_pieces_concat(a: Seq<char>, c: char, b: Seq<char>, sep: Sep)
    requires
        is_sep(sep, c),
    ensures
        pieces(a.push(c) + b, sep) == pieces(a, sep) + pieces(b, sep),
    decreases b.len(),
{
    let s = a.push(c) + b;
    if b.len() == 0 {
        assert(s == a.push(c));
        assert(s.drop_last() == a);
        assert(pieces(b, sep) == seq![Seq::<char>::empty()]);
    } else {
        lemma_pieces_concat(a, c, b.drop_last(), sep);
        assert(s.drop_last() == a.push(c) + b.drop_last());
        assert(s.last() == b.last());
        lemma_pieces_nonempty(b.drop_last(), sep);
    }
}

/// `s` holds no separator.
pub open spec fn unbroken(s: Seq<char>, sep: Sep) -> bool {
    forall|i: int| 0 <= i < s.len() ==> !is_sep(sep, #[trigger] s[i])
}

/// A text without a separator is its only piece.
pub proof fn lemma_pieces_unbroken(s: Seq<char>, sep: Sep)
    requires
        unbroken(s, sep),
    ensures
        pieces(s, sep) == seq![s],
    decreases s.len(),
{
    if s.len() > 0 {
        lemma_pieces_unbroken(s.drop_last(), sep);
        assert(s.drop_last().push(s.last()) == s);
        assert(!is_sep(sep, s[s.len() - 1]));
    } else {
        assert(s == Seq::<char>::empty());
    }
}

/// No piece holds a separator.
pub proof fn lemma_pieces_are_unbroken(s: Seq<char>, sep: Sep)
    ensures
        forall|k: int| 0 <= k < pieces(s, sep).len() ==> unbroken(#[trigger] pieces(s, sep)[k], sep),
    decreases s.len(),
{
    if s.len() > 0 {
        lemma_pieces_are_unbroken(s.drop_last(), sep);
        lemma_pieces_nonempty(s.drop_last(), sep);
        let before = pieces(s.drop_last(), sep);
        assert(unbroken(before[before.len() - 1], sep));
    }
}

/// The words of two texts with white space between them.
pub proof fn lemma_words_concat(a: Seq<char>, c: char, b: Seq<char>)
    requires
        is_white(c),
    ensures
        words(a.push(c) + b) == words(a) + words(b),
{
    lemma_pieces_concat(a, c, b, Sep::White);
    Seq::filter_distributes_over_add(
        pieces(a, Sep::White),
        pieces(b, Sep::White),
        |p: Seq<char>| p.len() > 0,
    );
}

/// A text without white space is its only word, or has none.
pub proof fn lemma_words_unbroken(s: Seq<char>)
    requires
        unbroken(s, Sep::White),
    ensures
        words(s) == (if s.len() > 0 {
            seq![s]
        } else {
            Seq::<Seq<char>>::empty()
        }),
{
    lemma_pieces_unbroken(s, Sep::White);
    reveal(Seq::filter);
    let all = seq![s];
    assert(all.drop_last() == Seq::<Seq<char>>::empty());
    assert(all.drop_last().filter(|p: Seq<char>| p.len() > 0) == Seq::<Seq<char>>::empty());
}

/// A word is not empty and holds no white space.
pub proof fn lemma_words_nonempty(s: Seq<char>)
    ensures
        forall|k: int|
            0 <= k < words(s).len() ==> (#[trigger] words(s)[k]).len() > 0 && unbroken(
                words(s)[k],
                Sep::White,
            ),
{
    lemma_pieces_are_unbroken(s, Sep::White);
    let keep = |p: Seq<char>| p.len() > 0;
    let all = pieces(s, Sep::White);
    assert forall|k: int| 0 <= k < words(s).len() implies (#[trigger] words(s)[k]).len() > 0
        && unbroken(words(s)[k], Sep::White) by {
        all.lemma_filter_pred(keep, k);
        assert(words(s).contains(words(s)[k]));
        all.lemma_filter_contains_rev(keep, words(s)[k]);
    }
}

/// The texts of `parts` one after the other, with `sep` between each two.
pub open spec fn join(parts: Seq<Seq<char>>, sep: Seq<char>) -> Seq<char>
    decreases parts.len(),
{
    if parts.len() == 0 {
        Seq::empty()
    } else if parts.len() == 1 {
        parts[0]
    } else {
        join(parts.drop_last(), sep) + sep + parts.last()
    }
}

/// Joining with a separating character and splitting there gives the parts
/// back.
pub proof fn lemma_split_join(parts: Seq<Seq<char>>, c: char)
    requires
        parts.len() > 0,
        forall|k: int| 0 <= k < parts.len() ==> unbroken(#[trigger] parts[k], Sep::Char(c)),
    ensures
        split(join(parts, seq![c]), c) == parts,
    decreases parts.len(),
{
    if parts.len() == 1 {
        lemma_pieces_unbroken(parts[0], Sep::Char(c));
    } else {
        let init = parts.drop_last();
        assert forall|k: int| 0 <= k < init.len() implies unbroken(
            #[trigger] init[k],
            Sep::Char(c),
        ) by {
            assert(init[k] == parts[k]);
        }
        lemma_split_join(init, c);
        lemma_pieces_concat(join(init, seq![c]), c, parts.last(), Sep::Char(c));
        lemma_pieces_unbroken(parts[parts.len() - 1], Sep::Char(c));
        assert(join(init, seq![c]) + seq![c] + parts.last() == join(init, seq![c]).push(c)
            + parts.last());
        assert(init.push(parts.last()) == parts);
    }
}

/// Splitting at a character and joining with it gives the text back.
pub proof fn lemma_join_split(s: Seq<char>, c: char)
    ensures
        join(split(s, c), seq![c]) == s,
    decreases s.len(),
{
    if s.len() > 0 {
        let before = split(s.drop_last(), c);
        lemma_join_split(s.drop_last(), c);
        lemma_pieces_nonempty(s.drop_last(), Sep::Char(c));
        if s.last() == c {
            let p = before.push(Seq::<char>::empty());
            assert(p.drop_last() == before);
            assert(join(before, seq![c]) + seq![c] + Seq::<char>::empty() == s);
        } else {
            let p = before.drop_last().push(before.last().push(s.last()));
            assert(p.drop_last() == before.drop_last());
            if before.len() > 1 {
                assert(join(before.drop_last(), seq![c]) + seq![c] + before.last().push(s.last())
                    == (join(before.drop_last(), seq![c]) + seq![c] + before.last()).push(
                    s.last(),
                ));
            }
            assert(s.drop_last().push(s.last()) == s);
        }
    }
}

/// Joining two lists of parts, the first of which is not empty.
pub proof fn lemma_join_parts(a: Seq<Seq<char>>, b: Seq<Seq<char>>, c: char)
    requires
        a.len() > 0,
        b.len() > 0,
    ensures
        join(a + b, seq![c]) == join(a, seq![c]).push(c) + join(b, seq![c]),
    decreases b.len(),
{
    assert((a + b).drop_last() == a + b.drop_last());
    if b.len() == 1 {
        assert(a + b.drop_last() == a);
        assert(join(a, seq![c]) + seq![c] + b[0] == join(a, seq![c]).push(c) + b[0]);
    } else {
        lemma_join_parts(a, b.drop_last(), c);
        assert(join(a, seq![c]).push(c) + join(b.drop_last(), seq![c]) + seq![c] + b.last()
            == join(a, seq![c]).push(c) + (join(b.drop_last(), seq![c]) + seq![c] + b.last()));
    }
}

/// The first pieces of a text, joined, are what it begins with; where there are
/// more pieces, the separator follows.
pub proof fn lemma_first_pieces(s: Seq<char>, c: char, k: int)
    requires
        0 < k < split(s, c).len(),
    ensures
        ({
            let head = join(split(s, c).take(k), seq![c]).push(c);
            head.len() <= s.len() && s.take(head.len() as int) == head
        }),
{
    let p = split(s, c);
    lemma_join_split(s, c);
    lemma_join_parts(p.take(k), p.skip(k), c);
    assert(p.take(k) + p.skip(k) == p);
    let head = join(p.take(k), seq![c]).push(c);
    assert(s == head + join(p.skip(k), seq![c]));
    assert(s.take(head.len() as int) == head);
}

/// Where piece `k` begins in a text with these pieces.
pub open spec fn piece_start(p: Seq<Seq<char>>, k: int) -> int
    decreases k,
{
    if k <= 0 {
        0
    } else {
        piece_start(p, k - 1) + p[k - 1].len() + 1
    }
}

/// Where a piece begins depends on the pieces before it.
proof fn lemma_piece_start_alike(p: Seq<Seq<char>>, q: Seq<Seq<char>>, k: int)
    requires
        0 <= k <= p.len(),
        k <= q.len(),
        p.take(k) == q.take(k),
    ensures
        piece_start(p, k) == piece_start(q, k),
    decreases k,
{
    if k > 0 {
        assert(p.take(k - 1) == p.take(k).take(k - 1));
        assert(q.take(k - 1) == q.take(k).take(k - 1));
        assert(p[k - 1] == p.take(k)[k - 1]);
        assert(q[k - 1] == q.take(k)[k - 1]);
        lemma_piece_start_alike(p, q, k - 1);
    }
}

/// A further piece would begin behind the joined ones and a separator.
proof fn lemma_joined_len(p: Seq<Seq<char>>, c: char)
    requires
        p.len() > 0,
    ensures
        join(p, seq![c]).len() + 1 == piece_start(p, p.len() as int),
    decreases p.len(),
{
    if p.len() == 1 {
        assert(piece_start(p, 0) == 0);
    } else {
        lemma_joined_len(p.drop_last(), c);
        assert(p.drop_last().take(p.len() - 1) == p.take(p.len() - 1));
        lemma_piece_start_alike(p, p.drop_last(), p.len() - 1);
    }
}

/// Another piece in the place of one changes the joined text there and nowhere
/// else; a separator stands behind every piece but the last.
pub proof fn lemma_join_update(p: Seq<Seq<char>>, n: int, x: Seq<char>, c: char)
    requires
        0 <= n < p.len(),
    ensures
        ({
            let s = join(p, seq![c]);
            let start = piece_start(p, n);
            let end = start + p[n].len();
            &&& 0 <= start <= end <= s.len()
            &&& s.subrange(start, end) == p[n]
            &&& join(p.update(n, x), seq![c]) == s.take(start) + x + s.skip(end)
            &&& n < p.len() - 1 ==> end < s.len() && s[end] == c
            &&& n == p.len() - 1 ==> end == s.len()
        }),
    decreases p.len(),
{
    let s = join(p, seq![c]);
    let start = piece_start(p, n);
    let end = start + p[n].len();
    let q = p.update(n, x);
    if p.len() == 1 {
        assert(piece_start(p, 0) == 0);
        assert(s.subrange(start, end) == p[n]);
        assert(s.take(start) + x + s.skip(end) == x);
    } else {
        let init = p.drop_last();
        let head = join(init, seq![c]);
        lemma_joined_len(init, c);
        assert(init.take(n) == p.take(n)) by {
            if n == init.len() {
                assert(init.take(n) == init);
            }
        }
        lemma_piece_start_alike(p, init, n);
        if n == p.len() - 1 {
            assert(q.drop_last() == init);
            assert(s.take(start) == head + seq![c]);
            assert(s.subrange(start, end) == p[n]);
            assert(s.take(start) + x + s.skip(end) == head + seq![c] + x);
        } else {
            lemma_join_update(init, n, x, c);
            assert(q.drop_last() == init.update(n, x));
            assert(q.last() == p.last());
            assert(s.subrange(start, end) == head.subrange(start, end));
            assert(s.take(start) == head.take(start));
            assert(s.skip(end) == head.skip(end) + seq![c] + p.last());
            assert(head.take(start) + x + head.skip(end) + seq![c] + p.last() == s.take(start) + x
                + s.skip(end));
            if end < head.len() {
                assert(s[end] == head[end]);
            }
        }
    }
}

fn separates(sep: Sep, c: char) -> (r: bool)
    ensures
        r == is_sep(sep, c),
{
    match sep {
        Sep::Char(x) => c == x,
        Sep::White => white(c),
    }
}

/// Cuts `cs` at its separators. Each piece is returned as the pair of
/// positions between which it stands.
pub fn cut(cs: &[char], sep: Sep) -> (v: Vec<(usize, usize)>)
    ensures
        v@.len() == pieces(cs@, sep).len(),
        v@.len() >= 1,
        forall|k: int|
            0 <= k < v@.len() ==> {
                &&& (#[trigger] v@[k]).0 <= v@[k].1 <= cs@.len()
                &&& cs@.subrange(v@[k].0 as int, v@[k].1 as int) == pieces(cs@, sep)[k]
                &&& v@[k].0 == piece_start(pieces(cs@, sep), k)
            },
{
    let mut v: Vec<(usize, usize)> = Vec::new();
    let mut start: usize = 0;
    assert(cs@.take(0) == Seq::<char>::empty());
    for i in 0..cs.len()
        invariant
            start <= i,
            v@.len() + 1 == pieces(cs@.take(i as int), sep).len(),
            forall|k: int|
                0 <= k < v@.len() ==> {
                    &&& (#[trigger] v@[k]).0 <= v@[k].1 <= cs@.len()
                    &&& cs@.subrange(v@[k].0 as int, v@[k].1 as int) == pieces(
                        cs@.take(i as int),
                        sep,
                    )[k]
                },
            cs@.subrange(start as int, i as int) == pieces(cs@.take(i as int), sep).last(),
            forall|k: int|
                0 <= k < v@.len() ==> (#[trigger] v@[k]).0 == piece_start(
                    pieces(cs@.take(i as int), sep),
                    k,
                ),
            start == piece_start(pieces(cs@.take(i as int), sep), v@.len() as int),
    {
        let ghost before = pieces(cs@.take(i as int), sep);
        let ghost after = pieces(cs@.take(i + 1), sep);
        assert(cs@.take(i + 1).drop_last() == cs@.take(i as int));
        assert(cs@.take(i + 1).last() == cs@[i as int]);
        assert(cs@.subrange(start as int, i + 1) == cs@.subrange(start as int, i as int).push(
            cs@[i as int],
        ));
        proof {
            assert forall|k: int| 0 <= k <= v@.len() implies #[trigger] piece_start(before, k)
                == piece_start(after, k) by {
                assert(before.take(k) == after.take(k));
                lemma_piece_start_alike(before, after, k);
            }
        }
        if separates(sep, cs[i]) {
            v.push((start, i));
            start = i + 1;
        }
    }
    assert(cs@.take(cs@.len() as int) == cs@);
    v.push((start, cs.len()));
    v
}

/// The first three words of `cs`, where it has that many.
pub fn first_three_words<'a>(cs: &'a [char]) -> (r: Option<
    (&'a [char], &'a [char], &'a [char]),
>)
    ensures
        r is Some <==> words(cs@).len() >= 3,
        r matches Some((a, b, c)) ==> {
            &&& a@ == words(cs@)[0]
            &&& b@ == words(cs@)[1]
            &&& c@ == words(cs@)[2]
        },
{
    let spans = cut(cs, Sep::White);
    let ghost all = pieces(cs@, Sep::White);
    let ghost keep = |p: Seq<char>| p.len() > 0;
    let mut found: Vec<(usize, usize)> = Vec::new();
    assert(all.take(0).filter(keep) == Seq::<Seq<char>>::empty()) by {
        reveal(Seq::filter);
    }
    for i in 0..spans.len()
        invariant
            keep == (|p: Seq<char>| p.len() > 0),
            all == pieces(cs@, Sep::White),
            spans@.len() == all.len(),
            forall|k: int|
                0 <= k < spans@.len() ==> {
                    &&& (#[trigger] spans@[k]).0 <= spans@[k].1 <= cs@.len()
                    &&& cs@.subrange(spans@[k].0 as int, spans@[k].1 as int) == all[k]
                },
            found@.len() == all.take(i as int).filter(keep).len(),
            forall|k: int|
                0 <= k < found@.len() ==> {
                    &&& (#[trigger] found@[k]).0 <= found@[k].1 <= cs@.len()
                    &&& cs@.subrange(found@[k].0 as int, found@[k].1 as int) == all.take(
                        i as int,
                    ).filter(keep)[k]
                },
    {
        assert(all.take(i + 1).drop_last() == all.take(i as int));
        assert(all.take(i + 1).last() == all[i as int]);
        assert(all.take(i + 1).filter(keep) == if keep(all[i as int]) {
            all.take(i as int).filter(keep).push(all[i as int])
        } else {
            all.take(i as int).filter(keep)
        }) by {
            reveal(Seq::filter);
        }
        if spans[i].0 < spans[i].1 {
            found.push(spans[i]);
        }
    }
    assert(all.take(all.len() as int) == all);
    if found.len() >= 3 {
        Some(
            (
                slice_subrange(cs, found[0].0, found[0].1),
                slice_subrange(cs, found[1].0, found[1].1),
                slice_subrange(cs, found[2].0, found[2].1),
            ),
        )
    } else {
        None
    }
}

/// A line without the carriage return that belongs to its line end.
pub open spec fn strip_cr(s: Seq<char>) -> Seq<char> {
    if s.len() > 0 && s.last() == '\r' {
        s.drop_last()
    } else {
        s
    }
}

/// How many lines `s` holds: its pieces between line feeds, but for an empty
/// last one.
pub open spec fn line_count(s: Seq<char>) -> nat {
    let p = split(s, '\n');
    if p.last().len() == 0 {
        (p.len() - 1) as nat
    } else {
        p.len()
    }
}

/// The lines of `s`. A line ends in a line feed or in a carriage return and a
/// line feed; the end of the last line may be missing.
pub open spec fn lines(s: Seq<char>) -> Seq<Seq<char>> {
    let p = split(s, '\n');
    Seq::new(
        line_count(s),
        |i: int|
            if i < p.len() - 1 {
                strip_cr(p[i])
            } else {
                p[i]
            },
    )
}

/// The lines of `s`, as strings.
pub fn lines_of(s: &str) -> (v: Vec<String>)
    ensures
        crate::seqs::views(v@) == lines(s@),
{
    let cs = chars_of(s);
    let spans = cut(cs.as_slice(), Sep::Char('\n'));
    let ghost p = split(s@, '\n');
    let last: usize = spans.len() - 1;
    assert(spans@[last as int].0 <= spans@[last as int].1);
    let n: usize = if spans[last].0 == spans[last].1 {
        last
    } else {
        last + 1
    };
    let mut v: Vec<String> = Vec::new();
    for i in 0..n
        invariant
            cs@ == s@,
            p == split(s@, '\n'),
            last == spans@.len() - 1,
            n <= spans@.len(),
            spans@.len() == p.len(),
            n == line_count(s@),
            forall|k: int|
                0 <= k < spans@.len() ==> {
                    &&& (#[trigger] spans@[k]).0 <= spans@[k].1 <= cs@.len()
                    &&& cs@.subrange(spans@[k].0 as int, spans@[k].1 as int) == p[k]
                },
            crate::seqs::views(v@) == lines(s@).take(i as int),
    {
        let start: usize = spans[i].0;
        let mut end: usize = spans[i].1;
        let ghost whole = p[i as int];
        if i < last && start < end && cs[end - 1] == '\r' {
            end = end - 1;
            assert(cs@.subrange(start as int, end as int) == whole.drop_last());
        }
        let line = string_of(slice_subrange(cs.as_slice(), start, end));
        proof {
            crate::seqs::lemma_views_push(v@, line);
        }
        v.push(line);
        assert(crate::seqs::views(v@) == lines(s@).take(i + 1));
    }
    assert(lines(s@).take(n as int) == lines(s@));
    v
}

/// Whether `s` starts with `p`.
pub open spec fn starts_with(s: Seq<char>, p: Seq<char>) -> bool {
    p.len() <= s.len() && s.take(p.len() as int) == p
}

/// Whether `p` stands in `s` at position `i`.
pub open spec fn stands_at(s: Seq<char>, p: Seq<char>, i: int) -> bool {
    0 <= i && i + p.len() <= s.len() && s.subrange(i, i + p.len()) == p
}

/// `p` stands somewhere in `s`.
pub open spec fn occurs(s: Seq<char>, p: Seq<char>) -> bool {
    exists|i: int| #[trigger] stands_at(s, p, i)
}

/// The first position from `from` on at which `p` stands in `s`.
pub open spec fn find_from(s: Seq<char>, p: Seq<char>, from: int) -> Option<int>
    decreases s.len() + 1 - from,
{
    if from < 0 || from + p.len() > s.len() {
        None
    } else if stands_at(s, p, from) {
        Some(from)
    } else {
        find_from(s, p, from + 1)
    }
}

/// The first position at which `p` stands in `s`.
pub open spec fn find(s: Seq<char>, p: Seq<char>) -> Option<int> {
    find_from(s, p, 0)
}

/// Whether `p` stands in `cs` at position `i`.
pub fn at(cs: &[char], p: &[char], i: usize) -> (r: bool)
    ensures
        r == stands_at(cs@, p@, i as int),
{
    if p.len() > cs.len() || i > cs.len() - p.len() {
        return false;
    }
    for k in 0..p.len()
        invariant
            i + p@.len() <= cs@.len(),
            cs@.len() == cs.len(),
            p@.len() == p.len(),
            forall|j: int| 0 <= j < k ==> cs@[i + j] == p@[j],
    {
        if cs[i + k] != p[k] {
            assert(cs@.subrange(i as int, i + p@.len())[k as int] != p@[k as int]);
            return false;
        }
    }
    assert(cs@.subrange(i as int, i + p@.len()) == p@);
    true
}

/// Whether `cs` starts with `p`.
pub fn has_prefix(cs: &[char], p: &str) -> (r: bool)
    ensures
        r == starts_with(cs@, p@),
{
    let pat = chars_of(p);
    let r = at(cs, pat.as_slice(), 0);
    assert(p@.len() <= cs@.len() ==> cs@.take(p@.len() as int) == cs@.subrange(
        0,
        p@.len() as int,
    ));
    r
}

/// The first position at which `p` stands in `cs`.
pub fn find_in(cs: &[char], p: &[char]) -> (r: Option<usize>)
    ensures
        r is Some <==> find(cs@, p@) is Some,
        r matches Some(i) ==> find(cs@, p@) == Some(i as int),
{
    if p.len() > cs.len() {
        return None;
    }
    let end: usize = cs.len() - p.len();
    let mut i: usize = 0;
    loop
        invariant
            p@.len() <= cs@.len(),
            end == cs@.len() - p@.len(),
            i <= end,
            find(cs@, p@) == find_from(cs@, p@, i as int),
        decreases end - i,
    {
        if at(cs, p, i) {
            return Some(i);
        }
        if i == end {
            assert(find_from(cs@, p@, i + 1) is None);
            return None;
        }
        i = i + 1;
    }
}

/// A found position is one where the text stands, and no earlier one is.
pub proof fn lemma_find_from(s: Seq<char>, p: Seq<char>, from: int)
    requires
        0 <= from,
    ensures
        match find_from(s, p, from) {
            Some(i) => from <= i && stands_at(s, p, i) && forall|j: int|
                from <= j < i ==> !stands_at(s, p, j),
            None => forall|j: int| from <= j ==> !stands_at(s, p, j),
        },
    decreases s.len() + 1 - from,
{
    if from + p.len() <= s.len() && !stands_at(s, p, from) {
        lemma_find_from(s, p, from + 1);
    }
}

/// Whether `p` stands somewhere in `s`.
pub fn contains(s: &str, p: &str) -> (r: bool)
    ensures
        r == occurs(s@, p@),
{
    let cs = chars_of(s);
    let pat = chars_of(p);
    proof {
        lemma_find_from(s@, p@, 0);
    }
    let r = find_in(cs.as_slice(), pat.as_slice()).is_some();
    proof {
        if occurs(s@, p@) {
            let i = choose|i: int| #[trigger] stands_at(s@, p@, i);
            assert(0 <= i);
        } else if let Some(i) = find(s@, p@) {
            assert(stands_at(s@, p@, i));
        }
    }
    r
}

} // verus!

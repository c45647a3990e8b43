//! What the pieces, the lines and the white space of a text are.

use crate::text::Sep;
use vstd::prelude::*;

verus! {

/// Texts one after the other, each with a line feed behind it.
pub open spec fn fed(lines: Seq<Seq<char>>) -> Seq<char>
    decreases lines.len(),
{
    if lines.len() == 0 {
        Seq::empty()
    } else {
        fed(lines.drop_last()) + lines.last() + seq!['\n']
    }
}

/// A line without the carriage return at its end, if it has one.
pub open spec fn without_return(line: Seq<char>) -> Seq<char> {
    if line.len() > 0 && line[line.len() - 1] == '\r' {
        line.take(line.len() - 1)
    } else {
        line
    }
}

/// No text holds a line feed.
pub open spec fn single_lines(lines: Seq<Seq<char>>) -> bool {
    forall|i: int| 0 <= i < lines.len() ==> !(#[trigger] lines[i]).contains('\n')
}

pub proof fn lemma_unbroken(s: Seq<char>, c: char)
    ensures
        crate::text::unbroken(s, Sep::Char(c)) <==> !s.contains(c),
{
    if !s.contains(c) {
        assert forall|i: int| 0 <= i < s.len() implies !crate::text::is_sep(
            Sep::Char(c),
            #[trigger] s[i],
        ) by {
            assert(s.contains(s[i]));
        }
    }
    if crate::text::unbroken(s, Sep::Char(c)) && s.contains(c) {
        let k = choose|k: int| 0 <= k < s.len() && s[k] == c;
        assert(!crate::text::is_sep(Sep::Char(c), s[k]));
    }
}

proof fn lemma_split_fed(lines: Seq<Seq<char>>)
    requires
        single_lines(lines),
    ensures
        crate::text::split(fed(lines), '\n') == lines.push(Seq::empty()),
    decreases lines.len(),
{
    let none = Seq::<char>::empty();
    let sep = Sep::Char('\n');
    if lines.len() > 0 {
        let init = lines.drop_last();
        let last = lines.last();
        assert forall|i: int| 0 <= i < init.len() implies !(#[trigger] init[i]).contains('\n') by {
            assert(init[i] == lines[i]);
        }
        lemma_split_fed(init);
        assert(!lines[lines.len() - 1].contains('\n'));
        lemma_unbroken(last, '\n');
        crate::text::lemma_pieces_unbroken(last, sep);
        crate::text::lemma_pieces_unbroken(none, sep);
        crate::text::lemma_pieces_concat(last, '\n', none, sep);
        assert(last.push('\n') + none == last + seq!['\n']);
        let block = last + seq!['\n'];
        assert(crate::text::split(block, '\n') == seq![last, none]);
        assert(fed(lines) == fed(init) + block);
        if init.len() == 0 {
            assert(fed(init) + block == block);
            assert(lines.push(none) == seq![last, none]);
        } else {
            let before = fed(init.drop_last()) + init.last();
            assert(fed(init) == before.push('\n'));
            crate::text::lemma_pieces_concat(before, '\n', none, sep);
            assert(before.push('\n') + none == fed(init));
            let p = crate::text::split(before, '\n');
            assert(p + seq![none] == init.push(none));
            assert(p == init) by {
                assert(p == (p + seq![none]).drop_last());
                assert(init == init.push(none).drop_last());
            }
            crate::text::lemma_pieces_concat(before, '\n', block, sep);
            assert(before.push('\n') + block == fed(lines));
            assert(init + seq![last, none] == lines.push(none));
        }
    } else {
        crate::text::lemma_pieces_unbroken(none, sep);
        assert(lines.push(none) == seq![none]);
    }
}

/// The lines of a text are what stands between its line feeds, without the
/// carriage return of a line end; all of them, the empty ones too.
pub proof fn lines_are_read_back(lines: Seq<Seq<char>>)
    requires
        single_lines(lines),
    ensures
        crate::text::lines(fed(lines)) == lines.map_values(|l: Seq<char>| without_return(l)),
{
    lemma_split_fed(lines);
    let p = lines.push(Seq::<char>::empty());
    assert(p.last().len() == 0);
    assert(crate::text::lines(fed(lines)) == lines.map_values(|l: Seq<char>| without_return(l)))
        by {
        assert forall|i: int| 0 <= i < lines.len() implies crate::text::lines(fed(lines))[i]
            == without_return(lines[i]) by {
            assert(p[i] == lines[i]);
            assert(lines[i].len() > 0 ==> lines[i].drop_last() == lines[i].take(
                lines[i].len() - 1,
            ));
        }
    }
}

/// A last line that nothing ends is a line too, and keeps what it ends in.
pub proof fn an_open_last_line_is_read(lines: Seq<Seq<char>>, last: Seq<char>)
    requires
        single_lines(lines),
        !last.contains('\n'),
        last.len() > 0,
    ensures
        crate::text::lines(fed(lines) + last) == lines.map_values(
            |l: Seq<char>| without_return(l),
        ).push(last),
{
    let text = fed(lines) + last;
    let sep = Sep::Char('\n');
    let none = Seq::<char>::empty();
    lemma_split_fed(lines);
    lemma_unbroken(last, '\n');
    crate::text::lemma_pieces_unbroken(last, sep);
    if lines.len() == 0 {
        assert(text == last);
        assert(crate::text::split(text, '\n') == lines.push(last));
    } else {
        let before = fed(lines.drop_last()) + lines.last();
        assert(fed(lines) == before.push('\n'));
        crate::text::lemma_pieces_concat(before, '\n', none, sep);
        crate::text::lemma_pieces_unbroken(none, sep);
        assert(before.push('\n') + none == fed(lines));
        let p = crate::text::split(before, '\n');
        assert(p + seq![none] == lines.push(none));
        assert(p == lines) by {
            assert(p == (p + seq![none]).drop_last());
            assert(lines == lines.push(none).drop_last());
        }
        crate::text::lemma_pieces_concat(before, '\n', last, sep);
        assert(before.push('\n') + last == text);
        assert(crate::text::split(text, '\n') == lines.push(last));
    }
    let goal = lines.map_values(|l: Seq<char>| without_return(l)).push(last);
    assert forall|i: int| 0 <= i < goal.len() implies crate::text::lines(text)[i] == goal[i] by {
        if i < lines.len() {
            assert(lines[i].len() > 0 ==> lines[i].drop_last() == lines[i].take(
                lines[i].len() - 1,
            ));
        }
    }
    assert(crate::text::lines(text) == goal);
}

/// White space: what Unicode gives that property.
pub proof fn white_space_is_what_unicode_says(c: char)
    ensures
        crate::text::is_white(c) <==> {
            ||| c == '\t'
            ||| c == '\n'
            ||| c == '\u{0b}'
            ||| c == '\u{0c}'
            ||| c == '\r'
            ||| c == ' '
            ||| c == '\u{85}'
            ||| c == '\u{a0}'
            ||| c == '\u{1680}'
            ||| '\u{2000}' <= c && c <= '\u{200a}'
            ||| c == '\u{2028}'
            ||| c == '\u{2029}'
            ||| c == '\u{202f}'
            ||| c == '\u{205f}'
            ||| c == '\u{3000}'
        },
{
}

proof fn lemma_trim_start(s: Seq<char>)
    ensures
        exists|a: Seq<char>|
            s == #[trigger] (a + crate::text::trim_start(s)) && forall|i: int|
                0 <= i < a.len() ==> crate::text::is_white(#[trigger] a[i]),
        crate::text::trim_start(s).len() > 0 ==> !crate::text::is_white(
            crate::text::trim_start(s)[0],
        ),
    decreases s.len(),
{
    if s.len() > 0 && crate::text::is_white(s[0]) {
        lemma_trim_start(s.drop_first());
        let b = choose|a: Seq<char>|
            s.drop_first() == #[trigger] (a + crate::text::trim_start(s.drop_first()))
                && forall|i: int| 0 <= i < a.len() ==> crate::text::is_white(#[trigger] a[i]);
        let a = seq![s[0]] + b;
        assert(s == a + crate::text::trim_start(s)) by {
            assert(s == seq![s[0]] + s.drop_first());
        }
        assert forall|i: int| 0 <= i < a.len() implies crate::text::is_white(#[trigger] a[i]) by {
            if i > 0 {
                assert(a[i] == b[i - 1]);
            }
        }
    } else {
        let a = Seq::<char>::empty();
        assert(s == a + crate::text::trim_start(s));
    }
}

proof fn lemma_trim_end(s: Seq<char>)
    ensures
        exists|b: Seq<char>|
            s == #[trigger] (crate::text::trim_end(s) + b) && forall|i: int|
                0 <= i < b.len() ==> crate::text::is_white(#[trigger] b[i]),
        crate::text::trim_end(s).len() > 0 ==> !crate::text::is_white(
            crate::text::trim_end(s).last(),
        ),
        crate::text::trim_end(s).len() > 0 ==> crate::text::trim_end(s)[0] == s[0],
    decreases s.len(),
{
    if s.len() > 0 && crate::text::is_white(s.last()) {
        lemma_trim_end(s.drop_last());
        let a = choose|b: Seq<char>|
            s.drop_last() == #[trigger] (crate::text::trim_end(s.drop_last()) + b) && forall|i: int|
                0 <= i < b.len() ==> crate::text::is_white(#[trigger] b[i]);
        let b = a.push(s.last());
        assert(s == crate::text::trim_end(s) + b) by {
            assert(s == s.drop_last().push(s.last()));
        }
        assert forall|i: int| 0 <= i < b.len() implies crate::text::is_white(#[trigger] b[i]) by {
            if i < a.len() {
                assert(b[i] == a[i]);
            }
        }
    } else {
        let b = Seq::<char>::empty();
        assert(s == crate::text::trim_end(s) + b);
    }
}

/// Trimming takes the white space off both ends, all of it and nothing else.
pub proof fn trimming_takes_off_white_space(s: Seq<char>)
    ensures
        ({
            let t = crate::text::trim(s);
            &&& exists|a: Seq<char>, b: Seq<char>|
                s == #[trigger] (a + t + b) && (forall|i: int|
                    0 <= i < a.len() ==> crate::text::is_white(#[trigger] a[i])) && (forall|i: int|
                    0 <= i < b.len() ==> crate::text::is_white(#[trigger] b[i]))
            &&& t.len() > 0 ==> !crate::text::is_white(t[0]) && !crate::text::is_white(t.last())
        }),
{
    let m = crate::text::trim_start(s);
    lemma_trim_start(s);
    lemma_trim_end(m);
    let a = choose|a: Seq<char>|
        s == #[trigger] (a + crate::text::trim_start(s)) && forall|i: int|
            0 <= i < a.len() ==> crate::text::is_white(#[trigger] a[i]);
    let b = choose|b: Seq<char>|
        m == #[trigger] (crate::text::trim_end(m) + b) && forall|i: int|
            0 <= i < b.len() ==> crate::text::is_white(#[trigger] b[i]);
    assert(s == a + crate::text::trim(s) + b);
}

/// A text is blank where it is nothing but white space.
pub proof fn blank_is_nothing_but_white_space(s: Seq<char>)
    ensures
        crate::text::is_blank(s) <==> forall|i: int|
            0 <= i < s.len() ==> crate::text::is_white(#[trigger] s[i]),
{
    if crate::text::is_blank(s) {
        assert forall|i: int| 0 <= i < s.len() implies crate::text::is_white(#[trigger] s[i]) by {
        }
    }
}

/// Splitting and joining undo each other, and no piece holds the separator: that
/// leaves only one way to split.
pub proof fn pieces_make_up_the_text(s: Seq<char>, c: char)
    ensures
        crate::text::join(crate::text::split(s, c), seq![c]) == s,
        crate::text::split(s, c).len() == 1 + s.filter(|x: char| x == c).len(),
        forall|i: int|
            0 <= i < crate::text::split(s, c).len() ==> !(#[trigger] crate::text::split(
                s,
                c,
            )[i]).contains(c),
    decreases s.len(),
{
    crate::text::lemma_join_split(s, c);
    crate::text::lemma_pieces_are_unbroken(s, Sep::Char(c));
    assert forall|i: int| 0 <= i < crate::text::split(s, c).len() implies !(
    #[trigger] crate::text::split(s, c)[i]).contains(c) by {
        lemma_unbroken(crate::text::split(s, c)[i], c);
    }
    reveal(Seq::filter);
    if s.len() > 0 {
        pieces_make_up_the_text(s.drop_last(), c);
    }
}

/// Joining puts the separator between each two parts.
pub proof fn joining_puts_the_separator_between(
    parts: Seq<Seq<char>>,
    sep: Seq<char>,
    last: Seq<char>,
)
    ensures
        crate::text::join(seq![last], sep) == last,
        parts.len() > 0 ==> crate::text::join(parts.push(last), sep) == crate::text::join(
            parts,
            sep,
        ) + sep + last,
        crate::text::join(Seq::empty(), sep) == Seq::<char>::empty(),
{
    assert(parts.push(last).drop_last() == parts);
    assert(seq![last][0] == last);
}

/// A text holds another where it is in it with something before and something
/// behind, or nothing.
pub proof fn a_text_holds_its_parts(a: Seq<char>, p: Seq<char>, b: Seq<char>)
    ensures
        crate::text::occurs(a + p + b, p),
        crate::text::starts_with(p + b, p),
{
    assert((a + p + b).subrange(a.len() as int, a.len() as int + p.len()) == p);
    assert(crate::text::stands_at(a + p + b, p, a.len() as int));
    assert((p + b).take(p.len() as int) == p);
}

/// And it holds nothing that is not in it.
pub proof fn what_a_text_holds_is_in_it(s: Seq<char>, p: Seq<char>)
    ensures
        crate::text::occurs(s, p) ==> exists|a: Seq<char>, b: Seq<char>| s == #[trigger] (a + p + b),
        crate::text::starts_with(s, p) ==> exists|b: Seq<char>| s == #[trigger] (p + b),
{
    if crate::text::occurs(s, p) {
        let i = choose|i: int| #[trigger] crate::text::stands_at(s, p, i);
        let a = s.take(i);
        let b = s.skip(i + p.len());
        assert(s == a + p + b);
    }
    if crate::text::starts_with(s, p) {
        let b = s.skip(p.len() as int);
        assert(s == p + b);
    }
}

/// Numbers are written in the ten digits, the last digit last.
pub proof fn numbers_are_written_in_decimal(a: nat, d: nat)
    requires
        d < 10,
    ensures
        crate::number::decimal(d).len() == 1,
        crate::number::decimal(d)[0] as u32 == 48 + d,
        a > 0 ==> crate::number::decimal(10 * a + d) == crate::number::decimal(a)
            + crate::number::decimal(d),
{
    if a > 0 {
        let n = 10 * a + d;
        assert(n / 10 == a && n % 10 == d);
        assert(crate::number::decimal(n) == crate::number::decimal(a) + crate::number::decimal(d));
    }
}

/// A number is read where it is written in digits and not too large, with a plus
/// sign or without; nothing else is read as one.
pub proof fn numbers_are_read(s: Seq<char>, n: nat, max: nat)
    ensures
        n <= max ==> crate::number::parse_number(crate::number::decimal(n), max) == Some(n),
        n <= max ==> crate::number::parse_number(seq!['+'] + crate::number::decimal(n), max)
            == Some(n),
        n > max ==> crate::number::parse_number(crate::number::decimal(n), max) is None,
        s.len() == 0 ==> crate::number::parse_number(s, max) is None,
        (exists|i: int|
            0 <= i < s.len() && !(48 <= (#[trigger] s[i]) as u32 <= 57) && (i > 0 || s[i] != '+'))
            ==> crate::number::parse_number(s, max) is None,
{
    let dec = crate::number::decimal(n);
    crate::number::decimal_reads_back(n);
    assert((seq!['+'] + dec).drop_first() == dec);
    if exists|i: int|
        0 <= i < s.len() && !(48 <= (#[trigger] s[i]) as u32 <= 57) && (i > 0 || s[i] != '+') {
        let i = choose|i: int|
            0 <= i < s.len() && !(48 <= (#[trigger] s[i]) as u32 <= 57) && (i > 0 || s[i] != '+');
        if s[0] == '+' {
            let d = s.drop_first();
            if i > 0 {
                assert(!crate::number::is_digit(d[i - 1]));
            }
        } else {
            assert(!crate::number::is_digit(s[i]));
        }
    }
}

/// In ASCII text, lower case is lower case letter by letter.
pub proof fn ascii_is_lowered_letter_by_letter(s: Seq<char>, i: int)
    requires
        forall|k: int| 0 <= k < s.len() ==> (#[trigger] s[k] as u32) < 128,
        0 <= i < s.len(),
    ensures
        crate::text::lowercase(s).len() == s.len(),
        'A' <= s[i] && s[i] <= 'Z' ==> crate::text::lowercase(s)[i] as u32 == s[i] as u32 + 32,
        !('A' <= s[i] && s[i] <= 'Z') ==> crate::text::lowercase(s)[i] == s[i],
{
}

/// Of the ASCII characters the letters and the ten digits are alphanumeric, and
/// no others.
pub proof fn letters_and_digits_are_alphanumeric(c: char)
    requires
        (c as u32) < 128,
    ensures
        crate::text::is_alphanumeric(c) <==> 48 <= c as u32 <= 57 || 65 <= c as u32 <= 90 || 97
            <= c as u32 <= 122,
{
}

/// Words stand between white space: a text without any is one word, or none where
/// it is empty, and white space between two texts leaves the words of both.
pub proof fn words_stand_between_white_space(a: Seq<char>, c: char, b: Seq<char>)
    requires
        crate::text::is_white(c),
    ensures
        crate::text::words(a + seq![c] + b) == crate::text::words(a) + crate::text::words(b),
        (forall|i: int| 0 <= i < a.len() ==> !crate::text::is_white(#[trigger] a[i])) && a.len() > 0
            ==> crate::text::words(a) == seq![a],
        crate::text::words(Seq::empty()).len() == 0,
{
    crate::text::lemma_words_concat(a, c, b);
    assert(a + seq![c] + b == a.push(c) + b);
    crate::text::lemma_words_unbroken(Seq::empty());
    if forall|i: int| 0 <= i < a.len() ==> !crate::text::is_white(#[trigger] a[i]) {
        assert forall|i: int| 0 <= i < a.len() implies !crate::text::is_sep(
            Sep::White,
            #[trigger] a[i],
        ) by {
        }
        crate::text::lemma_words_unbroken(a);
    }
}

/// A text is found at the first place where it is, and not found where it is
/// nowhere.
pub proof fn a_text_is_found_at_its_first_place(s: Seq<char>, p: Seq<char>, j: int)
    requires
        0 <= j,
        j + p.len() <= s.len(),
    ensures
        s.subrange(j, j + p.len()) == p ==> crate::text::find(s, p) is Some && crate::text::find(
            s,
            p,
        )->0 <= j,
        crate::text::find(s, p) matches Some(i) ==> 0 <= i && i + p.len() <= s.len() && s.subrange(
            i,
            i + p.len(),
        ) == p,
{
    crate::text::lemma_find_from(s, p, 0);
    assert(crate::text::stands_at(s, p, j) <==> s.subrange(j, j + p.len()) == p);
}

} // verus!

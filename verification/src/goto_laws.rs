//! What becomes of a grep hit: a candidate, a numbered line of the prompt, and
//! the definition where its number is the reply.

use crate::gotodef::CandidateModel;
use crate::text::Sep;
use vstd::prelude::*;

verus! {

/// A place that `git grep -n` found.
pub struct Hit {
    pub path: Seq<char>,
    pub line: nat,
    pub code: Seq<char>,
}

/// A hit as it is printed.
pub open spec fn hit_line(h: Hit) -> Seq<char> {
    h.path + seq![':'] + crate::number::decimal(h.line) + seq![':'] + h.code
}

/// A hit that can be told from its line: the path holds no colon, and neither
/// it nor the code a line feed.
pub open spec fn is_plain_hit(h: Hit) -> bool {
    &&& !h.path.contains(':')
    &&& !h.path.contains('\n')
    &&& !h.code.contains('\n')
    &&& h.line <= usize::MAX
}

/// The candidate for a hit: the file, the line, and the code without the white
/// space around it, cut at 200 characters.
pub open spec fn candidate_for(h: Hit) -> CandidateModel {
    let code = crate::text::trim(h.code);
    CandidateModel {
        file: h.path,
        line: h.line as usize,
        text: if code.len() > 200 {
            code.take(200)
        } else {
            code
        },
    }
}

proof fn lemma_digits_hold_none(n: nat, c: char)
    requires
        !crate::number::is_digit(c),
    ensures
        !crate::number::decimal(n).contains(c),
{
    let dec = crate::number::decimal(n);
    crate::number::decimal_reads_back(n);
    if dec.contains(c) {
        let k = choose|k: int| 0 <= k < dec.len() && dec[k] == c;
        assert(crate::number::is_digit(dec[k]));
    }
}

/// A hit is read as its candidate, whatever its line number.
pub proof fn a_hit_is_a_candidate(h: Hit)
    requires
        !h.path.contains(':'),
        h.line <= usize::MAX,
    ensures
        crate::gotodef::candidate_of(hit_line(h)) == Some(candidate_for(h)),
{
    let dec = crate::number::decimal(h.line);
    let line = hit_line(h);
    let sep = Sep::Char(':');
    crate::text_laws::lemma_unbroken(h.path, ':');
    lemma_digits_hold_none(h.line, ':');
    crate::text_laws::lemma_unbroken(dec, ':');
    crate::text::lemma_pieces_unbroken(h.path, sep);
    crate::text::lemma_pieces_unbroken(dec, sep);
    crate::text::lemma_pieces_concat(h.path, ':', dec.push(':') + h.code, sep);
    crate::text::lemma_pieces_concat(dec, ':', h.code, sep);
    crate::text::lemma_pieces_nonempty(h.code, sep);
    assert(line == h.path.push(':') + (dec.push(':') + h.code));
    let rest = crate::text::split(h.code, ':');
    let p = crate::text::split(line, ':');
    assert(p == seq![h.path] + (seq![dec] + rest));
    assert(p[0] == h.path && p[1] == dec);
    assert(p.skip(2) == rest);
    crate::text::lemma_join_split(h.code, ':');
    crate::number::decimal_reads_back(h.line);
}

proof fn lemma_trim_start_push(s: Seq<char>, c: char)
    requires
        crate::text::is_white(c),
    ensures
        crate::text::trim_start(s.push(c)) == if crate::text::trim_start(s).len() == 0 {
            Seq::empty()
        } else {
            crate::text::trim_start(s).push(c)
        },
    decreases s.len(),
{
    if s.len() == 0 {
        assert(s.push(c).drop_first() == Seq::<char>::empty());
        assert(crate::text::trim_start(Seq::<char>::empty()).len() == 0);
    } else if crate::text::is_white(s[0]) {
        assert(s.push(c)[0] == s[0]);
        assert(s.push(c).drop_first() == s.drop_first().push(c));
        lemma_trim_start_push(s.drop_first(), c);
    } else {
        assert(s.push(c)[0] == s[0]);
    }
}

proof fn lemma_trim_push(s: Seq<char>, c: char)
    requires
        crate::text::is_white(c),
    ensures
        crate::text::trim(s.push(c)) == crate::text::trim(s),
{
    lemma_trim_start_push(s, c);
    let m = crate::text::trim_start(s);
    if m.len() > 0 {
        assert(m.push(c).drop_last() == m);
    } else {
        assert(m == Seq::<char>::empty());
    }
}

/// The hit without the carriage return that its code ends in.
spec fn without_return(h: Hit) -> Hit {
    Hit { code: crate::text_laws::without_return(h.code), ..h }
}

proof fn lemma_printed_without_return(h: Hit)
    requires
        !h.path.contains(':'),
        h.line <= usize::MAX,
    ensures
        crate::gotodef::candidate_of(crate::text_laws::without_return(hit_line(h))) == Some(
            candidate_for(h),
        ),
{
    let g = without_return(h);
    let line = hit_line(h);
    if h.code.len() > 0 {
        assert(line[line.len() - 1] == h.code[h.code.len() - 1]);
        assert(line.take(line.len() - 1) == h.path + seq![':'] + crate::number::decimal(h.line)
            + seq![':'] + h.code.take(h.code.len() - 1));
    } else {
        assert(line[line.len() - 1] == ':');
    }
    assert(crate::text_laws::without_return(line) == hit_line(g));
    a_hit_is_a_candidate(g);
    if h.code.len() > 0 && h.code[h.code.len() - 1] == '\r' {
        assert(h.code == g.code.push('\r'));
        lemma_trim_push(g.code, '\r');
    }
}

/// Hits as they are printed, a line each.
pub open spec fn hit_lines(hits: Seq<Hit>) -> Seq<Seq<char>> {
    hits.map_values(|h: Hit| hit_line(h))
}

proof fn lemma_candidates(lines: Seq<Seq<char>>, hits: Seq<Hit>)
    requires
        lines.len() == hits.len(),
        forall|i: int|
            0 <= i < lines.len() ==> crate::gotodef::candidate_of(#[trigger] lines[i]) == Some(
                candidate_for(hits[i]),
            ),
    ensures
        crate::gotodef::candidates_in(lines) == hits.map_values(|h: Hit| candidate_for(h)).take(
            if hits.len() < 60 {
                hits.len() as int
            } else {
                60
            },
        ),
    decreases lines.len(),
{
    let all = hits.map_values(|h: Hit| candidate_for(h));
    if lines.len() > 0 {
        let n = lines.len() - 1;
        let init = hits.drop_last();
        assert forall|i: int| 0 <= i < n implies crate::gotodef::candidate_of(
            #[trigger] lines.drop_last()[i],
        ) == Some(candidate_for(init[i])) by {
            assert(crate::gotodef::candidate_of(lines[i]) == Some(candidate_for(hits[i])));
        }
        lemma_candidates(lines.drop_last(), init);
        assert(crate::gotodef::candidate_of(lines[n]) == Some(candidate_for(hits[n])));
        let before = init.map_values(|h: Hit| candidate_for(h));
        assert(before == all.take(n));
        if n < 60 {
            assert(before.take(n) == all.take(n));
            assert(all.take(n).push(all[n]) == all.take(n + 1));
        } else {
            assert(before.take(60) == all.take(60));
        }
    } else {
        assert(all.take(0) == Seq::<CandidateModel>::empty());
    }
}

/// Every hit is a candidate, in the order in which they were printed, up to the
/// sixtieth.
pub proof fn every_hit_is_a_candidate(hits: Seq<Hit>)
    requires
        forall|i: int| 0 <= i < hits.len() ==> is_plain_hit(#[trigger] hits[i]),
    ensures
        crate::gotodef::candidates_in(
            crate::text::lines(crate::text_laws::fed(hit_lines(hits))),
        ) == hits.map_values(|h: Hit| candidate_for(h)).take(
            if hits.len() < 60 {
                hits.len() as int
            } else {
                60
            },
        ),
{
    let lines = hit_lines(hits);
    assert forall|i: int| 0 <= i < lines.len() implies !(#[trigger] lines[i]).contains('\n') by {
        let h = hits[i];
        assert(is_plain_hit(h));
        lemma_digits_hold_none(h.line, '\n');
        if lines[i].contains('\n') {
            let k = choose|k: int| 0 <= k < lines[i].len() && lines[i][k] == '\n';
            let dec = crate::number::decimal(h.line);
            if k < h.path.len() {
                assert(h.path.contains(h.path[k]));
            } else if h.path.len() < k < h.path.len() + 1 + dec.len() {
                assert(dec.contains(dec[k - h.path.len() - 1]));
            } else if k > h.path.len() + 1 + dec.len() {
                assert(h.code.contains(h.code[k - h.path.len() - dec.len() - 2]));
            }
        }
    }
    crate::text_laws::lines_are_read_back(lines);
    let read = crate::text::lines(crate::text_laws::fed(lines));
    assert forall|i: int| 0 <= i < read.len() implies crate::gotodef::candidate_of(
        #[trigger] read[i],
    ) == Some(candidate_for(hits[i])) by {
        assert(is_plain_hit(hits[i]));
        lemma_printed_without_return(hits[i]);
        assert(read[i] == crate::text_laws::without_return(lines[i]));
    }
    lemma_candidates(read, hits);
}

/// A line without two colons is no hit, nor is one in which no number stands
/// between them.
pub proof fn other_lines_are_no_candidates(line: Seq<char>)
    ensures
        line.filter(|c: char| c == ':').len() < 2 ==> crate::gotodef::candidate_of(line) is None,
        crate::number::parse_number(crate::text::split(line, ':')[1], usize::MAX as nat) is None
            ==> crate::gotodef::candidate_of(line) is None,
{
    crate::text_laws::pieces_make_up_the_text(line, ':');
}

/// A candidate as the prompt lists it, under its number.
pub open spec fn numbered_line(n: nat, c: CandidateModel) -> Seq<char> {
    crate::number::decimal(n) + ". "@ + c.file + ":"@ + crate::number::decimal(c.line as nat)
        + ": "@ + c.text + "\n"@
}

/// Candidates as the prompt lists them, numbered from 1.
pub open spec fn numbered_lines(cands: Seq<CandidateModel>) -> Seq<char>
    decreases cands.len(),
{
    if cands.len() == 0 {
        Seq::empty()
    } else {
        numbered_lines(cands.drop_last()) + numbered_line(cands.len(), cands.last())
    }
}

proof fn lemma_numbered(cands: Seq<CandidateModel>)
    ensures
        crate::gotodef::numbered_candidates(cands) == numbered_lines(cands),
    decreases cands.len(),
{
    if cands.len() > 0 {
        lemma_numbered(cands.drop_last());
        assert(crate::gotodef::numbered_candidates(cands) == numbered_lines(cands));
    }
}

proof fn lemma_line_within(cands: Seq<CandidateModel>, k: int) -> (r: (Seq<char>, Seq<char>))
    requires
        0 <= k < cands.len(),
    ensures
        numbered_lines(cands) == r.0 + numbered_line((k + 1) as nat, cands[k]) + r.1,
    decreases cands.len(),
{
    if k == cands.len() - 1 {
        let r = (numbered_lines(cands.drop_last()), Seq::<char>::empty());
        assert(numbered_lines(cands) == r.0 + numbered_line((k + 1) as nat, cands[k]) + r.1);
        r
    } else {
        let (a, b) = lemma_line_within(cands.drop_last(), k);
        let r = (a, b + numbered_line(cands.len(), cands.last()));
        assert(numbered_lines(cands) == r.0 + numbered_line((k + 1) as nat, cands[k]) + r.1);
        r
    }
}

/// The prompt asks for the definition of the symbol, says where it is used if
/// that is known, and ends with every candidate in order under its number.
pub proof fn the_prompt_lists_the_candidates(
    symbol: Seq<char>,
    usage: Option<Seq<char>>,
    cands: Seq<CandidateModel>,
)
    ensures
        crate::gotodef::prompt(symbol, usage, cands) == "You are locating where the symbol `"@
            + symbol + "` is DEFINED or DECLARED (not merely used) in a codebase.\n"@ + (
        match usage {
            Some(u) => "It is used here: "@ + u + "\n"@,
            None => Seq::empty(),
        })
            + "\nCandidate locations (file:line: code):\nReply with ONLY the number of the candidate that is the definition/declaration. If none is a definition, reply 0. No other text.\n\n"@
            + numbered_lines(cands),
{
    lemma_numbered(cands);
}

/// The number under which the prompt lists a candidate is the reply that chooses
/// it, also where the reply says more than the number.
pub proof fn the_listed_number_chooses_the_candidate(
    symbol: Seq<char>,
    usage: Option<Seq<char>>,
    cands: Seq<CandidateModel>,
    k: int,
    before: Seq<char>,
    behind: Seq<char>,
)
    requires
        0 <= k < cands.len() <= usize::MAX,
        forall|i: int| 0 <= i < before.len() ==> !('0' <= #[trigger] before[i] && before[i] <= '9'),
        behind.len() > 0 ==> !('0' <= behind[0] && behind[0] <= '9'),
    ensures
        exists|a: Seq<char>, b: Seq<char>|
            crate::gotodef::prompt(symbol, usage, cands) == #[trigger] (a + numbered_line(
                (k + 1) as nat,
                cands[k],
            ) + b),
        crate::gotodef::chosen(
            before + crate::number::decimal((k + 1) as nat) + behind,
            cands,
        ) == Some(cands[k]),
{
    let (a, b) = lemma_line_within(cands, k);
    lemma_numbered(cands);
    let all = crate::gotodef::prompt(symbol, usage, cands);
    let line = numbered_line((k + 1) as nat, cands[k]);
    let front = all.take(all.len() - numbered_lines(cands).len());
    assert(all == front + numbered_lines(cands));
    assert(all == (front + a) + line + b);
    the_first_number_is_the_choice((k + 1) as nat, before, behind);
}

proof fn lemma_from_digit(before: Seq<char>, rest: Seq<char>)
    requires
        forall|i: int| 0 <= i < before.len() ==> !crate::number::is_digit(#[trigger] before[i]),
        rest.len() > 0,
        crate::number::is_digit(rest[0]),
    ensures
        crate::gotodef::from_digit(before + rest) == rest,
    decreases before.len(),
{
    if before.len() > 0 {
        let s = before + rest;
        let t = before.drop_first();
        assert(s[0] == before[0]);
        assert(s.drop_first() == t + rest);
        assert forall|i: int| 0 <= i < t.len() implies !crate::number::is_digit(
            #[trigger] t[i],
        ) by {
            assert(t[i] == before[i + 1]);
        }
        lemma_from_digit(t, rest);
    } else {
        assert(before + rest == rest);
    }
}

proof fn lemma_digits(digits: Seq<char>, rest: Seq<char>)
    requires
        crate::number::all_digits(digits),
        rest.len() > 0 ==> !crate::number::is_digit(rest[0]),
    ensures
        crate::gotodef::leading_digits(digits + rest) == digits,
    decreases digits.len(),
{
    let s = digits + rest;
    if digits.len() > 0 {
        let t = digits.drop_first();
        assert(s[0] == digits[0]);
        assert(s.drop_first() == t + rest);
        assert forall|i: int| 0 <= i < t.len() implies crate::number::is_digit(#[trigger] t[i]) by {
            assert(t[i] == digits[i + 1]);
        }
        lemma_digits(t, rest);
        assert(seq![s[0]] + t == digits);
    } else {
        assert(s == rest);
        assert(crate::gotodef::leading_digits(s) == digits);
    }
}

/// The first number in a reply is the choice, whatever stands around it.
pub proof fn the_first_number_is_the_choice(n: nat, before: Seq<char>, behind: Seq<char>)
    requires
        n <= usize::MAX,
        forall|i: int| 0 <= i < before.len() ==> !('0' <= #[trigger] before[i] && before[i] <= '9'),
        behind.len() > 0 ==> !('0' <= behind[0] && behind[0] <= '9'),
    ensures
        crate::gotodef::choice(before + crate::number::decimal(n) + behind) == Some(n),
{
    let dec = crate::number::decimal(n);
    crate::number::decimal_reads_back(n);
    assert forall|i: int| 0 <= i < before.len() implies !crate::number::is_digit(
        #[trigger] before[i],
    ) by {
        assert(!('0' <= before[i] && before[i] <= '9'));
    }
    assert(crate::number::is_digit(dec[0]));
    assert(before + dec + behind == before + (dec + behind));
    lemma_from_digit(before, dec + behind);
    lemma_digits(dec, behind);
}

proof fn lemma_no_digit(s: Seq<char>)
    requires
        forall|i: int| 0 <= i < s.len() ==> !crate::number::is_digit(#[trigger] s[i]),
    ensures
        crate::gotodef::from_digit(s).len() == 0,
    decreases s.len(),
{
    if s.len() > 0 {
        let t = s.drop_first();
        assert forall|i: int| 0 <= i < t.len() implies !crate::number::is_digit(
            #[trigger] t[i],
        ) by {
            assert(t[i] == s[i + 1]);
        }
        lemma_no_digit(t);
    }
}

/// A reply without a number chooses nothing, and neither does 0 nor a number
/// beyond the candidates.
pub proof fn other_replies_choose_nothing(reply: Seq<char>, n: nat, cands: Seq<CandidateModel>)
    requires
        n <= usize::MAX,
    ensures
        (forall|i: int|
            0 <= i < reply.len() ==> !('0' <= #[trigger] reply[i] && reply[i] <= '9'))
            ==> crate::gotodef::chosen(reply, cands) is None,
        n == 0 || n > cands.len() ==> crate::gotodef::chosen(
            crate::number::decimal(n),
            cands,
        ) is None,
{
    let none = Seq::<char>::empty();
    if forall|i: int| 0 <= i < reply.len() ==> !('0' <= #[trigger] reply[i] && reply[i] <= '9') {
        assert forall|i: int| 0 <= i < reply.len() implies !crate::number::is_digit(
            #[trigger] reply[i],
        ) by {
            assert(!('0' <= reply[i] && reply[i] <= '9'));
        }
        lemma_no_digit(reply);
        assert(crate::gotodef::leading_digits(crate::gotodef::from_digit(reply)).len() == 0);
    }
    the_first_number_is_the_choice(n, none, none);
    assert(none + crate::number::decimal(n) + none == crate::number::decimal(n));
}

/// A symbol that is searched for is made of letters, digits, underscores, colons
/// and tildes, one at least; in ASCII these and no others.
pub proof fn symbols_are_identifiers(s: Seq<char>)
    ensures
        crate::gotodef::is_symbol(s) <==> s.len() > 0 && forall|i: int|
            0 <= i < s.len() ==> {
                ||| crate::text::is_alphanumeric(#[trigger] s[i])
                ||| s[i] == '_'
                ||| s[i] == ':'
                ||| s[i] == '~'
            },
        forall|c: char|
            (c as u32) < 128 ==> (#[trigger] crate::text::is_alphanumeric(c) <==> ('0' <= c && c
                <= '9') || ('a' <= c && c <= 'z') || ('A' <= c && c <= 'Z')),
{
    if s.len() > 0 && forall|i: int|
        0 <= i < s.len() ==> {
            ||| crate::text::is_alphanumeric(#[trigger] s[i])
            ||| s[i] == '_'
            ||| s[i] == ':'
            ||| s[i] == '~'
        } {
        assert forall|i: int| 0 <= i < s.len() implies crate::gotodef::is_symbol_char(
            #[trigger] s[i],
        ) by {
            assert(crate::text::is_alphanumeric(s[i]) || s[i] == '_' || s[i] == ':' || s[i] == '~');
        }
    }
    if crate::gotodef::is_symbol(s) {
        assert forall|i: int| 0 <= i < s.len() implies {
            ||| crate::text::is_alphanumeric(#[trigger] s[i])
            ||| s[i] == '_'
            ||| s[i] == ':'
            ||| s[i] == '~'
        } by {
            assert(crate::gotodef::is_symbol_char(s[i]));
        }
    }
}

/// The agent is asked for one of its own models, named by the program, wherever
/// the program stands.
pub proof fn the_agent_is_asked_for_its_own_model(dir: Seq<char>, name: Seq<char>)
    requires
        !name.contains('/'),
    ensures
        crate::gotodef::agent_args(dir + "/"@ + name) == seq![
            "-p"@,
            "--model"@,
            name + "-haiku-4-5-20251001"@,
        ],
        crate::gotodef::agent_args(name) == seq![
            "-p"@,
            "--model"@,
            name + "-haiku-4-5-20251001"@,
        ],
{
    reveal_strlit("/");
    assert("/"@ == seq!['/']);
    crate::state_laws::base_names_follow_the_last_slash(dir, name);
}

} // verus!
